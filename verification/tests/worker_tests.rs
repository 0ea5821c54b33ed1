use job_queue::client::{plan_dispatch, ClientBuilder, DispatchOptions};
use job_queue::job::{
    default_backoff, default_queue, default_timeout, default_tries, JobProfile, Registry,
};
use job_queue::worker::{Supervisor, WorkerBuilder};

#[test]
fn client_builder_defaults_and_setters() {
    let b = ClientBuilder::new();
    assert_eq!(b.max_connections, 10);
    assert_eq!(b.min_connections, 0);
    let b = ClientBuilder::new().max_connections(20).min_connections(2);
    assert_eq!(b.max_connections, 20);
    assert_eq!(b.min_connections, 2);
}

#[test]
fn worker_builder_defaults_and_setters() {
    let b = WorkerBuilder::new();
    assert_eq!(b.max_connections, 10);
    assert_eq!(b.min_connections, 0);
    assert_eq!(b.worker_count, 1);
    assert_eq!(b.retry_after, 300);
    assert_eq!(b.queue, "default");
    let b = WorkerBuilder::new()
        .max_connections(8)
        .min_connections(1)
        .worker_count(4)
        .retry_after(60)
        .queue("mail");
    assert_eq!(b.max_connections, 8);
    assert_eq!(b.min_connections, 1);
    assert_eq!(b.worker_count, 4);
    assert_eq!(b.retry_after, 60);
    assert_eq!(b.queue, "mail");
}

#[test]
fn dispatch_options_carry_queue_and_delay() {
    let options = DispatchOptions { queue: Some("mail".to_string()), delay: Some(5) };
    assert_eq!(options.queue.as_deref(), Some("mail"));
    assert_eq!(options.delay, Some(5));
}

#[test]
fn plan_dispatch_fills_the_row() {
    let nj = plan_dispatch("mail".to_string(), "{}".to_string(), 5, 100);
    assert_eq!(nj.queue, "mail");
    assert_eq!(nj.payload, "{}");
    assert_eq!(nj.attempts, 0);
    assert_eq!(nj.available_at, 105);
    assert_eq!(nj.created_at, 100);
    assert_eq!(nj.uuid.len(), 36);
    assert!(nj.uuid.contains('-'));
}

#[test]
fn job_defaults() {
    assert_eq!(default_queue(), "default");
    assert_eq!(default_tries(), 1);
    assert_eq!(default_timeout(), 300);
    assert_eq!(default_backoff(0), 1);
    assert_eq!(default_backoff(1), 2);
    assert_eq!(default_backoff(5), 32);
    assert_eq!(default_backoff(31), 2147483648);
}

#[test]
fn registry_resolves_first_registration() {
    let mut r = Registry::new();
    assert!(r.resolve("HelloJob").is_none());
    r.register(
        "HelloJob".to_string(),
        JobProfile { queue: "default".to_string(), tries: 3, timeout: 60 },
    );
    r.register(
        "HelloJob".to_string(),
        JobProfile { queue: "other".to_string(), tries: 9, timeout: 9 },
    );
    let p = r.resolve("HelloJob").expect("registered");
    assert_eq!(p.queue, "default");
    assert_eq!(p.tries, 3);
    assert_eq!(p.timeout, 60);
    assert!(r.resolve("Unknown").is_none());
}

#[test]
fn supervisor_graceful_shutdown() {
    let mut s = Supervisor::new(2);
    assert!(!s.is_cancelled());
    assert!(s.should_run(0));
    assert!(s.should_run(1));

    // An iteration before cancellation keeps both loops alive.
    s.end_iteration(0);
    assert!(s.should_run(0));

    s.cancel();
    assert!(s.is_cancelled());
    // Loops finish the iteration they are in, then retire.
    assert!(s.should_run(0));
    s.end_iteration(0);
    assert!(!s.should_run(0));
    assert!(!s.all_finished());
    assert!(!s.take_on_stopping());

    s.end_iteration(1);
    assert!(!s.should_run(1));
    assert!(s.all_finished());

    // The stop callback is claimed exactly once.
    assert!(s.take_on_stopping());
    assert!(!s.take_on_stopping());
}
