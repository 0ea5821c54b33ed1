use job_queue::client::plan_dispatch;
use job_queue::codec::{decode_payload, encode_payload};
use job_queue::engine::{decide, QueueState, RunnerAction};
use job_queue::errors::Error;
use job_queue::job::HelloJob;
use job_queue::models::NewJob;

fn dispatch_hello(q: &mut QueueState, message: &str, queue: &str, delay: u64, now: u64) -> u64 {
    let job = HelloJob { message: message.to_string() };
    let payload = encode_payload(&job.to_payload());
    let nj = plan_dispatch(queue.to_string(), payload, delay, now);
    q.insert_job(nj)
}

#[test]
fn s1_happy_path() {
    let mut q = QueueState::new();
    let id = dispatch_hello(&mut q, "hi", "default", 0, 1000);
    assert_eq!(q.jobs_len(), 1);
    assert_eq!(q.job_at(0).attempts, 0);
    assert_eq!(q.job_at(0).uuid.len(), 36);

    let task = q.reserve("default", 1000, 300).expect("row is eligible");
    assert_eq!(task.id, id);
    assert_eq!(task.attempts, 0);

    let payload = decode_payload(&task.payload).expect("payload decodes");
    let job = HelloJob::from_payload(&payload).expect("tag is registered");
    assert_eq!(job.message, "hi");

    let action = decide(&task, &Ok(()), 1, 2, "default".to_string(), task.payload.clone(), 1000);
    assert!(matches!(action, RunnerAction::Complete));
    q.finish(task.id, action).expect("terminal write commits");
    assert_eq!(q.jobs_len(), 0);
    assert_eq!(q.failed_len(), 0);
}

#[test]
fn s2_delay_withholds_the_row() {
    let mut q = QueueState::new();
    dispatch_hello(&mut q, "x", "default", 5, 100);
    assert_eq!(q.job_at(0).available_at, 105);
    assert!(q.reserve("default", 101, 300).is_none());
    let task = q.reserve("default", 106, 300).expect("available now");
    assert_eq!(task.attempts, 0);
}

#[test]
fn s3_retry_then_succeed() {
    let mut q = QueueState::new();
    dispatch_hello(&mut q, "flaky", "default", 0, 200);
    let uuid = q.job_at(0).uuid.clone();

    let task = q.reserve("default", 200, 300).expect("eligible");
    let outcome: Result<(), Error> = Err(Error::Message("boom".to_string()));
    // tries = 3, backoff(1) = 2
    let action = decide(&task, &outcome, 3, 2, "default".to_string(), task.payload.clone(), 200);
    assert!(matches!(action, RunnerAction::Retry(_)));
    q.finish(task.id, action).unwrap();

    assert_eq!(q.jobs_len(), 1);
    let row = q.job_at(0);
    assert_eq!(row.uuid, uuid);
    assert_eq!(row.attempts, 1);
    assert_eq!(row.available_at, 202);
    assert!(row.reserved_at.is_none());

    assert!(q.reserve("default", 201, 300).is_none());
    let task2 = q.reserve("default", 202, 300).expect("backoff has passed");
    assert_eq!(task2.attempts, 1);
    let action2 = decide(&task2, &Ok(()), 3, 4, "default".to_string(), task2.payload.clone(), 202);
    q.finish(task2.id, action2).unwrap();
    assert_eq!(q.jobs_len(), 0);
    assert_eq!(q.failed_len(), 0);
}

#[test]
fn s4_dead_letter_after_exhausted_tries() {
    let mut q = QueueState::new();
    dispatch_hello(&mut q, "doomed", "default", 0, 300);
    let uuid = q.job_at(0).uuid.clone();

    let task = q.reserve("default", 300, 300).expect("eligible");
    let outcome: Result<(), Error> = Err(Error::Message("boom".to_string()));
    // tries = 2, backoff(1) = 2
    let action = decide(&task, &outcome, 2, 2, "default".to_string(), task.payload.clone(), 300);
    assert!(matches!(action, RunnerAction::Retry(_)));
    q.finish(task.id, action).unwrap();

    let task2 = q.reserve("default", 302, 300).expect("retry is due");
    assert_eq!(task2.attempts, 1);
    let outcome2: Result<(), Error> = Err(Error::Message("boom".to_string()));
    let action2 =
        decide(&task2, &outcome2, 2, 4, "default".to_string(), task2.payload.clone(), 302);
    assert!(matches!(action2, RunnerAction::DeadLetter(_)));
    q.finish(task2.id, action2).unwrap();

    assert_eq!(q.jobs_len(), 0);
    assert_eq!(q.failed_len(), 1);
    let dead = q.failed_at(0);
    assert_eq!(dead.uuid, uuid);
    assert_eq!(dead.exception, "job error: boom");
    assert_eq!(dead.failed_at, 302);
}

#[test]
fn s5_crashed_worker_reclaim() {
    let mut q = QueueState::new();
    dispatch_hello(&mut q, "stuck", "default", 0, 400);

    let task = q.reserve("default", 400, 5).expect("eligible");
    assert_eq!(task.attempts, 0);
    assert_eq!(q.job_at(0).attempts, 1);
    assert_eq!(q.job_at(0).reserved_at, Some(400));
    // The transaction is lost without committing a terminal write; the
    // row keeps its reservation mark until the stale window passes.
    assert!(q.reserve("default", 404, 5).is_none());

    let task2 = q.reserve("default", 406, 5).expect("stale reservation is reclaimed");
    assert_eq!(task2.id, task.id);
    assert_eq!(task2.attempts, 1);
    assert_eq!(q.job_at(0).attempts, 2);
}

#[test]
fn s6_every_job_handled_exactly_once_by_drain() {
    let mut q = QueueState::new();
    for i in 0..100 {
        dispatch_hello(&mut q, &format!("job {}", i), "default", 0, 500);
    }
    let mut seen: Vec<u64> = Vec::new();
    while let Some(task) = q.reserve("default", 500, 300) {
        assert!(!seen.contains(&task.id), "a row was handed out twice");
        seen.push(task.id);
        let action =
            decide(&task, &Ok(()), 1, 2, "default".to_string(), task.payload.clone(), 500);
        q.finish(task.id, action).unwrap();
    }
    assert_eq!(seen.len(), 100);
    assert_eq!(q.jobs_len(), 0);
}

#[test]
fn s7_admin_retry_restores_the_row() {
    let mut q = QueueState::new();
    dispatch_hello(&mut q, "doomed", "default", 0, 600);
    let uuid = q.job_at(0).uuid.clone();
    let task = q.reserve("default", 600, 300).unwrap();
    let outcome: Result<(), Error> = Err(Error::JobTimeout);
    let action = decide(&task, &outcome, 1, 2, "default".to_string(), task.payload.clone(), 600);
    q.finish(task.id, action).unwrap();
    assert_eq!(q.failed_len(), 1);
    assert_eq!(q.failed_at(0).exception, "job timeout");

    q.retry_failed_job(&uuid, 700).expect("dead letter exists");
    assert_eq!(q.failed_len(), 0);
    assert_eq!(q.jobs_len(), 1);
    let row = q.job_at(0);
    assert_eq!(row.uuid, uuid);
    assert_eq!(row.attempts, 0);
    assert_eq!(row.available_at, 700);
    assert_eq!(row.created_at, 700);
}

#[test]
fn fifo_smallest_id_wins() {
    let mut q = QueueState::new();
    let first = dispatch_hello(&mut q, "a", "default", 0, 800);
    let second = dispatch_hello(&mut q, "b", "default", 0, 800);
    assert!(first < second);
    let task = q.reserve("default", 800, 300).unwrap();
    assert_eq!(task.id, first);
}

#[test]
fn reservation_respects_queue_names() {
    let mut q = QueueState::new();
    dispatch_hello(&mut q, "a", "mail", 0, 900);
    assert!(q.reserve("default", 900, 300).is_none());
    assert!(q.reserve("mail", 900, 300).is_some());
}

#[test]
fn retry_failed_job_without_the_uuid_is_an_error() {
    let mut q = QueueState::new();
    let r = q.retry_failed_job("no-such-uuid", 10);
    assert!(matches!(r, Err(Error::DatabaseError(_))));
}

#[test]
fn retry_all_failed_jobs_empties_the_dead_letters() {
    let mut q = QueueState::new();
    let mut uuids: Vec<String> = Vec::new();
    for i in 0..3 {
        dispatch_hello(&mut q, &format!("d{}", i), "default", 0, 50);
        let uuid = q.job_at(q.jobs_len() - 1).uuid.clone();
        uuids.push(uuid);
    }
    for _ in 0..3 {
        let task = q.reserve("default", 50, 300).unwrap();
        let outcome: Result<(), Error> = Err(Error::JobPanic);
        let action =
            decide(&task, &outcome, 1, 2, "default".to_string(), task.payload.clone(), 50);
        q.finish(task.id, action).unwrap();
    }
    assert_eq!(q.failed_len(), 3);
    q.retry_all_failed_jobs(60).unwrap();
    assert_eq!(q.failed_len(), 0);
    assert_eq!(q.jobs_len(), 3);
    for i in 0..3 {
        let row = q.job_at(i);
        assert_eq!(row.uuid, uuids[i]);
        assert_eq!(row.attempts, 0);
        assert_eq!(row.available_at, 60);
    }
}

#[test]
fn delete_operations() {
    let mut q = QueueState::new();
    dispatch_hello(&mut q, "a", "default", 0, 70);
    dispatch_hello(&mut q, "b", "default", 0, 70);
    let uuid = q.job_at(0).uuid.clone();
    q.delete_job(&uuid).unwrap();
    assert_eq!(q.jobs_len(), 1);
    q.delete_all_jobs().unwrap();
    assert_eq!(q.jobs_len(), 0);

    dispatch_hello(&mut q, "c", "default", 0, 70);
    let task = q.reserve("default", 70, 300).unwrap();
    let outcome: Result<(), Error> = Err(Error::Unknown);
    let action = decide(&task, &outcome, 1, 2, "default".to_string(), task.payload.clone(), 70);
    q.finish(task.id, action).unwrap();
    let dead_uuid = q.failed_at(0).uuid.clone();
    q.delete_failed_job("missing").unwrap();
    assert_eq!(q.failed_len(), 1);
    q.delete_failed_job(&dead_uuid).unwrap();
    assert_eq!(q.failed_len(), 0);
    q.delete_all_failed_jobs().unwrap();
    assert_eq!(q.failed_len(), 0);
}

#[test]
fn dead_letter_uuid_conflict_rolls_back() {
    let mut q = QueueState::new();
    // Dead-letter one job, then enqueue a second row under the same
    // uuid: dead-lettering that one violates the unique key, so the
    // transaction rolls back and the row stays reserved.
    dispatch_hello(&mut q, "twin", "default", 0, 80);
    let uuid = q.job_at(0).uuid.clone();
    let task = q.reserve("default", 80, 300).unwrap();
    let outcome: Result<(), Error> = Err(Error::Message("first".to_string()));
    let action = decide(&task, &outcome, 1, 2, "default".to_string(), task.payload.clone(), 80);
    q.finish(task.id, action).unwrap();
    assert_eq!(q.failed_len(), 1);

    let twin = NewJob {
        uuid: uuid.clone(),
        queue: "default".to_string(),
        payload: q.failed_at(0).payload.clone(),
        attempts: 0,
        available_at: 81,
        created_at: 81,
    };
    q.insert_job(twin);
    let task2 = q.reserve("default", 81, 300).unwrap();
    let outcome2: Result<(), Error> = Err(Error::Message("second".to_string()));
    let action2 =
        decide(&task2, &outcome2, 1, 2, "default".to_string(), task2.payload.clone(), 81);
    let r = q.finish(task2.id, action2);
    assert!(matches!(r, Err(Error::DatabaseError(_))));
    assert_eq!(q.jobs_len(), 1);
    assert_eq!(q.failed_len(), 1);
}
