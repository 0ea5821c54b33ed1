//! The worker side: the worker's configuration builder and the
//! supervisor state machine that coordinates a fixed pool of execution
//! loops through cancellation, retirement, and the stop callback.

use vstd::prelude::*;

verus! {

/// Builds the worker configuration: pool bounds, pool size, the stale
/// window and the queue polled.
pub struct WorkerBuilder {
    pub max_connections: u32,
    pub min_connections: u32,
    pub worker_count: u32,
    pub retry_after: u64,
    pub queue: String,
}

impl WorkerBuilder {
    /// The defaults: one worker on the `default` queue, reservations
    /// stale after five minutes.
    pub fn new() -> (b: WorkerBuilder)
        ensures
            b.max_connections == 10,
            b.min_connections == 0,
            b.worker_count == 1,
            b.retry_after == 300,
            b.queue@ == "default"@,
    {
        WorkerBuilder {
            max_connections: 10,
            min_connections: 0,
            worker_count: 1,
            retry_after: 300,
            queue: String::from_str("default"),
        }
    }

    /// Sets the pool's upper bound.
    pub fn max_connections(self, max_connections: u32) -> (b: WorkerBuilder)
        ensures
            b == (WorkerBuilder { max_connections, ..self }),
    {
        WorkerBuilder { max_connections, ..self }
    }

    /// Sets the pool's lower bound.
    pub fn min_connections(self, min_connections: u32) -> (b: WorkerBuilder)
        ensures
            b == (WorkerBuilder { min_connections, ..self }),
    {
        WorkerBuilder { min_connections, ..self }
    }

    /// Sets how many execution loops run concurrently.
    pub fn worker_count(self, worker_count: u32) -> (b: WorkerBuilder)
        ensures
            b == (WorkerBuilder { worker_count, ..self }),
    {
        WorkerBuilder { worker_count, ..self }
    }

    /// Sets the seconds after which an unfinished reservation is
    /// considered stale and reclaimable.
    pub fn retry_after(self, retry_after: u64) -> (b: WorkerBuilder)
        ensures
            b == (WorkerBuilder { retry_after, ..self }),
    {
        WorkerBuilder { retry_after, ..self }
    }

    /// Sets the queue the workers poll.
    pub fn queue(self, queue: &str) -> (b: WorkerBuilder)
        ensures
            b.queue@ == queue@,
            b.max_connections == self.max_connections,
            b.min_connections == self.min_connections,
            b.worker_count == self.worker_count,
            b.retry_after == self.retry_after,
    {
        WorkerBuilder { queue: String::from_str(queue), ..self }
    }
}

/// The mathematical shape of the supervisor: the shared cancellation
/// flag, each loop's retirement, and whether the stop callback ran.
#[verifier::ext_equal]
pub struct SupervisorModel {
    pub cancelled: bool,
    pub finished: Seq<bool>,
    pub on_stopping_ran: bool,
}

/// The shutdown coordinator of a fixed worker pool.  Each loop asks
/// `should_run` before an iteration, reports with `end_iteration`
/// after it, and the process asks `take_on_stopping` once the loops
/// are done.
pub struct Supervisor {
    cancelled: bool,
    finished: Vec<bool>,
    on_stopping_ran: bool,
}

impl View for Supervisor {
    type V = SupervisorModel;

    closed spec fn view(&self) -> SupervisorModel {
        SupervisorModel {
            cancelled: self.cancelled,
            finished: self.finished@,
            on_stopping_ran: self.on_stopping_ran,
        }
    }
}

/// Every loop has retired.
pub open spec fn all_finished_spec(s: Seq<bool>) -> bool {
    forall|k: int| 0 <= k < s.len() ==> s[k]
}

/// What ending one loop iteration does: with the flag set the loop
/// retires, otherwise nothing changes; a retired loop stays retired.
pub open spec fn end_iteration_post(pre: SupervisorModel, post: SupervisorModel, i: int) -> bool {
    &&& 0 <= i < pre.finished.len()
    &&& post.finished == pre.finished.update(i, pre.finished[i] || pre.cancelled)
    &&& post.cancelled == pre.cancelled
    &&& post.on_stopping_ran == pre.on_stopping_ran
}

/// What asking for the stop callback does: it yields exactly when every
/// loop has retired and it has not yielded before, and it records that.
pub open spec fn take_on_stopping_post(
    pre: SupervisorModel,
    post: SupervisorModel,
    r: bool,
) -> bool {
    &&& r == (all_finished_spec(pre.finished) && !pre.on_stopping_ran)
    &&& post.on_stopping_ran == (pre.on_stopping_ran || r)
    &&& post.finished == pre.finished
    &&& post.cancelled == pre.cancelled
}

impl Supervisor {
    /// A supervisor over `worker_count` loops, none retired, flag
    /// clear, callback not yet run.
    pub fn new(worker_count: u32) -> (s: Supervisor)
        ensures
            s@.cancelled == false,
            s@.on_stopping_ran == false,
            s@.finished.len() == worker_count,
            forall|k: int| 0 <= k < worker_count ==> !(#[trigger] s@.finished[k]),
    {
        let mut finished: Vec<bool> = Vec::new();
        let n = worker_count;
        let mut i: u32 = 0;
        while i < n
            invariant
                i <= n,
                finished@.len() == i,
                forall|k: int| 0 <= k < i ==> !(#[trigger] finished@[k]),
            decreases n - i,
        {
            finished.push(false);
            i += 1;
        }
        Supervisor { cancelled: false, finished, on_stopping_ran: false }
    }

    /// Sets the shared cancellation flag.  There is no way back.
    pub fn cancel(&mut self)
        ensures
            final(self)@ == (SupervisorModel { cancelled: true, ..old(self)@ }),
    {
        self.cancelled = true;
    }

    /// Whether the flag is set.
    pub fn is_cancelled(&self) -> (r: bool)
        ensures
            r == self@.cancelled,
    {
        self.cancelled
    }

    /// Whether loop `i` may begin another iteration.
    pub fn should_run(&self, i: usize) -> (r: bool)
        requires
            i < self@.finished.len(),
        ensures
            r == !self@.finished[i as int],
    {
        !self.finished[i]
    }

    /// Loop `i` reports the end of an iteration; under a set flag it
    /// retires.
    pub fn end_iteration(&mut self, i: usize)
        requires
            i < old(self)@.finished.len(),
        ensures
            end_iteration_post(old(self)@, final(self)@, i as int),
    {
        if self.cancelled {
            self.finished.set(i, true);
        } else {
            let v = self.finished[i];
            self.finished.set(i, v);
        }
        proof {
            assert(self@.finished =~= old(self)@.finished.update(
                i as int,
                old(self)@.finished[i as int] || old(self)@.cancelled,
            ));
        }
    }

    /// Whether every loop has retired.
    pub fn all_finished(&self) -> (r: bool)
        ensures
            r == all_finished_spec(self@.finished),
    {
        let n = self.finished.len();
        let mut i: usize = 0;
        while i < n
            invariant
                i <= n,
                n == self@.finished.len(),
                forall|k: int| 0 <= k < i ==> self@.finished[k],
            decreases n - i,
        {
            if !self.finished[i] {
                return false;
            }
            i += 1;
        }
        true
    }

    /// Claims the one run of the stop callback: yields exactly when all
    /// loops have retired and nobody claimed it before.
    pub fn take_on_stopping(&mut self) -> (r: bool)
        ensures
            take_on_stopping_post(old(self)@, final(self)@, r),
    {
        let run = self.all_finished() && !self.on_stopping_ran;
        if run {
            self.on_stopping_ran = true;
        }
        run
    }
}

/// Law: graceful shutdown, no new work after cancel.  Once the flag is
/// set, the iteration a loop was in is its last: ending it retires the
/// loop, and the flag stays set.
pub proof fn lemma_cancel_retires(pre: SupervisorModel, post: SupervisorModel, i: int)
    requires
        pre.cancelled,
        end_iteration_post(pre, post, i),
    ensures
        post.cancelled,
        post.finished[i],
{
}

/// Law: a retired loop never runs again — ending further iterations
/// anywhere keeps every retirement in place.
pub proof fn lemma_finished_monotone(pre: SupervisorModel, post: SupervisorModel, i: int)
    requires
        end_iteration_post(pre, post, i),
    ensures
        forall|k: int|
            0 <= k < pre.finished.len() && pre.finished[k] ==> #[trigger] post.finished[k],
{
}

/// Law: the stop callback runs exactly once, and only after every loop
/// has retired: the first successful claim happens when all loops are
/// finished, and every later claim is refused.
pub proof fn lemma_on_stopping_once(
    m0: SupervisorModel,
    m1: SupervisorModel,
    m2: SupervisorModel,
    r1: bool,
    r2: bool,
)
    requires
        take_on_stopping_post(m0, m1, r1),
        take_on_stopping_post(m1, m2, r2),
    ensures
        r1 ==> all_finished_spec(m0.finished),
        r1 ==> !r2,
{
}

} // verus!
