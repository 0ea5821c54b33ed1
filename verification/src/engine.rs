//! The reservation-and-lifecycle engine, verified against an in-memory
//! model of the two tables.  Each operation is the exact image of one
//! SQL transaction of the protocol: its contract is a transition
//! predicate over the table model, and the lemmas at the end state the
//! protocol's invariants over those predicates.

use vstd::prelude::*;
use vstd::pervasive::VecAdditionalExecFns;

use crate::errors::Error;
use crate::models::{
    eligible, opt_task_model, FailedJob, FailedJobModel, JobRow, JobRowModel, NewFailedJob,
    NewFailedJobModel, NewJob, NewJobModel, Task, TaskModel,
};
use crate::text::str_eq;

verus! {

/// The durable state of one installation: both tables, plus each
/// table's next auto-increment key.
pub struct QueueState {
    jobs: Vec<JobRow>,
    failed: Vec<FailedJob>,
    next_job_id: u64,
    next_failed_id: u64,
}

/// The mathematical shape of the whole store.
#[verifier::ext_equal]
pub struct QueueModel {
    pub jobs: Seq<JobRowModel>,
    pub failed: Seq<FailedJobModel>,
    pub next_job_id: u64,
    pub next_failed_id: u64,
}

/// The views of a table of job rows.
pub open spec fn row_models(s: Seq<JobRow>) -> Seq<JobRowModel> {
    Seq::new(s.len(), |i: int| s[i]@)
}

/// The views of a table of dead letters.
pub open spec fn failed_models(s: Seq<FailedJob>) -> Seq<FailedJobModel> {
    Seq::new(s.len(), |i: int| s[i]@)
}

impl View for QueueState {
    type V = QueueModel;

    closed spec fn view(&self) -> QueueModel {
        QueueModel {
            jobs: row_models(self.jobs@),
            failed: failed_models(self.failed@),
            next_job_id: self.next_job_id,
            next_failed_id: self.next_failed_id,
        }
    }
}

/// Primary keys ascend with position (so they are unique, and FIFO
/// order is id order).
pub open spec fn jobs_sorted(s: Seq<JobRowModel>) -> bool {
    forall|i: int, j: int| #![trigger s[i], s[j]] 0 <= i < j < s.len() ==> s[i].id < s[j].id
}

/// Every primary key lies below the next key to be assigned.
pub open spec fn jobs_bounded(s: Seq<JobRowModel>, next: u64) -> bool {
    forall|i: int| 0 <= i < s.len() ==> (#[trigger] s[i]).id < next
}

/// Dead-letter primary keys ascend with position.
pub open spec fn failed_sorted(s: Seq<FailedJobModel>) -> bool {
    forall|i: int, j: int| #![trigger s[i], s[j]] 0 <= i < j < s.len() ==> s[i].id < s[j].id
}

/// Every dead-letter key lies below the next key to be assigned.
pub open spec fn failed_bounded(s: Seq<FailedJobModel>, next: u64) -> bool {
    forall|i: int| 0 <= i < s.len() ==> (#[trigger] s[i]).id < next
}

/// `failed_jobs.uuid` is unique, as the schema declares.
pub open spec fn failed_uuids_unique(s: Seq<FailedJobModel>) -> bool {
    forall|i: int, j: int| #![trigger s[i], s[j]] 0 <= i < j < s.len() ==> s[i].uuid != s[j].uuid
}

impl QueueModel {
    /// The store's invariant: both tables keyed by ascending ids below
    /// the next key, and dead-letter uuids unique.
    pub open spec fn wf(self) -> bool {
        &&& jobs_sorted(self.jobs)
        &&& jobs_bounded(self.jobs, self.next_job_id)
        &&& failed_sorted(self.failed)
        &&& failed_bounded(self.failed, self.next_failed_id)
        &&& failed_uuids_unique(self.failed)
    }

    /// Whether some dead letter carries this uuid.
    pub open spec fn has_failed_uuid(self, u: Seq<char>) -> bool {
        exists|i: int| 0 <= i < self.failed.len() && (#[trigger] self.failed[i]).uuid == u
    }
}

/// Room to count one more attempt on every row.
pub open spec fn attempts_headroom(m: QueueModel) -> bool {
    forall|i: int| 0 <= i < m.jobs.len() ==> (#[trigger] m.jobs[i]).attempts < u32::MAX
}

/// Everything a filtered sequence holds was already there.
proof fn lemma_filter_sub<A>(s: Seq<A>, p: spec_fn(A) -> bool)
    ensures
        forall|x: A| #[trigger] s.filter(p).contains(x) ==> s.contains(x),
    decreases s.len(),
{
    reveal(Seq::filter);
    if s.len() > 0 {
        lemma_filter_sub(s.drop_last(), p);
        assert forall|x: A| #[trigger] s.filter(p).contains(x) implies s.contains(x) by {
            let fdl = s.drop_last().filter(p);
            if p(s.last()) {
                assert(s.filter(p) == fdl.push(s.last()));
                let k = choose|k: int|
                    0 <= k < s.filter(p).len() && s.filter(p)[k] == x;
                if k < fdl.len() {
                    assert(fdl.contains(x));
                    assert(s.drop_last().contains(x));
                    let m = choose|m: int|
                        0 <= m < s.drop_last().len() && s.drop_last()[m] == x;
                    assert(s[m] == x);
                } else {
                    assert(x == s.last());
                    assert(s[s.len() - 1] == x);
                }
            } else {
                assert(s.filter(p) == fdl);
                assert(fdl.contains(x));
                assert(s.drop_last().contains(x));
                let m = choose|m: int| 0 <= m < s.drop_last().len() && s.drop_last()[m] == x;
                assert(s[m] == x);
            }
        }
    }
}

/// Filtering keeps the order of an ascending key.
proof fn lemma_filter_sorted_by<A>(s: Seq<A>, p: spec_fn(A) -> bool, key: spec_fn(A) -> u64)
    requires
        forall|i: int, j: int| #![trigger s[i], s[j]] 0 <= i < j < s.len() ==> key(s[i]) < key(
            s[j],
        ),
    ensures
        forall|i: int, j: int|
            #![trigger s.filter(p)[i], s.filter(p)[j]]
            0 <= i < j < s.filter(p).len() ==> key(s.filter(p)[i]) < key(s.filter(p)[j]),
    decreases s.len(),
{
    reveal(Seq::filter);
    if s.len() > 0 {
        lemma_filter_sorted_by(s.drop_last(), p, key);
        lemma_filter_sub(s.drop_last(), p);
        let f = s.filter(p);
        let fdl = s.drop_last().filter(p);
        assert forall|i: int, j: int|
            #![trigger f[i], f[j]]
            0 <= i < j < f.len() implies key(f[i]) < key(f[j]) by {
            if p(s.last()) {
                assert(f == fdl.push(s.last()));
                if j < fdl.len() {
                    assert(f[i] == fdl[i] && f[j] == fdl[j]);
                } else {
                    assert(f[j] == s.last());
                    assert(f[i] == fdl[i]);
                    assert(fdl.contains(fdl[i]));
                    assert(s.drop_last().contains(fdl[i]));
                    let m = choose|m: int|
                        0 <= m < s.drop_last().len() && s.drop_last()[m] == fdl[i];
                    assert(s[m] == fdl[i]);
                    assert(key(s[m]) < key(s[s.len() - 1]));
                }
            } else {
                assert(f == fdl);
            }
        }
    }
}

/// What one reservation attempt does when it finds `t` at position `i`
/// of the pre-state: the first eligible row is handed out and marked.
pub open spec fn reserve_post_at(
    pre: QueueModel,
    post: QueueModel,
    q: Seq<char>,
    now: u64,
    retry_after: u64,
    t: TaskModel,
    i: int,
) -> bool {
    &&& 0 <= i < pre.jobs.len()
    &&& eligible(pre.jobs[i], q, now, retry_after)
    &&& forall|k: int| 0 <= k < i ==> !eligible(#[trigger] pre.jobs[k], q, now, retry_after)
    &&& t.id == pre.jobs[i].id
    &&& t.uuid == pre.jobs[i].uuid
    &&& t.payload == pre.jobs[i].payload
    &&& t.attempts == pre.jobs[i].attempts
    &&& post.jobs == pre.jobs.update(
        i,
        JobRowModel {
            reserved_at: Some(now),
            attempts: (pre.jobs[i].attempts + 1) as u32,
            ..pre.jobs[i]
        },
    )
    &&& post.failed == pre.failed
    &&& post.next_job_id == pre.next_job_id
    &&& post.next_failed_id == pre.next_failed_id
}

/// What one reservation attempt does: either no row of the queue is
/// eligible and nothing changes, or the first eligible row is reserved.
pub open spec fn reserve_post(
    pre: QueueModel,
    post: QueueModel,
    q: Seq<char>,
    now: u64,
    retry_after: u64,
    r: Option<TaskModel>,
) -> bool {
    if r is None {
        &&& post == pre
        &&& forall|k: int|
            0 <= k < pre.jobs.len() ==> !eligible(#[trigger] pre.jobs[k], q, now, retry_after)
    } else {
        exists|i: int| reserve_post_at(pre, post, q, now, retry_after, r->0, i)
    }
}

impl QueueState {
    /// An empty store.
    pub fn new() -> (s: QueueState)
        ensures
            s@.wf(),
            s@.jobs.len() == 0,
            s@.failed.len() == 0,
            s@.next_job_id == 1,
            s@.next_failed_id == 1,
    {
        QueueState { jobs: Vec::new(), failed: Vec::new(), next_job_id: 1, next_failed_id: 1 }
    }

    /// How many rows the `jobs` table holds.
    pub fn jobs_len(&self) -> (n: usize)
        ensures
            n == self@.jobs.len(),
    {
        self.jobs.len()
    }

    /// How many rows the `failed_jobs` table holds.
    pub fn failed_len(&self) -> (n: usize)
        ensures
            n == self@.failed.len(),
    {
        self.failed.len()
    }

    /// The row at one position of the `jobs` table.
    pub fn job_at(&self, i: usize) -> (r: &JobRow)
        requires
            i < self@.jobs.len(),
        ensures
            r@ == self@.jobs[i as int],
    {
        &self.jobs[i]
    }

    /// The row at one position of the `failed_jobs` table.
    pub fn failed_at(&self, i: usize) -> (r: &FailedJob)
        requires
            i < self@.failed.len(),
        ensures
            r@ == self@.failed[i as int],
    {
        &self.failed[i]
    }

    /// Inserts one fresh row, assigning it the next primary key: the
    /// image of `INSERT INTO jobs …`.
    pub fn insert_job(&mut self, nj: NewJob) -> (id: u64)
        requires
            old(self)@.wf(),
            old(self)@.next_job_id < u64::MAX,
        ensures
            final(self)@.wf(),
            insert_job_post(old(self)@, final(self)@, nj@, id),
    {
        let id = self.next_job_id;
        let row = JobRow {
            id,
            uuid: nj.uuid,
            queue: nj.queue,
            payload: nj.payload,
            attempts: nj.attempts,
            reserved_at: None,
            available_at: nj.available_at,
            created_at: nj.created_at,
        };
        self.jobs.push(row);
        self.next_job_id = id + 1;
        proof {
            assert(self@.jobs =~= old(self)@.jobs.push(
                JobRowModel {
                    id,
                    uuid: nj@.uuid,
                    queue: nj@.queue,
                    payload: nj@.payload,
                    attempts: nj@.attempts,
                    reserved_at: None,
                    available_at: nj@.available_at,
                    created_at: nj@.created_at,
                },
            ));
            assert(self@.failed =~= old(self)@.failed);
        }
        id
    }

    /// One reservation attempt at time `now`: the image of the
    /// select-and-lock plus the reserving update, in one transaction.
    pub fn reserve(&mut self, q: &str, now: u64, retry_after: u64) -> (r: Option<Task>)
        requires
            old(self)@.wf(),
            attempts_headroom(old(self)@),
        ensures
            final(self)@.wf(),
            reserve_post(old(self)@, final(self)@, q@, now, retry_after, opt_task_model(r)),
    {
        let n = self.jobs.len();
        let mut i: usize = 0;
        while i < n
            invariant
                i <= n,
                n == self@.jobs.len(),
                old(self)@.wf(),
                attempts_headroom(old(self)@),
                *self == *old(self),
                forall|k: int|
                    0 <= k < i ==> !eligible(#[trigger] self@.jobs[k], q@, now, retry_after),
            decreases n - i,
        {
            let row_eligible = {
                let row = &self.jobs[i];
                if str_eq(row.queue.as_str(), q) {
                    match row.reserved_at {
                        Option::None => row.available_at <= now,
                        Option::Some(t) => now >= retry_after && t <= now - retry_after,
                    }
                } else {
                    false
                }
            };
            proof {
                assert(row_eligible == eligible(self@.jobs[i as int], q@, now, retry_after));
            }
            if row_eligible {
                let task = {
                    let row = &self.jobs[i];
                    Task {
                        id: row.id,
                        uuid: row.uuid.clone(),
                        payload: row.payload.clone(),
                        attempts: row.attempts,
                    }
                };
                let new_row = {
                    let row = &self.jobs[i];
                    JobRow {
                        id: row.id,
                        uuid: row.uuid.clone(),
                        queue: row.queue.clone(),
                        payload: row.payload.clone(),
                        attempts: row.attempts + 1,
                        reserved_at: Some(now),
                        available_at: row.available_at,
                        created_at: row.created_at,
                    }
                };
                self.jobs.set(i, new_row);
                proof {
                    assert(self@.jobs =~= old(self)@.jobs.update(
                        i as int,
                        JobRowModel {
                            reserved_at: Some(now),
                            attempts: (old(self)@.jobs[i as int].attempts + 1) as u32,
                            ..old(self)@.jobs[i as int]
                        },
                    ));
                    assert(self@.failed =~= old(self)@.failed);
                    assert(reserve_post_at(
                        old(self)@,
                        self@,
                        q@,
                        now,
                        retry_after,
                        task@,
                        i as int,
                    ));
                    assert(opt_task_model(Some(task)) == Some(task@));
                    assert(Some(task@)->0 == task@);
                    assert(exists|k: int|
                        reserve_post_at(
                            old(self)@,
                            self@,
                            q@,
                            now,
                            retry_after,
                            Some(task@)->0,
                            k,
                        )) by {
                        assert(reserve_post_at(
                            old(self)@,
                            self@,
                            q@,
                            now,
                            retry_after,
                            Some(task@)->0,
                            i as int,
                        ));
                    }
                    assert(reserve_post(old(self)@, self@, q@, now, retry_after, Some(task@)));
                }
                return Some(task);
            }
            i += 1;
        }
        None
    }
}

/// What the runner does to the store once the outcome of one reserved
/// job is known.
pub enum RunnerAction {
    /// The handler succeeded: the row is simply deleted.
    Complete,
    /// Attempts remain: the row is deleted and a fresh row with the same
    /// uuid is enqueued after the backoff.
    Retry(NewJob),
    /// Attempts are exhausted: the row is deleted and a dead letter
    /// written.
    DeadLetter(NewFailedJob),
}

/// The mathematical shape of a runner action.
pub enum RunnerActionModel {
    Complete,
    Retry(NewJobModel),
    DeadLetter(NewFailedJobModel),
}

/// The view of a runner action.
pub open spec fn action_model(a: RunnerAction) -> RunnerActionModel {
    match a {
        RunnerAction::Complete => RunnerActionModel::Complete,
        RunnerAction::Retry(nj) => RunnerActionModel::Retry(nj@),
        RunnerAction::DeadLetter(f) => RunnerActionModel::DeadLetter(f@),
    }
}

/// The exception text an outcome carries: empty on success, the error's
/// textual form on failure.
pub open spec fn outcome_text(o: Result<(), Error>) -> Seq<char> {
    match o {
        Result::Ok(_) => Seq::empty(),
        Result::Err(e) => e.message_spec(),
    }
}

/// The retry-or-dead-letter rule of the execution runner.  `t.attempts`
/// is the count read at selection; the reservation already wrote
/// `t.attempts + 1`, so that is the number of starts used up.
pub open spec fn decide_post(
    t: TaskModel,
    ok: bool,
    err_text: Seq<char>,
    tries: u32,
    backoff: u64,
    queue: Seq<char>,
    payload: Seq<char>,
    now: u64,
    a: RunnerActionModel,
) -> bool {
    if ok {
        a is Complete
    } else if t.attempts + 1 < tries {
        a matches RunnerActionModel::Retry(nj) && nj == (NewJobModel {
            uuid: t.uuid,
            queue,
            payload,
            attempts: (t.attempts + 1) as u32,
            available_at: (now + backoff) as u64,
            created_at: now,
        })
    } else {
        a matches RunnerActionModel::DeadLetter(f) && f == (NewFailedJobModel {
            uuid: t.uuid,
            queue,
            payload,
            exception: err_text,
            failed_at: now,
        })
    }
}

/// Decides the terminal transition for one executed job: success
/// completes; a failure retries with the same uuid and a delayed
/// `available_at` while attempts remain, else dead-letters the job with
/// the error's text.  `backoff` is the job's own backoff for the attempt
/// just used, in seconds; `payload` is the re-serialized job.
pub fn decide(
    task: &Task,
    outcome: &Result<(), Error>,
    tries: u32,
    backoff: u64,
    queue: String,
    payload: String,
    now: u64,
) -> (a: RunnerAction)
    requires
        task.attempts < u32::MAX,
        now + backoff <= u64::MAX,
    ensures
        decide_post(
            task@,
            *outcome is Ok,
            outcome_text(*outcome),
            tries,
            backoff,
            queue@,
            payload@,
            now,
            action_model(a),
        ),
{
    match outcome {
        Result::Ok(_) => RunnerAction::Complete,
        Result::Err(e) => {
            if task.attempts + 1 < tries {
                RunnerAction::Retry(
                    NewJob {
                        uuid: task.uuid.clone(),
                        queue,
                        payload,
                        attempts: task.attempts + 1,
                        available_at: now + backoff,
                        created_at: now,
                    },
                )
            } else {
                RunnerAction::DeadLetter(
                    NewFailedJob {
                        uuid: task.uuid.clone(),
                        queue,
                        payload,
                        exception: e.message(),
                        failed_at: now,
                    },
                )
            }
        },
    }
}

/// Keeps the rows whose primary key is not `id`.
pub open spec fn keep_other_ids(id: u64) -> spec_fn(JobRowModel) -> bool {
    |r: JobRowModel| r.id != id
}

/// Keeps the rows whose uuid is not `u`.
pub open spec fn jobs_keep_other_uuids(u: Seq<char>) -> spec_fn(JobRowModel) -> bool {
    |r: JobRowModel| r.uuid != u
}

/// Keeps the dead letters whose uuid is not `u`.
pub open spec fn failed_keep_other_uuids(u: Seq<char>) -> spec_fn(FailedJobModel) -> bool {
    |f: FailedJobModel| f.uuid != u
}

/// The `jobs` table after `DELETE FROM jobs WHERE id = …`.
pub open spec fn remove_job_id(jobs: Seq<JobRowModel>, id: u64) -> Seq<JobRowModel> {
    jobs.filter(keep_other_ids(id))
}

/// Filtering after appending one element.
proof fn lemma_filter_push<A>(s: Seq<A>, p: spec_fn(A) -> bool, x: A)
    ensures
        s.push(x).filter(p) == if p(x) {
            s.filter(p).push(x)
        } else {
            s.filter(p)
        },
{
    reveal(Seq::filter);
    assert(s.push(x).drop_last() =~= s);
    assert(s.push(x).last() == x);
}

/// A filter of well-formed job rows is well-formed against the same
/// next key.
proof fn lemma_jobs_filter_wf(s: Seq<JobRowModel>, p: spec_fn(JobRowModel) -> bool, next: u64)
    requires
        jobs_sorted(s),
        jobs_bounded(s, next),
    ensures
        jobs_sorted(s.filter(p)),
        jobs_bounded(s.filter(p), next),
{
    let key = |r: JobRowModel| r.id;
    assert forall|i: int, j: int| #![trigger s[i], s[j]] 0 <= i < j < s.len() implies key(s[i])
        < key(s[j]) by {}
    lemma_filter_sorted_by(s, p, key);
    lemma_filter_sub(s, p);
    let f = s.filter(p);
    assert forall|i: int| 0 <= i < f.len() implies (#[trigger] f[i]).id < next by {
        assert(f.contains(f[i]));
        assert(s.contains(f[i]));
        let m = choose|m: int| 0 <= m < s.len() && s[m] == f[i];
        assert(s[m].id < next);
    }
    assert forall|i: int, j: int| #![trigger f[i], f[j]] 0 <= i < j < f.len() implies f[i].id
        < f[j].id by {
        assert(key(f[i]) < key(f[j]));
    }
}

/// A filter of well-formed dead letters is well-formed against the same
/// next key, and its uuids stay unique.
proof fn lemma_failed_filter_wf(s: Seq<FailedJobModel>, p: spec_fn(FailedJobModel) -> bool, next: u64)
    requires
        failed_sorted(s),
        failed_bounded(s, next),
        failed_uuids_unique(s),
    ensures
        failed_sorted(s.filter(p)),
        failed_bounded(s.filter(p), next),
        failed_uuids_unique(s.filter(p)),
{
    let key = |f: FailedJobModel| f.id;
    assert forall|i: int, j: int| #![trigger s[i], s[j]] 0 <= i < j < s.len() implies key(s[i])
        < key(s[j]) by {}
    lemma_filter_sorted_by(s, p, key);
    lemma_filter_sub(s, p);
    let f = s.filter(p);
    assert forall|i: int| 0 <= i < f.len() implies (#[trigger] f[i]).id < next by {
        assert(f.contains(f[i]));
        assert(s.contains(f[i]));
        let m = choose|m: int| 0 <= m < s.len() && s[m] == f[i];
        assert(s[m].id < next);
    }
    assert forall|i: int, j: int| #![trigger f[i], f[j]] 0 <= i < j < f.len() implies f[i].id
        < f[j].id by {
        assert(key(f[i]) < key(f[j]));
    }
    assert forall|i: int, j: int| #![trigger f[i], f[j]] 0 <= i < j < f.len() implies f[i].uuid
        != f[j].uuid by {
        assert(f.contains(f[i]));
        assert(f.contains(f[j]));
        assert(s.contains(f[i]));
        assert(s.contains(f[j]));
        let m = choose|m: int| 0 <= m < s.len() && s[m] == f[i];
        let n = choose|n: int| 0 <= n < s.len() && s[n] == f[j];
        assert(f[i].id < f[j].id);
        assert(m != n);
    }
}

/// All elements pass: the filter keeps everything.
proof fn lemma_filter_all<A>(s: Seq<A>, p: spec_fn(A) -> bool)
    requires
        forall|k: int| 0 <= k < s.len() ==> p(#[trigger] s[k]),
    ensures
        s.filter(p) == s,
    decreases s.len(),
{
    reveal(Seq::filter);
    if s.len() == 0 {
        assert(s.filter(p) =~= s);
    } else {
        lemma_filter_all(s.drop_last(), p);
        assert(p(s.last()));
        assert(s.drop_last().push(s.last()) =~= s);
    }
}

/// When only the head matches the deleted uuid, deleting by uuid drops
/// exactly the head.
proof fn lemma_failed_filter_drop_first(s: Seq<FailedJobModel>, u: Seq<char>)
    requires
        s.len() > 0,
        s[0].uuid == u,
        failed_uuids_unique(s),
    ensures
        s.filter(failed_keep_other_uuids(u)) == s.drop_first(),
{
    let p = failed_keep_other_uuids(u);
    assert(s =~= seq![s[0]] + s.drop_first());
    Seq::filter_distributes_over_add(seq![s[0]], s.drop_first(), p);
    reveal(Seq::filter);
    assert(seq![s[0]].drop_last() =~= Seq::<FailedJobModel>::empty());
    assert(!p(s[0]));
    assert(Seq::<FailedJobModel>::empty().filter(p) =~= Seq::<FailedJobModel>::empty());
    assert(seq![s[0]].filter(p) =~= Seq::<FailedJobModel>::empty());
    assert forall|k: int| 0 <= k < s.drop_first().len() implies p(
        #[trigger] s.drop_first()[k],
    ) by {
        assert(s.drop_first()[k] == s[k + 1]);
        assert(s[0].uuid != s[k + 1].uuid);
    }
    lemma_filter_all(s.drop_first(), p);
    assert(Seq::<FailedJobModel>::empty() + s.drop_first() =~= s.drop_first());
}

impl QueueState {
    /// Whether a dead letter with this uuid exists.
    pub fn has_failed(&self, uuid: &str) -> (r: bool)
        ensures
            r == self@.has_failed_uuid(uuid@),
    {
        let n = self.failed.len();
        let mut i: usize = 0;
        while i < n
            invariant
                i <= n,
                n == self@.failed.len(),
                forall|k: int| 0 <= k < i ==> (#[trigger] self@.failed[k]).uuid != uuid@,
            decreases n - i,
        {
            if str_eq(self.failed[i].uuid.as_str(), uuid) {
                proof {
                    assert((#[trigger] self@.failed[i as int]).uuid == uuid@);
                }
                return true;
            }
            i += 1;
        }
        false
    }

    /// Deletes every `jobs` row with this primary key: the image of
    /// `DELETE FROM jobs WHERE id = …`.
    fn remove_job_rows(&mut self, id: u64)
        ensures
            final(self)@.jobs == old(self)@.jobs.filter(keep_other_ids(id)),
            final(self)@.failed == old(self)@.failed,
            final(self)@.next_job_id == old(self)@.next_job_id,
            final(self)@.next_failed_id == old(self)@.next_failed_id,
    {
        let ghost orig: Seq<JobRowModel> = self@.jobs;
        let ghost p = keep_other_ids(id);
        let mut kept: Vec<JobRow> = Vec::new();
        let ghost mut k: int = 0;
        proof {
            reveal(Seq::filter);
            assert(orig.subrange(0, 0) =~= Seq::<JobRowModel>::empty());
            assert(row_models(kept@) =~= orig.subrange(0, 0).filter(p));
        }
        while self.jobs.len() > 0
            invariant
                0 <= k <= orig.len(),
                orig == old(self)@.jobs,
                p == keep_other_ids(id),
                row_models(self.jobs@) == orig.subrange(k, orig.len() as int),
                row_models(kept@) == orig.subrange(0, k).filter(p),
                self.failed@ == old(self).failed@,
                self.next_job_id == old(self).next_job_id,
                self.next_failed_id == old(self).next_failed_id,
            decreases self.jobs.len(),
        {
            let ghost pre_jobs = self.jobs@;
            proof {
                assert(row_models(pre_jobs).len() == pre_jobs.len());
                assert(k < orig.len());
            }
            let row = self.jobs.remove(0);
            let ghost prev_kept = row_models(kept@);
            proof {
                assert(row_models(pre_jobs)[0] == pre_jobs[0]@);
                assert(row@ == orig[k]);
                assert(self.jobs@ == pre_jobs.remove(0));
                assert forall|m: int| 0 <= m < self.jobs@.len() implies #[trigger] row_models(
                    self.jobs@,
                )[m] == orig[k + 1 + m] by {
                    assert(self.jobs@[m] == pre_jobs[m + 1]);
                    assert(row_models(pre_jobs)[m + 1] == pre_jobs[m + 1]@);
                    assert(row_models(pre_jobs)[m + 1] == orig.subrange(k, orig.len() as int)[m
                        + 1]);
                }
                assert(row_models(self.jobs@) =~= orig.subrange(k + 1, orig.len() as int));
            }
            if row.id != id {
                kept.push(row);
                proof {
                    assert(row_models(kept@) =~= prev_kept.push(orig[k]));
                }
            }
            proof {
                assert(orig.subrange(0, k + 1) =~= orig.subrange(0, k).push(orig[k]));
                lemma_filter_push(orig.subrange(0, k), p, orig[k]);
                assert(row_models(kept@) == orig.subrange(0, k + 1).filter(p));
                k = k + 1;
            }
        }
        self.jobs = kept;
        proof {
            assert(orig.subrange(0, orig.len() as int) =~= orig);
        }
    }

    /// Deletes every `jobs` row with this uuid: the image of
    /// `DELETE FROM jobs WHERE uuid = …`.
    fn remove_job_rows_by_uuid(&mut self, uuid: &str)
        ensures
            final(self)@.jobs == old(self)@.jobs.filter(jobs_keep_other_uuids(uuid@)),
            final(self)@.failed == old(self)@.failed,
            final(self)@.next_job_id == old(self)@.next_job_id,
            final(self)@.next_failed_id == old(self)@.next_failed_id,
    {
        let ghost orig: Seq<JobRowModel> = self@.jobs;
        let ghost p = jobs_keep_other_uuids(uuid@);
        let mut kept: Vec<JobRow> = Vec::new();
        let ghost mut k: int = 0;
        proof {
            reveal(Seq::filter);
            assert(orig.subrange(0, 0) =~= Seq::<JobRowModel>::empty());
            assert(row_models(kept@) =~= orig.subrange(0, 0).filter(p));
        }
        while self.jobs.len() > 0
            invariant
                0 <= k <= orig.len(),
                orig == old(self)@.jobs,
                p == jobs_keep_other_uuids(uuid@),
                row_models(self.jobs@) == orig.subrange(k, orig.len() as int),
                row_models(kept@) == orig.subrange(0, k).filter(p),
                self.failed@ == old(self).failed@,
                self.next_job_id == old(self).next_job_id,
                self.next_failed_id == old(self).next_failed_id,
            decreases self.jobs.len(),
        {
            let ghost pre_jobs = self.jobs@;
            proof {
                assert(row_models(pre_jobs).len() == pre_jobs.len());
                assert(k < orig.len());
            }
            let row = self.jobs.remove(0);
            let ghost prev_kept = row_models(kept@);
            proof {
                assert(row_models(pre_jobs)[0] == pre_jobs[0]@);
                assert(row@ == orig[k]);
                assert(self.jobs@ == pre_jobs.remove(0));
                assert forall|m: int| 0 <= m < self.jobs@.len() implies #[trigger] row_models(
                    self.jobs@,
                )[m] == orig[k + 1 + m] by {
                    assert(self.jobs@[m] == pre_jobs[m + 1]);
                    assert(row_models(pre_jobs)[m + 1] == pre_jobs[m + 1]@);
                    assert(row_models(pre_jobs)[m + 1] == orig.subrange(k, orig.len() as int)[m
                        + 1]);
                }
                assert(row_models(self.jobs@) =~= orig.subrange(k + 1, orig.len() as int));
            }
            if !str_eq(row.uuid.as_str(), uuid) {
                kept.push(row);
                proof {
                    assert(row_models(kept@) =~= prev_kept.push(orig[k]));
                }
            }
            proof {
                assert(orig.subrange(0, k + 1) =~= orig.subrange(0, k).push(orig[k]));
                lemma_filter_push(orig.subrange(0, k), p, orig[k]);
                assert(row_models(kept@) == orig.subrange(0, k + 1).filter(p));
                k = k + 1;
            }
        }
        self.jobs = kept;
        proof {
            assert(orig.subrange(0, orig.len() as int) =~= orig);
        }
    }

    /// Deletes every dead letter with this uuid: the image of
    /// `DELETE FROM failed_jobs WHERE uuid = …`.
    fn remove_failed_rows(&mut self, uuid: &str)
        ensures
            final(self)@.failed == old(self)@.failed.filter(failed_keep_other_uuids(uuid@)),
            final(self)@.jobs == old(self)@.jobs,
            final(self)@.next_job_id == old(self)@.next_job_id,
            final(self)@.next_failed_id == old(self)@.next_failed_id,
    {
        let ghost orig: Seq<FailedJobModel> = self@.failed;
        let ghost p = failed_keep_other_uuids(uuid@);
        let mut kept: Vec<FailedJob> = Vec::new();
        let ghost mut k: int = 0;
        proof {
            reveal(Seq::filter);
            assert(orig.subrange(0, 0) =~= Seq::<FailedJobModel>::empty());
            assert(failed_models(kept@) =~= orig.subrange(0, 0).filter(p));
        }
        while self.failed.len() > 0
            invariant
                0 <= k <= orig.len(),
                orig == old(self)@.failed,
                p == failed_keep_other_uuids(uuid@),
                failed_models(self.failed@) == orig.subrange(k, orig.len() as int),
                failed_models(kept@) == orig.subrange(0, k).filter(p),
                self.jobs@ == old(self).jobs@,
                self.next_job_id == old(self).next_job_id,
                self.next_failed_id == old(self).next_failed_id,
            decreases self.failed.len(),
        {
            let ghost pre_failed = self.failed@;
            proof {
                assert(failed_models(pre_failed).len() == pre_failed.len());
                assert(k < orig.len());
            }
            let row = self.failed.remove(0);
            let ghost prev_kept = failed_models(kept@);
            proof {
                assert(failed_models(pre_failed)[0] == pre_failed[0]@);
                assert(row@ == orig[k]);
                assert(self.failed@ == pre_failed.remove(0));
                assert forall|m: int| 0 <= m < self.failed@.len() implies #[trigger] failed_models(
                    self.failed@,
                )[m] == orig[k + 1 + m] by {
                    assert(self.failed@[m] == pre_failed[m + 1]);
                    assert(failed_models(pre_failed)[m + 1] == pre_failed[m + 1]@);
                    assert(failed_models(pre_failed)[m + 1] == orig.subrange(k, orig.len() as int)[m
                        + 1]);
                }
                assert(failed_models(self.failed@) =~= orig.subrange(k + 1, orig.len() as int));
            }
            if !str_eq(row.uuid.as_str(), uuid) {
                kept.push(row);
                proof {
                    assert(failed_models(kept@) =~= prev_kept.push(orig[k]));
                }
            }
            proof {
                assert(orig.subrange(0, k + 1) =~= orig.subrange(0, k).push(orig[k]));
                lemma_filter_push(orig.subrange(0, k), p, orig[k]);
                assert(failed_models(kept@) == orig.subrange(0, k + 1).filter(p));
                k = k + 1;
            }
        }
        self.failed = kept;
        proof {
            assert(orig.subrange(0, orig.len() as int) =~= orig);
        }
    }

    /// Writes one dead letter under the next key.
    fn insert_failed(&mut self, f: NewFailedJob) -> (id: u64)
        requires
            old(self)@.wf(),
            old(self)@.next_failed_id < u64::MAX,
            !old(self)@.has_failed_uuid(f@.uuid),
        ensures
            final(self)@.wf(),
            id == old(self)@.next_failed_id,
            final(self)@.failed == old(self)@.failed.push(
                FailedJobModel {
                    id,
                    uuid: f@.uuid,
                    queue: f@.queue,
                    payload: f@.payload,
                    exception: f@.exception,
                    failed_at: f@.failed_at,
                },
            ),
            final(self)@.jobs == old(self)@.jobs,
            final(self)@.next_job_id == old(self)@.next_job_id,
            final(self)@.next_failed_id == old(self)@.next_failed_id + 1,
    {
        let id = self.next_failed_id;
        let row = FailedJob {
            id,
            uuid: f.uuid,
            queue: f.queue,
            payload: f.payload,
            exception: f.exception,
            failed_at: f.failed_at,
        };
        self.failed.push(row);
        self.next_failed_id = id + 1;
        proof {
            assert(self@.failed =~= old(self)@.failed.push(
                FailedJobModel {
                    id,
                    uuid: f@.uuid,
                    queue: f@.queue,
                    payload: f@.payload,
                    exception: f@.exception,
                    failed_at: f@.failed_at,
                },
            ));
            assert(self@.jobs =~= old(self)@.jobs);
            assert forall|a: int, b: int|
                #![trigger self@.failed[a], self@.failed[b]]
                0 <= a < b < self@.failed.len() implies self@.failed[a].uuid
                != self@.failed[b].uuid by {
                if b < self@.failed.len() - 1 {
                } else {
                    assert(self@.failed[a] == old(self)@.failed[a]);
                    if old(self)@.failed[a].uuid == f@.uuid {
                        assert((#[trigger] old(self)@.failed[a]).uuid == f@.uuid);
                        assert(old(self)@.has_failed_uuid(f@.uuid));
                    }
                }
            }
        }
        id
    }

    /// Applies the runner's terminal transition in one transaction: the
    /// reserved row is deleted and, by the action, nothing, a retry row,
    /// or a dead letter is written.  A dead letter whose uuid already
    /// exists violates the unique key: the transaction rolls back and
    /// the database error is returned.
    pub fn finish(&mut self, task_id: u64, action: RunnerAction) -> (r: Result<(), Error>)
        requires
            old(self)@.wf(),
            old(self)@.next_job_id < u64::MAX,
            old(self)@.next_failed_id < u64::MAX,
        ensures
            final(self)@.wf(),
            finish_post(old(self)@, final(self)@, task_id, action_model(action), r),
    {
        match action {
            RunnerAction::Complete => {
                self.remove_job_rows(task_id);
                proof {
                    lemma_jobs_filter_wf(
                        old(self)@.jobs,
                        keep_other_ids(task_id),
                        old(self)@.next_job_id,
                    );
                }
                Ok(())
            },
            RunnerAction::Retry(nj) => {
                self.remove_job_rows(task_id);
                proof {
                    lemma_jobs_filter_wf(
                        old(self)@.jobs,
                        keep_other_ids(task_id),
                        old(self)@.next_job_id,
                    );
                }
                let _ = self.insert_job(nj);
                Ok(())
            },
            RunnerAction::DeadLetter(f) => {
                if self.has_failed(f.uuid.as_str()) {
                    return Err(
                        Error::DatabaseError(
                            String::from_str("unique key violated: failed_jobs.uuid"),
                        ),
                    );
                }
                self.remove_job_rows(task_id);
                proof {
                    lemma_jobs_filter_wf(
                        old(self)@.jobs,
                        keep_other_ids(task_id),
                        old(self)@.next_job_id,
                    );
                }
                let _ = self.insert_failed(f);
                Ok(())
            },
        }
    }
}

/// What retrying one dead letter does: if a dead letter with the uuid
/// exists, its queue and payload go back to `jobs` as a fresh row with
/// zero attempts, available at once, and the dead letter is deleted; if
/// none exists, the lookup's database error comes back and nothing
/// changes.
pub open spec fn retry_failed_post(
    pre: QueueModel,
    post: QueueModel,
    u: Seq<char>,
    now: u64,
    r: Result<(), Error>,
) -> bool {
    if pre.has_failed_uuid(u) {
        &&& r is Ok
        &&& exists|i: int|
            0 <= i < pre.failed.len() && (#[trigger] pre.failed[i]).uuid == u && post.jobs
                == pre.jobs.push(
                JobRowModel {
                    id: pre.next_job_id,
                    uuid: u,
                    queue: pre.failed[i].queue,
                    payload: pre.failed[i].payload,
                    attempts: 0,
                    reserved_at: None,
                    available_at: now,
                    created_at: now,
                },
            )
        &&& post.failed == pre.failed.filter(failed_keep_other_uuids(u))
        &&& post.next_job_id == pre.next_job_id + 1
        &&& post.next_failed_id == pre.next_failed_id
    } else {
        &&& r matches Result::Err(e) && e is DatabaseError
        &&& post == pre
    }
}

/// What retrying every dead letter does: the table empties into `jobs`,
/// one fresh row per dead letter, in table order, each with zero
/// attempts and available at once.
pub open spec fn retry_all_post(pre: QueueModel, post: QueueModel, now: u64) -> bool {
    &&& post.failed.len() == 0
    &&& post.jobs.len() == pre.jobs.len() + pre.failed.len()
    &&& post.jobs.subrange(0, pre.jobs.len() as int) == pre.jobs
    &&& forall|k: int|
        0 <= k < pre.failed.len() ==> post.jobs[pre.jobs.len() + k] == (JobRowModel {
            id: (pre.next_job_id + k) as u64,
            uuid: (#[trigger] pre.failed[k]).uuid,
            queue: pre.failed[k].queue,
            payload: pre.failed[k].payload,
            attempts: 0,
            reserved_at: None,
            available_at: now,
            created_at: now,
        })
    &&& post.next_job_id == pre.next_job_id + pre.failed.len()
    &&& post.next_failed_id == pre.next_failed_id
}

impl QueueState {
    /// Moves one dead letter back to `jobs` in one transaction: select
    /// by uuid, reinsert with zero attempts, delete the dead letter.
    pub fn retry_failed_job(&mut self, uuid: &str, now: u64) -> (r: Result<(), Error>)
        requires
            old(self)@.wf(),
            old(self)@.next_job_id < u64::MAX,
        ensures
            final(self)@.wf(),
            retry_failed_post(old(self)@, final(self)@, uuid@, now, r),
    {
        let n = self.failed.len();
        let mut i: usize = 0;
        while i < n
            invariant
                i <= n,
                n == self@.failed.len(),
                *self == *old(self),
                old(self)@.wf(),
                old(self)@.next_job_id < u64::MAX,
                forall|k: int| 0 <= k < i ==> (#[trigger] self@.failed[k]).uuid != uuid@,
            decreases n - i,
        {
            if str_eq(self.failed[i].uuid.as_str(), uuid) {
                let queue = self.failed[i].queue.clone();
                let payload = self.failed[i].payload.clone();
                let ghost fidx: int = i as int;
                proof {
                    assert((#[trigger] old(self)@.failed[fidx]).uuid == uuid@);
                }
                let nj = NewJob {
                    uuid: String::from_str(uuid),
                    queue,
                    payload,
                    attempts: 0,
                    available_at: now,
                    created_at: now,
                };
                let _ = self.insert_job(nj);
                self.remove_failed_rows(uuid);
                proof {
                    lemma_failed_filter_wf(
                        old(self)@.failed,
                        failed_keep_other_uuids(uuid@),
                        old(self)@.next_failed_id,
                    );
                    let row = JobRowModel {
                        id: old(self)@.next_job_id,
                        uuid: uuid@,
                        queue: old(self)@.failed[fidx].queue,
                        payload: old(self)@.failed[fidx].payload,
                        attempts: 0,
                        reserved_at: None,
                        available_at: now,
                        created_at: now,
                    };
                    assert(self@.jobs =~= old(self)@.jobs.push(row));
                    assert(exists|k: int|
                        0 <= k < old(self)@.failed.len() && (#[trigger] old(
                            self,
                        )@.failed[k]).uuid == uuid@ && self@.jobs == old(self)@.jobs.push(
                            JobRowModel {
                                id: old(self)@.next_job_id,
                                uuid: uuid@,
                                queue: old(self)@.failed[k].queue,
                                payload: old(self)@.failed[k].payload,
                                attempts: 0,
                                reserved_at: None,
                                available_at: now,
                                created_at: now,
                            },
                        )) by {
                        assert(0 <= fidx < old(self)@.failed.len() && (#[trigger] old(
                            self,
                        )@.failed[fidx]).uuid == uuid@ && self@.jobs == old(self)@.jobs.push(
                            JobRowModel {
                                id: old(self)@.next_job_id,
                                uuid: uuid@,
                                queue: old(self)@.failed[fidx].queue,
                                payload: old(self)@.failed[fidx].payload,
                                attempts: 0,
                                reserved_at: None,
                                available_at: now,
                                created_at: now,
                            },
                        ));
                    }
                }
                return Ok(());
            }
            i += 1;
        }
        Err(Error::DatabaseError(String::from_str("no failed job with this uuid")))
    }

    /// Retries every dead letter, oldest first, each in its own
    /// transaction.
    pub fn retry_all_failed_jobs(&mut self, now: u64) -> (r: Result<(), Error>)
        requires
            old(self)@.wf(),
            old(self)@.next_job_id + old(self)@.failed.len() <= u64::MAX,
        ensures
            final(self)@.wf(),
            r is Ok,
            retry_all_post(old(self)@, final(self)@, now),
    {
        let ghost pre = self@;
        let ghost mut k: int = 0;
        while self.failed.len() > 0
            invariant
                0 <= k <= pre.failed.len(),
                pre.wf(),
                pre.next_job_id + pre.failed.len() <= u64::MAX,
                pre == old(self)@,
                self@.wf(),
                self@.failed == pre.failed.subrange(k, pre.failed.len() as int),
                self@.jobs.len() == pre.jobs.len() + k,
                self@.jobs.subrange(0, pre.jobs.len() as int) == pre.jobs,
                forall|m: int|
                    0 <= m < k ==> self@.jobs[pre.jobs.len() + m] == (JobRowModel {
                        id: (pre.next_job_id + m) as u64,
                        uuid: (#[trigger] pre.failed[m]).uuid,
                        queue: pre.failed[m].queue,
                        payload: pre.failed[m].payload,
                        attempts: 0,
                        reserved_at: None,
                        available_at: now,
                        created_at: now,
                    }),
                self@.next_job_id == pre.next_job_id + k,
                self@.next_failed_id == pre.next_failed_id,
            decreases self@.failed.len(),
        {
            let ghost cur = self@;
            let u = self.failed[0].uuid.clone();
            proof {
                assert(k < pre.failed.len());
                assert(cur.failed[0] == pre.failed[k]);
                assert((#[trigger] cur.failed[0]).uuid == u@);
                assert(cur.has_failed_uuid(u@));
            }
            let r1 = self.retry_failed_job(u.as_str(), now);
            match r1 {
                Result::Err(e) => {
                    proof {
                        assert(false);
                    }
                    return Err(e);
                },
                Result::Ok(_) => {},
            }
            proof {
                let i0 = choose|i: int|
                    0 <= i < cur.failed.len() && (#[trigger] cur.failed[i]).uuid == u@
                        && self@.jobs == cur.jobs.push(
                        JobRowModel {
                            id: cur.next_job_id,
                            uuid: u@,
                            queue: cur.failed[i].queue,
                            payload: cur.failed[i].payload,
                            attempts: 0,
                            reserved_at: None,
                            available_at: now,
                            created_at: now,
                        },
                    );
                if i0 != 0 {
                    assert(cur.failed[0].uuid == cur.failed[i0].uuid);
                    assert(false);
                }
                lemma_failed_filter_drop_first(cur.failed, u@);
                assert(self@.failed =~= pre.failed.subrange(k + 1, pre.failed.len() as int));
                assert(self@.jobs.subrange(0, pre.jobs.len() as int) =~= pre.jobs);
                assert(self@.jobs[pre.jobs.len() + k] == (JobRowModel {
                    id: (pre.next_job_id + k) as u64,
                    uuid: pre.failed[k].uuid,
                    queue: pre.failed[k].queue,
                    payload: pre.failed[k].payload,
                    attempts: 0,
                    reserved_at: None,
                    available_at: now,
                    created_at: now,
                }));
                k = k + 1;
            }
        }
        proof {
            assert(k == pre.failed.len());
            assert(final(self)@.jobs.subrange(0, pre.jobs.len() as int) == pre.jobs);
        }
        Ok(())
    }

    /// Deletes one dead letter by uuid; deleting a uuid that is absent
    /// deletes nothing and still succeeds.
    pub fn delete_failed_job(&mut self, uuid: &str) -> (r: Result<(), Error>)
        requires
            old(self)@.wf(),
        ensures
            final(self)@.wf(),
            r is Ok,
            final(self)@.failed == old(self)@.failed.filter(failed_keep_other_uuids(uuid@)),
            final(self)@.jobs == old(self)@.jobs,
            final(self)@.next_job_id == old(self)@.next_job_id,
            final(self)@.next_failed_id == old(self)@.next_failed_id,
    {
        self.remove_failed_rows(uuid);
        proof {
            lemma_failed_filter_wf(
                old(self)@.failed,
                failed_keep_other_uuids(uuid@),
                old(self)@.next_failed_id,
            );
        }
        Ok(())
    }

    /// Empties the dead-letter table.
    pub fn delete_all_failed_jobs(&mut self) -> (r: Result<(), Error>)
        requires
            old(self)@.wf(),
        ensures
            final(self)@.wf(),
            r is Ok,
            final(self)@.failed.len() == 0,
            final(self)@.jobs == old(self)@.jobs,
            final(self)@.next_job_id == old(self)@.next_job_id,
            final(self)@.next_failed_id == old(self)@.next_failed_id,
    {
        self.failed.clear();
        proof {
            assert(self@.failed =~= Seq::<FailedJobModel>::empty());
        }
        Ok(())
    }

    /// Deletes every job row carrying this uuid.
    pub fn delete_job(&mut self, uuid: &str) -> (r: Result<(), Error>)
        requires
            old(self)@.wf(),
        ensures
            final(self)@.wf(),
            r is Ok,
            final(self)@.jobs == old(self)@.jobs.filter(jobs_keep_other_uuids(uuid@)),
            final(self)@.failed == old(self)@.failed,
            final(self)@.next_job_id == old(self)@.next_job_id,
            final(self)@.next_failed_id == old(self)@.next_failed_id,
    {
        self.remove_job_rows_by_uuid(uuid);
        proof {
            lemma_jobs_filter_wf(
                old(self)@.jobs,
                jobs_keep_other_uuids(uuid@),
                old(self)@.next_job_id,
            );
        }
        Ok(())
    }

    /// Empties the `jobs` table.
    pub fn delete_all_jobs(&mut self) -> (r: Result<(), Error>)
        requires
            old(self)@.wf(),
        ensures
            final(self)@.wf(),
            r is Ok,
            final(self)@.jobs.len() == 0,
            final(self)@.failed == old(self)@.failed,
            final(self)@.next_job_id == old(self)@.next_job_id,
            final(self)@.next_failed_id == old(self)@.next_failed_id,
    {
        self.jobs.clear();
        proof {
            assert(self@.jobs =~= Seq::<JobRowModel>::empty());
        }
        Ok(())
    }
}

/// What the runner's terminal transition does to the store.
pub open spec fn finish_post(
    pre: QueueModel,
    post: QueueModel,
    id: u64,
    am: RunnerActionModel,
    r: Result<(), Error>,
) -> bool {
    match am {
        RunnerActionModel::Complete => {
            &&& r is Ok
            &&& post.jobs == remove_job_id(pre.jobs, id)
            &&& post.failed == pre.failed
            &&& post.next_job_id == pre.next_job_id
            &&& post.next_failed_id == pre.next_failed_id
        },
        RunnerActionModel::Retry(nj) => {
            &&& r is Ok
            &&& post.jobs == remove_job_id(pre.jobs, id).push(
                JobRowModel {
                    id: pre.next_job_id,
                    uuid: nj.uuid,
                    queue: nj.queue,
                    payload: nj.payload,
                    attempts: nj.attempts,
                    reserved_at: None,
                    available_at: nj.available_at,
                    created_at: nj.created_at,
                },
            )
            &&& post.failed == pre.failed
            &&& post.next_job_id == pre.next_job_id + 1
            &&& post.next_failed_id == pre.next_failed_id
        },
        RunnerActionModel::DeadLetter(f) => {
            if pre.has_failed_uuid(f.uuid) {
                &&& r matches Result::Err(e) && e is DatabaseError
                &&& post == pre
            } else {
                &&& r is Ok
                &&& post.jobs == remove_job_id(pre.jobs, id)
                &&& post.failed == pre.failed.push(
                    FailedJobModel {
                        id: pre.next_failed_id,
                        uuid: f.uuid,
                        queue: f.queue,
                        payload: f.payload,
                        exception: f.exception,
                        failed_at: f.failed_at,
                    },
                )
                &&& post.next_job_id == pre.next_job_id
                &&& post.next_failed_id == pre.next_failed_id + 1
            }
        },
    }
}

/// What inserting a fresh row does: it is appended under the next key,
/// which moves on by one; nothing else changes.
pub open spec fn insert_job_post(
    pre: QueueModel,
    post: QueueModel,
    nj: NewJobModel,
    id: u64,
) -> bool {
    &&& id == pre.next_job_id
    &&& post.jobs == pre.jobs.push(
        JobRowModel {
            id,
            uuid: nj.uuid,
            queue: nj.queue,
            payload: nj.payload,
            attempts: nj.attempts,
            reserved_at: None,
            available_at: nj.available_at,
            created_at: nj.created_at,
        },
    )
    &&& post.failed == pre.failed
    &&& post.next_job_id == pre.next_job_id + 1
    &&& post.next_failed_id == pre.next_failed_id
}

/// Law: dispatch visibility.  A freshly inserted row is exposed to a
/// worker polling its queue exactly from `available_at` on, whatever
/// the stale window.
pub proof fn lemma_dispatched_row_visible(
    pre: QueueModel,
    post: QueueModel,
    nj: NewJobModel,
    id: u64,
    now: u64,
    retry_after: u64,
)
    requires
        insert_job_post(pre, post, nj, id),
    ensures
        post.jobs.len() > 0,
        eligible(post.jobs[post.jobs.len() - 1], nj.queue, now, retry_after) <==> nj.available_at
            <= now,
{
}

/// Law: uniqueness of reservation.  While a reservation is younger than
/// `retry_after`, a second reservation attempt on the same queue never
/// hands out the row again: two attempts in that window receive
/// different rows (or the second receives none).
pub proof fn lemma_reservation_exclusive(
    m0: QueueModel,
    m1: QueueModel,
    m2: QueueModel,
    q: Seq<char>,
    t1: u64,
    t2: u64,
    retry_after: u64,
    task1: TaskModel,
    r2: Option<TaskModel>,
)
    requires
        m0.wf(),
        reserve_post(m0, m1, q, t1, retry_after, Some(task1)),
        reserve_post(m1, m2, q, t2, retry_after, r2),
        t2 < t1 + retry_after,
    ensures
        r2 is Some ==> r2->0.id != task1.id,
{
    if r2 is Some {
        let i = choose|i: int| reserve_post_at(m0, m1, q, t1, retry_after, Some(task1)->0, i);
        let j = choose|j: int| reserve_post_at(m1, m2, q, t2, retry_after, r2->0, j);
        assert(reserve_post_at(m0, m1, q, t1, retry_after, Some(task1)->0, i));
        assert(reserve_post_at(m1, m2, q, t2, retry_after, r2->0, j));
        if j == i {
            assert(m1.jobs[i].reserved_at == Some(t1));
            assert(eligible(m1.jobs[j], q, t2, retry_after));
            assert(false);
        } else {
            assert(m1.jobs[j] == m0.jobs[j]);
            assert(r2->0.id == m0.jobs[j].id);
            assert(task1.id == m0.jobs[i].id);
            if j < i {
                assert(m0.jobs[j].id < m0.jobs[i].id);
            } else {
                assert(m0.jobs[i].id < m0.jobs[j].id);
            }
        }
    }
}

/// Law: FIFO within a queue.  With two unreserved, available rows of
/// the polled queue, a reservation attempt never skips the earlier row
/// for the later: what it hands out has at most the earlier row's id.
pub proof fn lemma_fifo(
    m0: QueueModel,
    m1: QueueModel,
    q: Seq<char>,
    now: u64,
    retry_after: u64,
    t: TaskModel,
    a: int,
    b: int,
)
    requires
        m0.wf(),
        reserve_post(m0, m1, q, now, retry_after, Some(t)),
        0 <= a < b < m0.jobs.len(),
        m0.jobs[a].queue == q,
        m0.jobs[b].queue == q,
        m0.jobs[a].reserved_at is None,
        m0.jobs[b].reserved_at is None,
        m0.jobs[a].available_at <= now,
        m0.jobs[b].available_at <= now,
    ensures
        t.id <= m0.jobs[a].id,
        t.id != m0.jobs[b].id,
{
    let i = choose|i: int| reserve_post_at(m0, m1, q, now, retry_after, Some(t)->0, i);
    assert(reserve_post_at(m0, m1, q, now, retry_after, Some(t)->0, i));
    assert(eligible(m0.jobs[a], q, now, retry_after));
    assert(i <= a);
    if i < a {
        assert(m0.jobs[i].id < m0.jobs[a].id);
    }
    assert(m0.jobs[i].id < m0.jobs[b].id);
}

/// Law: attempts increase on reclaim.  When a stale reservation is
/// picked up again, the observed attempts count is one more than at the
/// first reservation.
pub proof fn lemma_attempts_monotonic_reclaim(
    m0: QueueModel,
    m1: QueueModel,
    m2: QueueModel,
    q: Seq<char>,
    t1: u64,
    t2: u64,
    retry_after: u64,
    task1: TaskModel,
    task2: TaskModel,
)
    requires
        m0.wf(),
        attempts_headroom(m0),
        reserve_post(m0, m1, q, t1, retry_after, Some(task1)),
        reserve_post(m1, m2, q, t2, retry_after, Some(task2)),
        task2.id == task1.id,
    ensures
        task2.attempts == task1.attempts + 1,
{
    let i = choose|i: int| reserve_post_at(m0, m1, q, t1, retry_after, Some(task1)->0, i);
    let j = choose|j: int| reserve_post_at(m1, m2, q, t2, retry_after, Some(task2)->0, j);
    assert(reserve_post_at(m0, m1, q, t1, retry_after, Some(task1)->0, i));
    assert(reserve_post_at(m1, m2, q, t2, retry_after, Some(task2)->0, j));
    if j != i {
        assert(m1.jobs[j] == m0.jobs[j]);
        if j < i {
            assert(m0.jobs[j].id < m0.jobs[i].id);
        } else {
            assert(m0.jobs[i].id < m0.jobs[j].id);
        }
        assert(false);
    }
    assert(m1.jobs[i].attempts == task1.attempts + 1);
}

/// Law: attempts increase across a retry.  A row reinserted by the
/// runner carries one more attempt than was observed, and reserving it
/// observes exactly that count.
pub proof fn lemma_attempts_monotonic_retry(
    task1: TaskModel,
    err: Seq<char>,
    tries: u32,
    backoff: u64,
    queue: Seq<char>,
    payload: Seq<char>,
    tf: u64,
    nj: NewJobModel,
    m1: QueueModel,
    m2: QueueModel,
    m3: QueueModel,
    q: Seq<char>,
    t3: u64,
    retry_after: u64,
    r: Result<(), Error>,
    task2: TaskModel,
)
    requires
        m1.wf(),
        task1.attempts < u32::MAX,
        decide_post(
            task1,
            false,
            err,
            tries,
            backoff,
            queue,
            payload,
            tf,
            RunnerActionModel::Retry(nj),
        ),
        task1.attempts + 1 < tries,
        finish_post(m1, m2, task1.id, RunnerActionModel::Retry(nj), r),
        reserve_post(m2, m3, q, t3, retry_after, Some(task2)),
        task2.id == m1.next_job_id,
    ensures
        task2.attempts == task1.attempts + 1,
{
    assert(nj.attempts == task1.attempts + 1);
    let f = remove_job_id(m1.jobs, task1.id);
    let j = choose|j: int| reserve_post_at(m2, m3, q, t3, retry_after, Some(task2)->0, j);
    assert(reserve_post_at(m2, m3, q, t3, retry_after, Some(task2)->0, j));
    if j < f.len() {
        lemma_filter_sub(m1.jobs, keep_other_ids(task1.id));
        assert(f.contains(f[j]));
        assert(m1.jobs.contains(f[j]));
        let m = choose|m: int| 0 <= m < m1.jobs.len() && m1.jobs[m] == f[j];
        assert(m1.jobs[m].id < m1.next_job_id);
        assert(m2.jobs[j] == f[j]);
        assert(false);
    }
    assert(j == f.len());
    assert(m2.jobs[j].attempts == nj.attempts);
}

/// Law: backoff.  A row reinserted after a failure is not handed out
/// before the failure time plus the job's backoff for that attempt.
pub proof fn lemma_backoff(
    task1: TaskModel,
    err: Seq<char>,
    tries: u32,
    backoff: u64,
    queue: Seq<char>,
    payload: Seq<char>,
    tf: u64,
    nj: NewJobModel,
    m1: QueueModel,
    m2: QueueModel,
    m3: QueueModel,
    q: Seq<char>,
    t3: u64,
    retry_after: u64,
    r: Result<(), Error>,
    task2: TaskModel,
)
    requires
        m1.wf(),
        tf + backoff <= u64::MAX,
        decide_post(
            task1,
            false,
            err,
            tries,
            backoff,
            queue,
            payload,
            tf,
            RunnerActionModel::Retry(nj),
        ),
        task1.attempts + 1 < tries,
        finish_post(m1, m2, task1.id, RunnerActionModel::Retry(nj), r),
        reserve_post(m2, m3, q, t3, retry_after, Some(task2)),
        task2.id == m1.next_job_id,
    ensures
        t3 >= tf + backoff,
{
    assert(nj.available_at == tf + backoff);
    let f = remove_job_id(m1.jobs, task1.id);
    let j = choose|j: int| reserve_post_at(m2, m3, q, t3, retry_after, Some(task2)->0, j);
    assert(reserve_post_at(m2, m3, q, t3, retry_after, Some(task2)->0, j));
    if j < f.len() {
        lemma_filter_sub(m1.jobs, keep_other_ids(task1.id));
        assert(f.contains(f[j]));
        assert(m1.jobs.contains(f[j]));
        let m = choose|m: int| 0 <= m < m1.jobs.len() && m1.jobs[m] == f[j];
        assert(m1.jobs[m].id < m1.next_job_id);
        assert(m2.jobs[j] == f[j]);
        assert(false);
    }
    assert(j == f.len());
    assert(m2.jobs[j].reserved_at is None);
    assert(eligible(m2.jobs[j], q, t3, retry_after));
}

/// Law: dead-lettering.  When the runner dead-letters a job whose uuid
/// is not yet among the dead letters and is carried by no other job
/// row, the transition succeeds, exactly one dead letter with that uuid
/// exists afterwards, and no job row carries it.
pub proof fn lemma_dead_letter(
    task: TaskModel,
    err: Seq<char>,
    tries: u32,
    backoff: u64,
    queue: Seq<char>,
    payload: Seq<char>,
    tf: u64,
    f: NewFailedJobModel,
    m1: QueueModel,
    m2: QueueModel,
    r: Result<(), Error>,
)
    requires
        m1.wf(),
        decide_post(
            task,
            false,
            err,
            tries,
            backoff,
            queue,
            payload,
            tf,
            RunnerActionModel::DeadLetter(f),
        ),
        tries <= task.attempts + 1,
        finish_post(m1, m2, task.id, RunnerActionModel::DeadLetter(f), r),
        !m1.has_failed_uuid(task.uuid),
        forall|k: int|
            0 <= k < m1.jobs.len() && (#[trigger] m1.jobs[k]).uuid == task.uuid ==> m1.jobs[k].id
                == task.id,
    ensures
        r is Ok,
        exists|i: int| 0 <= i < m2.failed.len() && (#[trigger] m2.failed[i]).uuid == task.uuid,
        forall|i: int, j: int|
            #![trigger m2.failed[i], m2.failed[j]]
            0 <= i < m2.failed.len() && 0 <= j < m2.failed.len() && m2.failed[i].uuid == task.uuid
                && m2.failed[j].uuid == task.uuid ==> i == j,
        forall|k: int| 0 <= k < m2.jobs.len() ==> (#[trigger] m2.jobs[k]).uuid != task.uuid,
{
    assert(f.uuid == task.uuid);
    let last = m2.failed.len() - 1;
    assert((#[trigger] m2.failed[last]).uuid == task.uuid);
    assert forall|i: int, j: int|
        #![trigger m2.failed[i], m2.failed[j]]
        0 <= i < m2.failed.len() && 0 <= j < m2.failed.len() && m2.failed[i].uuid == task.uuid
            && m2.failed[j].uuid == task.uuid implies i == j by {
        if i < last && m2.failed[i].uuid == task.uuid {
            assert(m2.failed[i] == m1.failed[i]);
            assert((#[trigger] m1.failed[i]).uuid == task.uuid);
            assert(m1.has_failed_uuid(task.uuid));
            assert(false);
        }
        if j < last && m2.failed[j].uuid == task.uuid {
            assert(m2.failed[j] == m1.failed[j]);
            assert((#[trigger] m1.failed[j]).uuid == task.uuid);
            assert(m1.has_failed_uuid(task.uuid));
            assert(false);
        }
    }
    lemma_filter_sub(m1.jobs, keep_other_ids(task.id));
    broadcast use vstd::seq_lib::group_filter_ensures;

    assert forall|k: int| 0 <= k < m2.jobs.len() implies (#[trigger] m2.jobs[k]).uuid
        != task.uuid by {
        let fj = remove_job_id(m1.jobs, task.id);
        assert(m2.jobs == fj);
        assert(fj.contains(fj[k]));
        assert(m1.jobs.contains(fj[k]));
        let m = choose|m: int| 0 <= m < m1.jobs.len() && m1.jobs[m] == fj[k];
        assert(keep_other_ids(task.id)(fj[k]));
        assert(fj[k].id != task.id);
        if m1.jobs[m].uuid == task.uuid {
            assert(m1.jobs[m].id == task.id);
            assert(false);
        }
    }
}

/// Law: reclaim.  Once `retry_after` has passed since a reservation,
/// the row is exposed again: a reservation attempt on the queue then
/// hands some row out.
pub proof fn lemma_reclaim(
    m0: QueueModel,
    m1: QueueModel,
    m2: QueueModel,
    q: Seq<char>,
    t1: u64,
    t2: u64,
    retry_after: u64,
    task1: TaskModel,
    r2: Option<TaskModel>,
)
    requires
        m0.wf(),
        reserve_post(m0, m1, q, t1, retry_after, Some(task1)),
        t1 + retry_after <= t2,
        reserve_post(m1, m2, q, t2, retry_after, r2),
    ensures
        r2 is Some,
{
    let i = choose|i: int| reserve_post_at(m0, m1, q, t1, retry_after, Some(task1)->0, i);
    assert(reserve_post_at(m0, m1, q, t1, retry_after, Some(task1)->0, i));
    assert(m1.jobs[i].reserved_at == Some(t1));
    assert(m1.jobs[i].queue == q);
    assert(eligible(m1.jobs[i], q, t2, retry_after));
    if r2 is None {
        assert(!eligible(m1.jobs[i], q, t2, retry_after));
        assert(false);
    }
}

/// Law (toward at-least-once execution): a reservation attempt never
/// removes or rewrites the identity of any row — a dispatched row can
/// leave the `jobs` table only through the runner's terminal transition
/// or an administrative delete.
pub proof fn lemma_reserve_preserves_rows(
    m0: QueueModel,
    m1: QueueModel,
    q: Seq<char>,
    now: u64,
    retry_after: u64,
    r: Option<TaskModel>,
)
    requires
        reserve_post(m0, m1, q, now, retry_after, r),
    ensures
        m1.jobs.len() == m0.jobs.len(),
        forall|k: int|
            #![trigger m1.jobs[k]]
            0 <= k < m0.jobs.len() ==> m1.jobs[k].id == m0.jobs[k].id && m1.jobs[k].uuid
                == m0.jobs[k].uuid && m1.jobs[k].payload == m0.jobs[k].payload,
{
    if r is Some {
        let i = choose|i: int| reserve_post_at(m0, m1, q, now, retry_after, r->0, i);
        assert(reserve_post_at(m0, m1, q, now, retry_after, r->0, i));
    }
}

/// Law (toward at-least-once execution): the runner's terminal
/// transition removes only the finished row; every other row survives
/// it untouched.
pub proof fn lemma_finish_removes_only_finished(
    m1: QueueModel,
    m2: QueueModel,
    id: u64,
    am: RunnerActionModel,
    r: Result<(), Error>,
)
    requires
        finish_post(m1, m2, id, am, r),
        r is Ok,
    ensures
        forall|k: int|
            0 <= k < m1.jobs.len() && (#[trigger] m1.jobs[k]).id != id ==> m2.jobs.contains(
                m1.jobs[k],
            ),
{
    broadcast use vstd::seq_lib::group_filter_ensures;

    let fj = remove_job_id(m1.jobs, id);
    assert forall|k: int|
        0 <= k < m1.jobs.len() && (#[trigger] m1.jobs[k]).id != id implies m2.jobs.contains(
        m1.jobs[k],
    ) by {
        assert(keep_other_ids(id)(m1.jobs[k]));
        assert(fj.contains(m1.jobs[k]));
        let m = choose|m: int| 0 <= m < fj.len() && fj[m] == m1.jobs[k];
        match am {
            RunnerActionModel::Complete => {
                assert(m2.jobs == fj);
            },
            RunnerActionModel::Retry(nj) => {
                assert(m2.jobs[m] == fj[m]);
            },
            RunnerActionModel::DeadLetter(f) => {
                assert(m2.jobs == fj);
            },
        }
    }
}

} // verus!
