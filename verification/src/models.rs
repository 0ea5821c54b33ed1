//! The persistent data model: rows of the `jobs` and `failed_jobs`
//! tables, the fields of a row about to be inserted, and the slice of a
//! reserved row handed to the execution runner.  Each carries a
//! mathematical view used by every contract.

use vstd::prelude::*;

verus! {

/// One row of the `jobs` table.
pub struct JobRow {
    pub id: u64,
    pub uuid: String,
    pub queue: String,
    pub payload: String,
    pub attempts: u32,
    pub reserved_at: Option<u64>,
    pub available_at: u64,
    pub created_at: u64,
}

/// The mathematical shape of a `jobs` row.
#[verifier::ext_equal]
pub struct JobRowModel {
    pub id: u64,
    pub uuid: Seq<char>,
    pub queue: Seq<char>,
    pub payload: Seq<char>,
    pub attempts: u32,
    pub reserved_at: Option<u64>,
    pub available_at: u64,
    pub created_at: u64,
}

impl View for JobRow {
    type V = JobRowModel;

    open spec fn view(&self) -> JobRowModel {
        JobRowModel {
            id: self.id,
            uuid: self.uuid@,
            queue: self.queue@,
            payload: self.payload@,
            attempts: self.attempts,
            reserved_at: self.reserved_at,
            available_at: self.available_at,
            created_at: self.created_at,
        }
    }
}

/// One row of the `failed_jobs` table: a dead letter.
pub struct FailedJob {
    pub id: u64,
    pub uuid: String,
    pub queue: String,
    pub payload: String,
    pub exception: String,
    pub failed_at: u64,
}

/// The mathematical shape of a `failed_jobs` row.
#[verifier::ext_equal]
pub struct FailedJobModel {
    pub id: u64,
    pub uuid: Seq<char>,
    pub queue: Seq<char>,
    pub payload: Seq<char>,
    pub exception: Seq<char>,
    pub failed_at: u64,
}

impl View for FailedJob {
    type V = FailedJobModel;

    open spec fn view(&self) -> FailedJobModel {
        FailedJobModel {
            id: self.id,
            uuid: self.uuid@,
            queue: self.queue@,
            payload: self.payload@,
            exception: self.exception@,
            failed_at: self.failed_at,
        }
    }
}

/// The fields of a fresh `jobs` row, before the table assigns its id.
pub struct NewJob {
    pub uuid: String,
    pub queue: String,
    pub payload: String,
    pub attempts: u32,
    pub available_at: u64,
    pub created_at: u64,
}

/// The mathematical shape of a fresh row.
#[verifier::ext_equal]
pub struct NewJobModel {
    pub uuid: Seq<char>,
    pub queue: Seq<char>,
    pub payload: Seq<char>,
    pub attempts: u32,
    pub available_at: u64,
    pub created_at: u64,
}

impl View for NewJob {
    type V = NewJobModel;

    open spec fn view(&self) -> NewJobModel {
        NewJobModel {
            uuid: self.uuid@,
            queue: self.queue@,
            payload: self.payload@,
            attempts: self.attempts,
            available_at: self.available_at,
            created_at: self.created_at,
        }
    }
}

/// The fields of a fresh dead letter, before the table assigns its id.
pub struct NewFailedJob {
    pub uuid: String,
    pub queue: String,
    pub payload: String,
    pub exception: String,
    pub failed_at: u64,
}

/// The mathematical shape of a fresh dead letter.
#[verifier::ext_equal]
pub struct NewFailedJobModel {
    pub uuid: Seq<char>,
    pub queue: Seq<char>,
    pub payload: Seq<char>,
    pub exception: Seq<char>,
    pub failed_at: u64,
}

impl View for NewFailedJob {
    type V = NewFailedJobModel;

    open spec fn view(&self) -> NewFailedJobModel {
        NewFailedJobModel {
            uuid: self.uuid@,
            queue: self.queue@,
            payload: self.payload@,
            exception: self.exception@,
            failed_at: self.failed_at,
        }
    }
}

/// The subset of a reserved row the execution runner works with.
/// `attempts` is the count read at selection, before the reservation
/// incremented it.
pub struct Task {
    pub id: u64,
    pub uuid: String,
    pub payload: String,
    pub attempts: u32,
}

/// The mathematical shape of a task.
#[verifier::ext_equal]
pub struct TaskModel {
    pub id: u64,
    pub uuid: Seq<char>,
    pub payload: Seq<char>,
    pub attempts: u32,
}

impl View for Task {
    type V = TaskModel;

    open spec fn view(&self) -> TaskModel {
        TaskModel { id: self.id, uuid: self.uuid@, payload: self.payload@, attempts: self.attempts }
    }
}

/// The view of an optional task.
pub open spec fn opt_task_model(r: Option<Task>) -> Option<TaskModel> {
    match r {
        Option::None => None,
        Option::Some(t) => Some(t@),
    }
}

/// Whether a row may be handed out by a reservation attempt at time
/// `now`: it belongs to the polled queue and either was never reserved
/// and has become available, or its reservation has gone stale.
pub open spec fn eligible(r: JobRowModel, q: Seq<char>, now: u64, retry_after: u64) -> bool {
    &&& r.queue == q
    &&& match r.reserved_at {
        Option::None => r.available_at <= now,
        Option::Some(t) => t + retry_after <= now,
    }
}

} // verus!
