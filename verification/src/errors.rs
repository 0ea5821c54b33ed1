//! The error taxonomy of the queue engine.

use vstd::prelude::*;

verus! {

/// Everything that can go wrong while dispatching, reserving or running a
/// job.  Driver and serialization failures are carried as their textual
/// description, which is what the dead-letter table stores.
#[derive(Debug)]
pub enum Error {
    /// A database or driver failure, described textually.
    DatabaseError(String),
    /// The connection string names a dialect the engine does not speak.
    UnsupportedDatabaseUrl,
    /// A payload could not be encoded or decoded.
    SerdeError(String),
    /// A user-supplied failure returned by a job's handler.
    Message(String),
    /// The handler exceeded the job's timeout.
    JobTimeout,
    /// The handler aborted unexpectedly.
    JobPanic,
    /// A clock or system call failed.
    Unknown,
}

impl Error {
    /// The textual form of the error, as stored in `failed_jobs.exception`.
    pub open spec fn message_spec(&self) -> Seq<char> {
        match self {
            Error::DatabaseError(_) => "database error"@,
            Error::UnsupportedDatabaseUrl => "usupported database url"@,
            Error::SerdeError(_) => "serializing error"@,
            Error::Message(s) => "job error: "@ + s@,
            Error::JobTimeout => "job timeout"@,
            Error::JobPanic => "job panic"@,
            Error::Unknown => "unknown data store error"@,
        }
    }

    /// Renders the error as text.
    pub fn message(&self) -> (r: String)
        ensures
            r@ == self.message_spec(),
    {
        match self {
            Error::DatabaseError(_) => String::from_str("database error"),
            Error::UnsupportedDatabaseUrl => String::from_str("usupported database url"),
            Error::SerdeError(_) => String::from_str("serializing error"),
            Error::Message(s) => String::from_str("job error: ").concat(s.as_str()),
            Error::JobTimeout => String::from_str("job timeout"),
            Error::JobPanic => String::from_str("job panic"),
            Error::Unknown => String::from_str("unknown data store error"),
        }
    }
}

} // verus!
