//! A durable background-job queue over a relational database.
//!
//! Producers enqueue typed jobs; workers reserve, execute, and either
//! finalize or retry them.  The reservation protocol, the retry/backoff
//! state machine, the dead-letter flow and the shutdown coordination are
//! verified here against an in-memory model of the two tables; the SQL
//! text that mirrors each transition onto MySQL or PostgreSQL is rendered
//! by the dialect module with exact contracts.

use vstd::prelude::*;

pub mod client;
pub mod codec;
pub mod dialect;
pub mod engine;
pub mod errors;
pub mod job;
pub mod models;
pub mod text;
pub mod worker;

pub use client::{ClientBuilder, DispatchOptions};
pub use errors::Error;
pub use job::HelloJob;
pub use worker::WorkerBuilder;

verus! {

/// Which database dialect a connection speaks, selected by the URL scheme.
#[derive(Debug, Clone, Copy, PartialEq, Eq, Hash, Structural)]
pub enum DBType {
    Postgres,
    Mysql,
}

} // verus!
