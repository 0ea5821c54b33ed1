//! The producer side: the client's connection configuration and the
//! computation of the row one dispatch writes.

use vstd::prelude::*;

use crate::models::NewJob;

verus! {

/// Options of one dispatch: an overriding queue and a delay in seconds
/// before the job becomes available.
pub struct DispatchOptions {
    pub queue: Option<String>,
    pub delay: Option<u64>,
}

/// Builds the producer-side configuration: pool bounds, then connect.
pub struct ClientBuilder {
    pub max_connections: u32,
    pub min_connections: u32,
}

impl ClientBuilder {
    /// The defaults: at most ten connections, none held open.
    pub fn new() -> (b: ClientBuilder)
        ensures
            b.max_connections == 10,
            b.min_connections == 0,
    {
        ClientBuilder { max_connections: 10, min_connections: 0 }
    }

    /// Sets the pool's upper bound.
    pub fn max_connections(self, max_connections: u32) -> (b: ClientBuilder)
        ensures
            b.max_connections == max_connections,
            b.min_connections == self.min_connections,
    {
        ClientBuilder { max_connections, ..self }
    }

    /// Sets the pool's lower bound.
    pub fn min_connections(self, min_connections: u32) -> (b: ClientBuilder)
        ensures
            b.min_connections == min_connections,
            b.max_connections == self.max_connections,
    {
        ClientBuilder { min_connections, ..self }
    }
}

/// Relies on uuid's `Uuid::new_v4` and its `Display` form: a fresh
/// random uuid renders as its 36-character hyphenated text.
#[verifier::external_body]
fn fresh_uuid() -> (r: String)
    ensures
        r@.len() == 36,
{
    uuid::Uuid::new_v4().to_string()
}

/// Computes the row one dispatch writes: a fresh uuid, zero attempts,
/// `created_at = now` and `available_at = now + delay`.
pub fn plan_dispatch(queue: String, payload: String, delay: u64, now: u64) -> (nj: NewJob)
    requires
        now + delay <= u64::MAX,
    ensures
        nj@.queue == queue@,
        nj@.payload == payload@,
        nj@.attempts == 0,
        nj@.available_at == now + delay,
        nj@.created_at == now,
        nj@.uuid.len() == 36,
{
    NewJob {
        uuid: fresh_uuid(),
        queue,
        payload,
        attempts: 0,
        available_at: now + delay,
        created_at: now,
    }
}

} // verus!
