use std::sync::Arc;
use tokio::sync::{OwnedSemaphorePermit, Semaphore};
use vstd::prelude::*;

verus! {

/// tokio's counting semaphore, opaque.
#[verifier::external_type_specification]
#[verifier::external_body]
pub struct ExSemaphore(Semaphore);

/// A permit taken from a tokio semaphore, opaque; dropping it returns the permit.
#[verifier::external_type_specification]
#[verifier::external_body]
pub struct ExOwnedSemaphorePermit(OwnedSemaphorePermit);

/// Connections served at once by default.
pub const MAX_CONNECTIONS: usize = 10000;

/// Relies on `tokio::sync::Semaphore::new`, which panics above `Semaphore::MAX_PERMITS`
/// (`usize::MAX >> 3`): a shared pool of `permits` permits.
#[verifier::external_body]
fn permit_pool(permits: usize) -> (r: Arc<Semaphore>)
    requires
        permits <= usize::MAX / 8,
{
    Arc::new(Semaphore::new(permits))
}

/// Relies on `Semaphore::try_acquire_owned`: a permit if one is free at this moment; it
/// goes back to the pool when dropped.
#[verifier::external_body]
fn try_take(pool: &Arc<Semaphore>) -> (r: Option<OwnedSemaphorePermit>) {
    Arc::clone(pool).try_acquire_owned().ok()
}

/// A fixed-capacity pool of connection permits; each admitted connection holds one until
/// it is done.
pub struct AdmissionController {
    capacity: usize,
    pool: Arc<Semaphore>,
}

impl AdmissionController {
    pub closed spec fn spec_capacity(&self) -> nat {
        self.capacity as nat
    }

    /// A pool of `capacity` permits.
    pub fn new(capacity: usize) -> (r: Self)
        requires
            capacity <= usize::MAX / 8,
        ensures
            r.spec_capacity() == capacity,
    {
        AdmissionController { capacity, pool: permit_pool(capacity) }
    }

    pub fn capacity(&self) -> (r: usize)
        ensures
            r == self.spec_capacity(),
    {
        self.capacity
    }

    /// A permit if one is free now, without waiting.
    pub fn try_admit(&self) -> Option<OwnedSemaphorePermit> {
        try_take(&self.pool)
    }

    /// The shared pool, for waiting on a permit.
    pub fn pool(&self) -> Arc<Semaphore> {
        self.pool.clone()
    }
}

} // verus!
