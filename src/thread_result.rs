use vstd::prelude::*;

use parking_lot::{Condvar, Mutex};

use crate::error::Error;
use crate::sync::{condvar_new, mutex_new, slot_fill, slot_take_filled};

verus! {

/// A single-slot rendezvous: one thread `send`s a result, another `wait`s for it.
///
/// The slot sits behind a mutex; the waiter sleeps on the condition variable and re-checks
/// the slot under the lock after every wake-up, so a notification sent before the waiter
/// slept is never lost.
#[verifier::reject_recursive_types(T)]
pub struct ThreadResult<T> {
    signal: Condvar,
    slot: Mutex<Option<Result<T, Error>>>,
}

impl<T> ThreadResult<T> {
    /// An empty rendezvous.
    pub fn new() -> Self {
        ThreadResult { signal: condvar_new(), slot: mutex_new(None) }
    }

    /// Stores `res` in the slot and wakes the waiter.
    pub fn send(&self, res: Result<T, Error>) {
        slot_fill(&self.slot, &self.signal, res);
    }

    /// Blocks until a result has been sent, then takes it out of the slot.
    pub fn wait(&self) -> Result<T, Error> {
        let taken = slot_take_filled(&self.slot, &self.signal);
        taken.unwrap()
    }
}

} // verus!
