//! The lock and condition variable of the one-shot rendezvous, from `parking_lot`.
use vstd::prelude::*;

use parking_lot::lock_api;
use parking_lot::{Condvar, Mutex};

verus! {

/// parking_lot::Condvar, opaque: only carried in fields and handed to the wrappers below.
#[verifier::external_type_specification]
#[verifier::external_body]
pub struct ExCondvar(parking_lot::Condvar);

/// parking_lot::RawMutex, opaque: the lock type inside parking_lot::Mutex.
#[verifier::external_type_specification]
#[verifier::external_body]
pub struct ExRawMutex(parking_lot::RawMutex);

/// lock_api::Mutex (parking_lot::Mutex), opaque: only carried in fields and handed to the
/// wrappers below.
#[verifier::external_type_specification]
#[verifier::external_body]
#[verifier::reject_recursive_types(R)]
#[verifier::reject_recursive_types(T)]
pub struct ExMutex<R, T: ?Sized>(lock_api::Mutex<R, T>);

/// Relies on parking_lot::Condvar::new: a condition variable nobody waits on yet.
#[verifier::external_body]
pub(crate) fn condvar_new() -> Condvar {
    Condvar::new()
}

/// Relies on parking_lot::Mutex::new (lock_api::Mutex::new): an unlocked mutex holding `value`.
#[verifier::external_body]
pub(crate) fn mutex_new<T>(value: T) -> Mutex<T> {
    Mutex::new(value)
}

/// Relies on parking_lot::Mutex::lock and parking_lot::Condvar::notify_one: stores `value`
/// in the slot while holding the lock, then wakes one thread waiting on `signal`.
#[verifier::external_body]
pub(crate) fn slot_fill<T>(slot: &Mutex<Option<T>>, signal: &Condvar, value: T) {
    let mut guard = slot.lock();
    *guard = Some(value);
    let _ = signal.notify_one();
}

/// True while a rendezvous slot holds no value yet.
pub(crate) fn slot_is_empty<T>(slot: &mut Option<T>) -> (r: bool)
    ensures
        r == (*old(slot) is None),
        *final(slot) == *old(slot),
{
    slot.is_none()
}

/// Relies on parking_lot::Mutex::lock and parking_lot::Condvar::wait_while: takes the lock,
/// then sleeps on `signal` and re-checks `slot_is_empty` under the lock after each wake-up,
/// until the slot is filled; takes the value out while still holding the lock.
#[verifier::external_body]
pub(crate) fn slot_take_filled<T>(slot: &Mutex<Option<T>>, signal: &Condvar) -> (r: Option<T>)
    ensures
        r is Some,
{
    let mut guard = slot.lock();
    signal.wait_while(&mut guard, |s| slot_is_empty(s));
    guard.take()
}

} // verus!
