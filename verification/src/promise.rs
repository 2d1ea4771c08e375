//! A one-shot value that threads wait for.

use vstd::prelude::*;

use std::sync::{Arc, Condvar, Mutex, MutexGuard};

verus! {

/// `std::sync::Mutex`, whose contents Verus does not see.
#[verifier::external_type_specification]
#[verifier::external_body]
#[verifier::reject_recursive_types(T)]
pub struct ExMutex<T: ?Sized>(Mutex<T>);

/// `std::sync::MutexGuard`: a lock that is held, and the way to what it
/// guards.
#[verifier::external_type_specification]
#[verifier::external_body]
#[verifier::reject_recursive_types(T)]
pub struct ExMutexGuard<'a, T: ?Sized + 'a>(MutexGuard<'a, T>);

/// `std::sync::Condvar`.
#[verifier::external_type_specification]
#[verifier::external_body]
pub struct ExCondvar(Condvar);

/// A handle to a slot that is filled once and read many times.
///
/// All clones of a handle share one slot. What the slot holds lies behind a
/// lock, where Verus does not look: no contract here says what a wait
/// returns.
#[verifier::reject_recursive_types(T)]
pub struct Promise<T> {
    inner: Arc<(Mutex<Option<T>>, Condvar)>,
}

/// Whether nothing has been stored in `slot` yet.
fn is_vacant<T>(slot: &Option<T>) -> (vacant: bool)
    ensures
        vacant == (slot is None),
{
    slot.is_none()
}

/// `Mutex::new`: a lock around `value`, held by nobody. Nothing is claimed
/// of the result.
pub assume_specification<T>[ Mutex::<T>::new ](value: T) -> Mutex<T>;

/// `Condvar::new`: a condition variable on which nobody waits. Nothing is
/// claimed of the result.
pub assume_specification[ Condvar::new ]() -> Condvar;

/// `Arc::clone`: the result points to the same allocation, so Verus, which
/// sees through an `Arc`, takes the two for equal.
#[verifier::external_body]
pub(crate) fn share<T>(shared: &Arc<T>) -> (other: Arc<T>)
    ensures
        other == *shared,
{
    Arc::clone(shared)
}

impl<T> Promise<T> {
    /// An empty promise.
    pub fn new() -> Promise<T> {
        Promise { inner: Arc::new((Mutex::new(None), Condvar::new())) }
    }

    /// `Mutex::lock`: waits for the lock of the slot and takes it. A
    /// poisoned lock is taken all the same.
    #[verifier::external_body]
    fn lock(&self) -> MutexGuard<'_, Option<T>> {
        match self.inner.0.lock() {
            Ok(slot) => slot,
            Err(poisoned) => poisoned.into_inner(),
        }
    }

    /// `DerefMut::deref_mut` of the guard, and an assignment: stores `value`
    /// in the slot, in place of what it held.
    #[verifier::external_body]
    fn fill(slot: &mut MutexGuard<'_, Option<T>>, value: T) {
        **slot = Some(value);
    }

    /// `Condvar::notify_all`: wakes every thread that waits on the slot.
    #[verifier::external_body]
    fn wake_all(&self) {
        self.inner.1.notify_all();
    }

    /// Stores `value` under the lock and wakes every thread that waits for
    /// it.
    ///
    /// A promise is meant to be set once. What a later call does to those
    /// who wait is left open.
    pub fn set(&self, value: T) {
        let mut slot = self.lock();
        Promise::fill(&mut slot, value);
        self.wake_all();
    }
}

impl<T: Clone> Promise<T> {
    /// `Condvar::wait_while` and `Option::clone`: gives up the lock until
    /// the slot is filled, then copies what it holds.
    ///
    /// `wait_while` returns its guard once its condition is false, or once
    /// the lock is poisoned. A lock is poisoned by a panic under it, which
    /// here only the clone of a stored value or the drop of a replaced one
    /// can raise: both find the slot filled and leave it so. Either way the
    /// copy is not `None`, and no more is claimed of it. The call does not
    /// return while the slot stays empty.
    #[verifier::external_body]
    fn wait_filled(&self, slot: MutexGuard<'_, Option<T>>) -> (snapshot: Option<T>)
        ensures
            snapshot is Some,
    {
        let slot = match self.inner.1.wait_while(slot, |slot| is_vacant(slot)) {
            Ok(slot) => slot,
            Err(poisoned) => poisoned.into_inner(),
        };
        slot.clone()
    }

    /// Blocks until the promise is set, then returns a copy of its value.
    ///
    /// The slot keeps its value: every caller, on any thread, gets a copy of
    /// its own.
    pub fn wait_cloned(&self) -> T {
        let slot = self.lock();
        match self.wait_filled(slot) {
            Some(value) => value,
            None => unreached(),
        }
    }
}

impl<T> Clone for Promise<T> {
    /// Another handle to the same slot.
    fn clone(&self) -> (other: Promise<T>)
        ensures
            other == *self,
    {
        Promise { inner: share(&self.inner) }
    }
}

impl<T> Default for Promise<T> {
    fn default() -> Promise<T> {
        Promise::new()
    }
}

} // verus!
