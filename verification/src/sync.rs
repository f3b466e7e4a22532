//! The `parking_lot` primitives under the queue: its mutex, its condition
//! variable and its thread identity.
//!
//! Nothing in this file is proved. Each item states what is taken on trust
//! of the primitive it stands for, which is little: what the lock protects
//! changes whenever another thread holds the lock, so nothing is stated of
//! the state that comes back from a wait, beyond what its type guarantees.
use crate::coordinator::DelayQueueInner;
use crate::delayed::Delayed;
use crate::queue::DelayQueue;
use vstd::prelude::*;

verus! {

/// `parking_lot::RawMutex`, the lock inside `parking_lot::Mutex`. Opaque.
#[verifier::external_type_specification]
#[verifier::external_body]
pub struct ExRawMutex(parking_lot::RawMutex);

/// `lock_api::Mutex`, of which `parking_lot::Mutex` is an instance. Opaque:
/// what it protects is reached only through a held lock.
#[verifier::external_type_specification]
#[verifier::external_body]
#[verifier::reject_recursive_types(R)]
#[verifier::reject_recursive_types(V)]
pub struct ExMutex<R, V: ?Sized>(parking_lot::lock_api::Mutex<R, V>);

/// `parking_lot::Condvar`. Opaque.
#[verifier::external_type_specification]
#[verifier::external_body]
pub struct ExCondvar(parking_lot::Condvar);

/// `parking_lot::Condvar::new`: a condition variable that no thread waits on.
pub assume_specification[ parking_lot::Condvar::new ]() -> (fresh: parking_lot::Condvar);

/// `parking_lot::Condvar::notify_one`: wakes one thread that waits on the
/// condition variable, if there is one, and returns whether it woke one.
/// Which thread is woken is not specified, and nothing is stated of the
/// result.
pub assume_specification[ parking_lot::Condvar::notify_one ](
    condvar: &parking_lot::Condvar,
) -> (woken: bool);

/// The queue's lock, held: a `parking_lot::MutexGuard` on the coordinator
/// state, together with the condition variable that belongs to the same
/// queue. The lock is released when the value is dropped.
///
/// The guard's type is bounded by a trait of `lock_api`, so it is kept
/// inside this struct, which is opaque to the verifier.
#[verifier::external_body]
#[verifier::reject_recursive_types(T)]
pub(crate) struct Held<'a, T: Delayed> {
    guard: parking_lot::MutexGuard<'a, DelayQueueInner<T>>,
    available: &'a parking_lot::Condvar,
}

/// `parking_lot::Mutex::new`: a mutex, unlocked, that protects `state`.
/// Nothing is stated of the mutex: what it protects is seen only under the
/// lock.
#[verifier::external_body]
pub(crate) fn new_mutex<T: Delayed>(state: DelayQueueInner<T>) -> (mutex: parking_lot::Mutex<
    DelayQueueInner<T>,
>) {
    parking_lot::Mutex::new(state)
}

/// `parking_lot::Mutex::lock` on the mutex of `queue`: blocks until the lock
/// is free and takes it. The call does not return if the calling thread
/// holds the lock already; the queue takes the lock once per operation.
///
/// The guard is kept together with the condition variable of the same
/// handle, and a handle is only ever made with a mutex and a condition
/// variable of its own or as a clone of another. So the waits below never
/// use one condition variable with two mutexes, on which `parking_lot`
/// panics.
#[verifier::external_body]
pub(crate) fn lock<'a, T: Delayed>(queue: &'a DelayQueue<T>) -> (held: Held<'a, T>) {
    Held { guard: queue.queue.lock(), available: &queue.available }
}

/// `DerefMut::deref_mut` of the guard in `held`: the state that the lock
/// protects, for as long as the borrow lasts. Nothing is stated of it: it is
/// whatever the last holder of the lock left.
#[verifier::external_body]
pub(crate) fn state_of<'h, 'a, T: Delayed>(held: &'h mut Held<'a, T>) -> (state: &'h mut DelayQueueInner<
    T,
>) {
    &mut *held.guard
}

/// `parking_lot::Condvar::wait` on the condition variable and the guard in
/// `held`: releases the lock, blocks until the condition variable is
/// notified, and takes the lock again before it returns.
#[verifier::external_body]
pub(crate) fn wait<'a, T: Delayed>(held: &mut Held<'a, T>) {
    held.available.wait(&mut held.guard);
}

/// `parking_lot::Condvar::wait_for` on the condition variable and the guard
/// in `held`, with a timeout of `nanos` nanoseconds: as `wait`, but blocks
/// for roughly no longer than the timeout (and without a timeout where the
/// clock cannot represent the instant at which it would end). Whether the
/// wait timed out is not reported: the caller looks at the state again
/// either way.
#[verifier::external_body]
pub(crate) fn wait_for<'a, T: Delayed>(held: &mut Held<'a, T>, nanos: u64) {
    held.available.wait_for(&mut held.guard, std::time::Duration::from_nanos(nanos));
}

/// `parking_lot::RawThreadId::nonzero_thread_id`: a number that identifies
/// the calling thread among the threads that are alive. The contract claims
/// only that it is not zero.
#[verifier::external_body]
pub(crate) fn current_thread() -> (id: usize)
    ensures
        id != 0,
{
    parking_lot::lock_api::GetThreadId::nonzero_thread_id(&parking_lot::RawThreadId).get()
}

} // verus!
