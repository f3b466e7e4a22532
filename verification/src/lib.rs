//! A delay queue: a priority queue whose items can be taken only once their
//! own deadline has passed.
//!
//! Producers [`DelayQueue::put`] deadline-stamped items; consumers
//! [`DelayQueue::take`] the earliest one as soon as it is due. Many consumers
//! share one timed wait: a single leader sleeps for exactly the remaining delay
//! of the head, every other consumer waits to be told that something changed.
//!
//! The crate is layered:
//!
//! * [`order`]: the total order that an item type supplies, as a relation
//!   with its laws;
//! * [`store`]: a binary min-heap of shared item handles;
//! * [`coordinator`]: the state that the lock protects (store and leader
//!   slot) and its transitions, each with an exact contract;
//! * [`protocol`]: what holds of every run of those transitions;
//! * [`waiters`]: the consumers around the queue, and that none of them is
//!   left waiting while something is queued and nobody is on watch;
//! * [`queue`]: the clonable handle, on a `parking_lot` mutex and condition
//!   variable (module `sync`, which holds everything that is taken on trust),
//!   with its record of the transitions that it made.
pub mod delayed;
pub mod order;
pub mod protocol;
pub mod coordinator;
pub mod queue;
pub mod store;
pub mod waiters;
mod sync;

pub use delayed::Delayed;
pub use queue::DelayQueue;
