use vstd::prelude::*;

verus! {

/// What the queue asks of an item: a total order by deadline (`Ord`), and the
/// time that is left until the item is due.
///
/// The order and the reported delay must agree: of two items, the one ordered
/// earlier never reports the larger remaining delay. The queue cannot detect
/// a type that breaks this; its items are then delivered late, never early.
pub trait Delayed: Ord {
    /// Time left until the item is due, in nanoseconds. Zero or a negative
    /// value means that the item is due.
    fn delayed(&self) -> i64;
}

/// `left` is an answer of `item.delayed()`: a value that a call of it can
/// return, as far as the contract of `delayed` for the item's type says. What
/// an item answers changes with the clock, so the contract of an item type
/// will as a rule say little of it, and nothing at all where the type is
/// written outside verified code: every value is then an answer. The queue
/// uses the relation to say whose answer a delay that it observed is.
pub open spec fn reported<T: Delayed>(item: T, left: i64) -> bool {
    call_ensures(T::delayed, (&item,), left)
}

} // verus!
