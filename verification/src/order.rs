//! The order of items, as the contracts speak of it.
//!
//! An item type orders its values through `Ord`. The relations below read
//! that order off the type's `partial_cmp_spec`. What the queue needs of the
//! order is stated by [`total_order`]: `<` on the type computes what is
//! specified, and the order is total. The queue never asks whether two items
//! are equal: an item type may tell apart two items that the order ties.
use std::cmp::Ordering;
use vstd::prelude::*;
use vstd::std_specs::cmp::PartialOrdSpec;

verus! {

/// `a` is ordered strictly before `b`.
pub open spec fn before<T: Ord>(a: T, b: T) -> bool {
    a.partial_cmp_spec(&b) == Some(Ordering::Less)
}

/// `a` and `b` take the same place in the order.
pub open spec fn tied<T: Ord>(a: T, b: T) -> bool {
    a.partial_cmp_spec(&b) == Some(Ordering::Equal)
}

/// `a` is ordered before `b` or takes the same place.
pub open spec fn no_later<T: Ord>(a: T, b: T) -> bool {
    before(a, b) || tied(a, b)
}

/// Of `a` and `b` exactly one is strictly before the other, or they are
/// tied, and a tie is one either way round.
pub open spec fn connected<T: Ord>(a: T, b: T) -> bool {
    &&& before(a, b) || tied(a, b) || before(b, a)
    &&& !(before(a, b) && before(b, a))
    &&& !(tied(a, b) && before(b, a))
    &&& tied(a, b) <==> tied(b, a)
}

/// Where `a` is no later than `b` and `b` no later than `c`, `a` is no later
/// than `c`, and strictly before it if either step is strict.
pub open spec fn chained<T: Ord>(a: T, b: T, c: T) -> bool {
    no_later(a, b) && no_later(b, c) ==> no_later(a, c) && (before(a, b) || before(b, c)
        ==> before(a, c))
}

/// The order of `T` is as the queue needs it: `<` on `T` computes what
/// `partial_cmp_spec` says, any two values are connected, and the order is
/// transitive.
pub open spec fn total_order<T: Ord>() -> bool {
    &&& T::obeys_partial_cmp_spec()
    &&& forall|a: T, b: T| #[trigger] connected(a, b)
    &&& forall|a: T, b: T, c: T| #[trigger] chained(a, b, c)
}

/// Every type that keeps vstd's laws for `Ord` has a total order in the
/// sense of [`total_order`].
pub proof fn lemma_lawful_ord<T: Ord>()
    requires
        vstd::laws_cmp::obeys_cmp::<T>(),
    ensures
        total_order::<T>(),
{
    reveal(vstd::laws_cmp::obeys_partial_cmp_spec_properties);
    reveal(vstd::laws_cmp::obeys_cmp_partial_ord);
    reveal(vstd::laws_cmp::obeys_cmp_ord);
    reveal(vstd::laws_eq::obeys_eq_spec_properties);
    assert forall|a: T, b: T| #[trigger] connected(a, b) by {}
    assert forall|a: T, b: T, c: T| #[trigger] chained(a, b, c) by {
        assert(connected(a, b));
        assert(connected(b, c));
        assert(connected(a, c));
    }
}

/// Every value is tied with itself.
pub proof fn lemma_reflexive<T: Ord>(a: &T)
    requires
        total_order::<T>(),
    ensures
        tied(*a, *a),
        no_later(*a, *a),
        !before(*a, *a),
{
    assert(connected(*a, *a));
}

/// Of two values exactly one holds: the first is strictly before the second,
/// they are tied, or the second is strictly before the first.
pub proof fn lemma_trichotomy<T: Ord>(a: &T, b: &T)
    requires
        total_order::<T>(),
    ensures
        before(*a, *b) || tied(*a, *b) || before(*b, *a),
        !(before(*a, *b) && tied(*a, *b)),
        !(before(*a, *b) && before(*b, *a)),
        !(tied(*a, *b) && before(*b, *a)),
        tied(*a, *b) <==> tied(*b, *a),
        no_later(*a, *b) <==> !before(*b, *a),
        tied(*a, *b) <==> no_later(*a, *b) && no_later(*b, *a),
{
    assert(connected(*a, *b));
    assert(connected(*b, *a));
}

/// The order is transitive, and a strict step anywhere makes the whole strict.
pub proof fn lemma_transitive<T: Ord>(a: &T, b: &T, c: &T)
    requires
        total_order::<T>(),
        no_later(*a, *b),
        no_later(*b, *c),
    ensures
        no_later(*a, *c),
        before(*a, *b) || before(*b, *c) ==> before(*a, *c),
{
    assert(chained(*a, *b, *c));
}

/// Whether `a` is ordered strictly before `b`.
pub fn is_before<T: Ord>(a: &T, b: &T) -> (r: bool)
    ensures
        total_order::<T>() ==> r == before(*a, *b),
{
    *a < *b
}

} // verus!
