//! The ordered store: a binary min-heap of shared item handles.
//!
//! The heap lives in a `Vec`, the children of slot `i` in slots `2i + 1` and
//! `2i + 2`, so `peek` is one read and `push` and `pop` walk one branch. The
//! contracts speak of the store as the multiset of the handles it holds and
//! of its head, the handle in the root slot, which for a total item order is
//! an earliest one. Handles that are tied come out in no particular order.
//!
//! The heap property is a type invariant, so it holds of every store that
//! running code can reach, also of one that comes out of a lock.
//!
//! `push` and `pop` work in two steps. The first compares and moves nothing:
//! it walks the branch and finds the slot in which the handle that is on its
//! way comes to rest. The second moves the handles of that branch by one
//! slot each and compares nothing. The comparison is code of the item type;
//! should it panic, the store is as it was before the call.
use crate::delayed::Delayed;
use crate::order::{
    before, is_before, lemma_reflexive, lemma_transitive, lemma_trichotomy, no_later, total_order,
};
use std::sync::Arc;
use vstd::multiset::Multiset;
use vstd::prelude::*;

verus! {

/// `x` is among `items` and none of them is ordered strictly before it.
pub open spec fn earliest_in<T: Delayed>(items: Multiset<Arc<T>>, x: Arc<T>) -> bool {
    &&& items.contains(x)
    &&& forall|y: Arc<T>| #[trigger] items.contains(y) ==> no_later(*x, *y)
}

/// The slot above slot `i`.
spec fn parent(i: int) -> int {
    (i - 1) / 2
}

/// The handle in slot `i` is no earlier than the one in the slot above.
spec fn ordered_at<T: Delayed>(s: Seq<Arc<T>>, i: int) -> bool {
    no_later(*s[parent(i)], *s[i])
}

/// Every slot but the root is ordered against the slot above it.
spec fn is_heap<T: Delayed>(s: Seq<Arc<T>>) -> bool {
    forall|i: int| 0 < i < s.len() ==> #[trigger] ordered_at(s, i)
}

/// A heap but for slot `hole`, whose handle may be earlier than the one
/// above it; the slots below `hole` are ordered against the slot above it.
spec fn is_heap_above<T: Delayed>(s: Seq<Arc<T>>, hole: int) -> bool {
    &&& forall|i: int| 0 < i < s.len() && i != hole ==> #[trigger] ordered_at(s, i)
    &&& forall|i: int|
        0 < hole && 0 < i < s.len() && #[trigger] parent(i) == hole ==> no_later(
            *s[parent(hole)],
            *s[i],
        )
}

/// `s` with the handles in slots `i` and `j` exchanged.
spec fn exchanged<T>(s: Seq<Arc<T>>, i: int, j: int) -> Seq<Arc<T>> {
    s.update(i, s[j]).update(j, s[i])
}

proof fn lemma_exchanged_keeps_items<T>(s: Seq<Arc<T>>, i: int, j: int)
    requires
        0 <= i < s.len(),
        0 <= j < s.len(),
    ensures
        exchanged(s, i, j).to_multiset() == s.to_multiset(),
{
    vstd::seq_lib::to_multiset_update(s, i, s[j]);
    vstd::seq_lib::to_multiset_update(s.update(i, s[j]), j, s[i]);
    s.to_multiset_ensures();
    assert(s.contains(s[i]));
    assert(s.contains(s[j]));
    assert(exchanged(s, i, j).to_multiset() =~= s.to_multiset());
}

/// In a heap whose slots up to `i` are ordered, the root is no later than
/// slot `i`.
proof fn lemma_root_first<T: Delayed>(s: Seq<Arc<T>>, i: int)
    requires
        total_order::<T>(),
        0 <= i < s.len(),
        forall|k: int| 0 < k <= i ==> #[trigger] ordered_at(s, k),
    ensures
        no_later(*s[0], *s[i]),
    decreases i,
{
    if i == 0 {
        lemma_reflexive(&*s[0]);
    } else {
        lemma_root_first(s, parent(i));
        assert(ordered_at(s, i));
        lemma_transitive(&*s[0], &*s[parent(i)], &*s[i]);
    }
}

/// The root of a heap is an earliest of its handles.
proof fn lemma_root_earliest<T: Delayed>(s: Seq<Arc<T>>)
    requires
        total_order::<T>(),
        is_heap(s),
        s.len() > 0,
    ensures
        earliest_in(s.to_multiset(), s[0]),
{
    s.to_multiset_ensures();
    assert(s.contains(s[0]));
    assert forall|y: Arc<T>| #[trigger] s.to_multiset().contains(y) implies no_later(
        *s[0],
        *y,
    ) by {
        assert(s.contains(y));
        let j = choose|j: int| 0 <= j < s.len() && s[j] == y;
        lemma_root_first(s, j);
    }
}

/// One step of the way up: where the handle in slot `p` is strictly before
/// the one above it, exchanging the two moves the disorder one slot up.
proof fn lemma_rise_keeps_heap<T: Delayed>(prev: Seq<Arc<T>>, p: int)
    requires
        total_order::<T>(),
        0 < p < prev.len(),
        is_heap_above(prev, p),
        before(*prev[p], *prev[parent(p)]),
    ensures
        is_heap_above(exchanged(prev, p, parent(p)), parent(p)),
{
    let a = parent(p);
    let s = exchanged(prev, p, a);
    assert forall|i: int| 0 < i < s.len() && i != a implies #[trigger] ordered_at(s, i) by {
        if i == p {
        } else if parent(i) == p {
            assert(no_later(*prev[parent(p)], *prev[i]));
        } else if parent(i) == a {
            assert(ordered_at(prev, i));
            lemma_transitive(&*prev[p], &*prev[a], &*prev[i]);
        } else {
            assert(ordered_at(prev, i));
        }
    }
    assert forall|i: int| 0 < a && 0 < i < s.len() && #[trigger] parent(i) == a implies no_later(
        *s[parent(a)],
        *s[i],
    ) by {
        assert(ordered_at(prev, a));
        if i != p {
            assert(ordered_at(prev, i));
            lemma_transitive(&*prev[parent(a)], &*prev[a], &*prev[i]);
        }
    }
}

/// Slot `a` lies on the way from slot `d` up to the root: it is `d` or one
/// of the slots above it.
spec fn climbs(a: int, d: int) -> bool
    decreases d,
{
    a == d || (d > 0 && climbs(a, parent(d)))
}

proof fn lemma_climbs_le(a: int, d: int)
    requires
        climbs(a, d),
        d >= 0,
    ensures
        0 <= a <= d,
    decreases d,
{
    if a != d {
        lemma_climbs_le(a, parent(d));
    }
}

/// The slot above a slot on the way is on the way.
proof fn lemma_climbs_up(a: int, d: int)
    requires
        climbs(a, d),
        a > 0,
        d >= 0,
    ensures
        climbs(parent(a), d),
    decreases d,
{
    if a == d {
        assert(climbs(parent(d), parent(d)));
    } else {
        lemma_climbs_up(a, parent(d));
    }
}

/// The root is on every way.
proof fn lemma_climbs_root(d: int)
    requires
        d >= 0,
    ensures
        climbs(0, d),
    decreases d,
{
    if d > 0 {
        lemma_climbs_root(parent(d));
    }
}

/// Of two slots on one way the higher is on the way from the slot above the
/// lower.
proof fn lemma_climbs_between(a: int, pos: int, d: int)
    requires
        climbs(pos, d),
        climbs(a, d),
        a < pos,
        d >= 0,
    ensures
        climbs(a, parent(pos)),
        a <= parent(pos),
    decreases d,
{
    if pos == d {
        assert(climbs(a, parent(d)));
    } else {
        lemma_climbs_le(pos, parent(d));
        lemma_climbs_between(a, pos, parent(d));
    }
    lemma_climbs_le(a, d);
    lemma_climbs_le(a, parent(pos));
}

/// `item` comes to rest in slot `rest` of `s` with one more slot: it is
/// strictly before every handle on the way from the new slot up to `rest`,
/// which all move down by one, and no earlier than the handle above `rest`.
spec fn rises_to<T: Delayed>(s: Seq<Arc<T>>, item: T, rest: int) -> bool {
    &&& forall|a: int| #[trigger] climbs(a, s.len() as int) && rest <= a < s.len() ==> before(item, *s[a])
    &&& rest > 0 ==> no_later(*s[parent(rest)], item)
}

/// The handle in slot `c` is strictly before the last handle of `s`, and no
/// later than the handle beside it under the same slot, among the first `m`.
spec fn moves_up<T: Delayed>(s: Seq<Arc<T>>, m: int, c: int) -> bool {
    &&& before(*s[c], *s.last())
    &&& forall|x: int| 0 < x < m && #[trigger] parent(x) == parent(c) ==> no_later(*s[c], *s[x])
}

/// The last handle of `s` comes to rest in slot `rest` once the root is
/// gone: every handle on the way from `rest` up to the root moves up by one,
/// and the last handle is no later than the handles under `rest`.
spec fn sinks_to<T: Delayed>(s: Seq<Arc<T>>, rest: int) -> bool {
    &&& forall|c: int| #[trigger] climbs(c, rest) && c > 0 ==> moves_up(s, s.len() - 1, c)
    &&& forall|x: int|
        0 < x < s.len() - 1 && #[trigger] parent(x) == rest ==> no_later(*s.last(), *s[x])
}

/// Every slot but the root and `hole` is ordered against the slot above it.
spec fn ordered_but<T: Delayed>(s: Seq<Arc<T>>, hole: int) -> bool {
    forall|i: int| 0 < i < s.len() && i != hole ==> #[trigger] ordered_at(s, i)
}

/// The handle `carry`, once it is in the slot above `hole`, is no later than
/// the handles under that slot.
spec fn fits_above<T: Delayed>(s: Seq<Arc<T>>, carry: Arc<T>, hole: int) -> bool {
    forall|x: int| 0 < x < s.len() && #[trigger] parent(x) == parent(hole) ==> no_later(*carry, *s[x])
}

/// Finds the slot in which `item` comes to rest when it is added to `v`.
/// Compares, and moves nothing.
fn rise_slot<T: Delayed>(v: &Vec<Arc<T>>, item: &T) -> (rest: usize)
    ensures
        rest <= v@.len(),
        climbs(rest as int, v@.len() as int),
        total_order::<T>() ==> rises_to(v@, *item, rest as int),
{
    let n = v.len();
    let mut pos: usize = n;
    while pos > 0
        invariant
            n == v@.len(),
            pos <= n,
            climbs(pos as int, n as int),
            total_order::<T>() ==> forall|a: int| #[trigger]
                climbs(a, n as int) && pos <= a < n ==> before(*item, *v@[a]),
        ensures
            pos <= n,
            climbs(pos as int, n as int),
            total_order::<T>() ==> rises_to(v@, *item, pos as int),
        decreases pos,
    {
        let above: usize = (pos - 1) / 2;
        if !is_before(item, &*v[above]) {
            proof {
                if total_order::<T>() {
                    lemma_trichotomy(item, &*v@[above as int]);
                }
            }
            break ;
        }
        proof {
            lemma_climbs_up(pos as int, n as int);
            if total_order::<T>() {
                assert forall|a: int| #[trigger] climbs(a, n as int) && above <= a < n implies before(
                    *item,
                    *v@[a],
                ) by {
                    if a < pos {
                        lemma_climbs_between(a, pos as int, n as int);
                    }
                }
            }
        }
        pos = above;
    }
    pos
}

/// Adds `item` in slot `rest` and moves the handles on the way from `rest`
/// down to the new slot by one slot each. Moves, and compares nothing.
fn place<T: Delayed>(v: &mut Vec<Arc<T>>, item: Arc<T>, rest: usize)
    requires
        rest <= old(v)@.len(),
        climbs(rest as int, old(v)@.len() as int),
        total_order::<T>() ==> is_heap(old(v)@) && rises_to(old(v)@, *item, rest as int),
    ensures
        final(v)@.len() == old(v)@.len() + 1,
        final(v)@.to_multiset() == old(v)@.to_multiset().insert(item),
        final(v)@[0] == (if rest == 0 {
            item
        } else {
            old(v)@[0]
        }),
        total_order::<T>() ==> is_heap(final(v)@),
{
    let n = v.len();
    v.push(Arc::clone(&item));
    let ghost mut cur = v@;
    proof {
        old(v)@.to_multiset_ensures();
        if total_order::<T>() {
            assert forall|i: int| 0 < i < cur.len() && i != n implies #[trigger] ordered_at(
                cur,
                i,
            ) by {
                assert(ordered_at(old(v)@, i));
            }
        }
    }
    let mut pos: usize = n;
    while pos > rest
        invariant
            n == old(v)@.len(),
            v@.len() == n + 1,
            cur.len() == n + 1,
            rest <= pos <= n,
            climbs(rest as int, pos as int),
            climbs(pos as int, n as int),
            forall|i: int| 0 <= i <= n && i != pos ==> v@[i] == cur[i],
            cur[pos as int] == item,
            forall|i: int| 0 <= i < pos ==> cur[i] == old(v)@[i],
            cur.to_multiset() == old(v)@.to_multiset().insert(item),
            total_order::<T>() ==> is_heap_above(cur, pos as int),
            total_order::<T>() ==> rises_to(old(v)@, *item, rest as int),
        decreases pos,
    {
        let above: usize = (pos - 1) / 2;
        proof {
            lemma_climbs_up(pos as int, n as int);
            lemma_climbs_le(rest as int, above as int);
            if total_order::<T>() {
                assert(climbs(above as int, n as int));
                assert(before(*item, *old(v)@[above as int]));
                lemma_rise_keeps_heap(cur, pos as int);
            }
            lemma_exchanged_keeps_items(cur, pos as int, above as int);
            cur = exchanged(cur, pos as int, above as int);
        }
        let moved = Arc::clone(&v[above]);
        v.set(pos, moved);
        pos = above;
    }
    v.set(rest, item);
    proof {
        assert(v@ =~= cur);
        if total_order::<T>() {
            if rest > 0 {
                assert(ordered_at(cur, rest as int));
            }
            assert forall|i: int| 0 < i < cur.len() implies #[trigger] ordered_at(cur, i) by {}
        }
    }
}

/// Finds the slot in which the last handle of `v` comes to rest when the
/// root is taken out. Compares, and moves nothing.
fn sink_slot<T: Delayed>(v: &Vec<Arc<T>>) -> (rest: usize)
    requires
        v@.len() > 0,
    ensures
        rest < v@.len(),
        v@.len() > 1 ==> rest < v@.len() - 1,
        total_order::<T>() ==> sinks_to(v@, rest as int),
{
    let m = v.len() - 1;
    let mut pos: usize = 0;
    while pos < m / 2
        invariant
            m == v@.len() - 1,
            pos < m || (m == 0 && pos == 0),
            total_order::<T>() ==> forall|c: int| #[trigger]
                climbs(c, pos as int) && c > 0 ==> moves_up(v@, m as int, c),
        ensures
            pos < m || (m == 0 && pos == 0),
            total_order::<T>() ==> sinks_to(v@, pos as int),
        decreases m - pos,
    {
        let left: usize = 2 * pos + 1;
        let right: usize = left + 1;
        let mut child: usize = left;
        if right < m {
            if is_before(&*v[right], &*v[left]) {
                child = right;
            }
        }
        let sinks = is_before(&*v[child], &*v[m]);
        proof {
            if total_order::<T>() {
                let s = v@;
                lemma_reflexive(&*s[child as int]);
                if right < m {
                    lemma_trichotomy(&*s[right as int], &*s[left as int]);
                }
                assert forall|x: int| 0 < x < m && #[trigger] parent(x) == pos implies no_later(
                    *s[child as int],
                    *s[x],
                ) by {
                    assert(x == left || x == right);
                }
                if !sinks {
                    lemma_trichotomy(&*s[child as int], &*s.last());
                    assert forall|x: int| 0 < x < m && #[trigger] parent(x) == pos implies no_later(
                        *s.last(),
                        *s[x],
                    ) by {
                        lemma_transitive(&*s.last(), &*s[child as int], &*s[x]);
                    }
                } else {
                    assert(moves_up(s, m as int, child as int));
                    assert forall|c: int| #[trigger] climbs(c, child as int) && c > 0 implies moves_up(
                        s,
                        m as int,
                        c,
                    ) by {
                        if c != child {
                            assert(climbs(c, pos as int));
                        }
                    }
                }
            }
        }
        if !sinks {
            break ;
        }
        pos = child;
    }
    pos
}

/// Takes the root out of `v`, moves the handles on the way from `rest` up to
/// the root by one slot each, and puts the last handle in slot `rest`.
/// Moves, and compares nothing.
fn lift<T: Delayed>(v: &mut Vec<Arc<T>>, rest: usize) -> (first: Arc<T>)
    requires
        old(v)@.len() > 0,
        rest < old(v)@.len(),
        old(v)@.len() > 1 ==> rest < old(v)@.len() - 1,
        total_order::<T>() ==> is_heap(old(v)@) && sinks_to(old(v)@, rest as int),
    ensures
        first == old(v)@[0],
        final(v)@.len() == old(v)@.len() - 1,
        final(v)@.to_multiset() == old(v)@.to_multiset().remove(first),
        total_order::<T>() ==> is_heap(final(v)@),
{
    let ghost s = v@;
    let mut carry = v.pop().unwrap();
    let m = v.len();
    proof {
        s.to_multiset_ensures();
        v@.to_multiset_ensures();
        assert(s =~= v@.push(carry));
        assert(s.contains(s[0]));
    }
    if m == 0 {
        proof {
            assert(v@.to_multiset() =~= s.to_multiset().remove(carry));
        }
        return carry;
    }
    let ghost short = v@;
    let mut pos: usize = rest;
    v.set_and_swap(pos, &mut carry);
    proof {
        vstd::seq_lib::to_multiset_update(short, rest as int, s.last());
        assert(short.contains(short[rest as int]));
        assert(v@.to_multiset().insert(carry) =~= s.to_multiset());
        if total_order::<T>() {
            assert(climbs(rest as int, rest as int));
            assert forall|i: int| 0 < i < v@.len() && i != rest implies #[trigger] ordered_at(
                v@,
                i,
            ) by {
                if parent(i) != rest {
                    assert(ordered_at(s, i));
                }
            }
            if rest > 0 {
                assert(moves_up(s, m as int, rest as int));
                assert forall|x: int| 0 < x < v@.len() && #[trigger] parent(x) == parent(
                    rest as int,
                ) implies no_later(*carry, *v@[x]) by {}
            }
        }
    }
    while pos > 0
        invariant
            s == old(v)@,
            m == s.len() - 1,
            m == v@.len(),
            pos < m,
            pos <= rest,
            climbs(pos as int, rest as int),
            carry == s[pos as int],
            forall|i: int| 0 <= i < pos ==> v@[i] == s[i],
            v@.to_multiset().insert(carry) == s.to_multiset(),
            total_order::<T>() ==> is_heap(s) && sinks_to(s, rest as int),
            total_order::<T>() ==> ordered_but(v@, pos as int),
            total_order::<T>() ==> fits_above(v@, carry, pos as int),
        decreases pos,
    {
        let ghost below = pos as int;
        let ghost prev = v@;
        let ghost moving = carry;
        pos = (pos - 1) / 2;
        v.set_and_swap(pos, &mut carry);
        proof {
            lemma_climbs_up(below, rest as int);
            lemma_climbs_le(pos as int, rest as int);
            vstd::seq_lib::to_multiset_update(prev, pos as int, moving);
            prev.to_multiset_ensures();
            assert(prev.contains(prev[pos as int]));
            assert(v@.to_multiset().insert(carry) =~= s.to_multiset());
            if total_order::<T>() {
                assert forall|i: int| 0 < i < v@.len() && i != pos implies #[trigger] ordered_at(
                    v@,
                    i,
                ) by {
                    if parent(i) == pos {
                    } else {
                        assert(ordered_at(prev, i));
                    }
                }
                if pos > 0 {
                    assert(moves_up(s, m as int, pos as int));
                    assert(ordered_at(s, below));
                    assert forall|x: int| 0 < x < v@.len() && #[trigger] parent(x) == parent(
                        pos as int,
                    ) implies no_later(*carry, *v@[x]) by {
                        if x != pos {
                            assert(x < below);
                            assert(v@[x] == s[x]);
                        }
                    }
                }
            }
        }
    }
    proof {
        assert(v@.to_multiset() =~= s.to_multiset().remove(carry));
        if total_order::<T>() {
            assert forall|i: int| 0 < i < v@.len() implies #[trigger] ordered_at(v@, i) by {}
        }
    }
    carry
}

/// The ordered store: shared item handles, the earliest always at the head.
pub struct Store<T: Delayed> {
    items: Vec<Arc<T>>,
}

impl<T: Delayed> Store<T> {
    /// The store is a heap: for a total item order, no slot holds a handle
    /// earlier than the slot above it.
    #[verifier::type_invariant]
    pub closed spec fn wf(&self) -> bool {
        total_order::<T>() ==> is_heap(self.items@)
    }

    /// The handles in the store.
    pub closed spec fn view(&self) -> Multiset<Arc<T>> {
        self.items@.to_multiset()
    }

    /// The handle that `peek` shows and `pop` removes. It is one of the
    /// store's handles while the store is not empty.
    pub closed spec fn head(&self) -> Arc<T> {
        self.items@[0]
    }

    /// The head is among the handles, and for a total item order it is an
    /// earliest one.
    pub proof fn lemma_head(self)
        requires
            self.wf(),
            self@.len() > 0,
        ensures
            self@.contains(self.head()),
            total_order::<T>() ==> earliest_in(self@, self.head()),
    {
        let s = self.items@;
        s.to_multiset_ensures();
        assert(s.contains(s[0]));
        if total_order::<T>() {
            lemma_root_earliest(s);
        }
    }

    /// An empty store.
    pub fn new() -> (store: Self)
        ensures
            store@ == Multiset::<Arc<T>>::empty(),
            store.wf(),
    {
        let store = Store { items: Vec::new() };
        proof {
            store.items@.to_multiset_ensures();
            assert(store.items@.to_multiset() =~= Multiset::<Arc<T>>::empty());
        }
        store
    }

    /// The number of handles in the store.
    pub fn len(&self) -> (n: usize)
        ensures
            n == self@.len(),
    {
        proof {
            self.items@.to_multiset_ensures();
        }
        self.items.len()
    }

    /// Whether the store holds no handle.
    pub fn is_empty(&self) -> (empty: bool)
        ensures
            empty <==> self@.len() == 0,
    {
        proof {
            self.items@.to_multiset_ensures();
        }
        self.items.len() == 0
    }

    /// The head, left in place; nothing if the store is empty.
    pub fn peek(&self) -> (first: Option<&Arc<T>>)
        ensures
            first is None <==> self@.len() == 0,
            first matches Some(h) ==> *h == self.head() && self@.contains(*h),
            first matches Some(h) ==> (total_order::<T>() ==> earliest_in(self@, *h)),
    {
        proof {
            use_type_invariant(self);
            self.items@.to_multiset_ensures();
            if self.items@.len() > 0 {
                self.lemma_head();
            }
        }
        if self.items.len() == 0 {
            None
        } else {
            Some(&self.items[0])
        }
    }

    /// Adds a handle. The multiset of handles grows by exactly this one; for
    /// a total item order it becomes the head where the store was empty or
    /// its head strictly later, and the head stays the head otherwise.
    pub fn push(&mut self, item: Arc<T>)
        ensures
            final(self)@ == old(self)@.insert(item),
            final(self)@.len() == old(self)@.len() + 1,
            final(self).wf(),
            total_order::<T>() ==> final(self).head() == (if old(self)@.len() == 0 || before(
                *item,
                *old(self).head(),
            ) {
                item
            } else {
                old(self).head()
            }),
    {
        proof {
            use_type_invariant(&*self);
            self.items@.to_multiset_ensures();
        }
        let rest = rise_slot(&self.items, &*item);
        proof {
            if total_order::<T>() {
                let s = self.items@;
                if rest == 0 {
                    if s.len() > 0 {
                        lemma_climbs_root(s.len() as int);
                    }
                } else {
                    assert forall|k: int| 0 < k <= parent(rest as int) implies #[trigger] ordered_at(
                        s,
                        k,
                    ) by {}
                    lemma_root_first(s, parent(rest as int));
                    lemma_transitive(&*s[0], &*s[parent(rest as int)], &*item);
                    lemma_trichotomy(&*item, &*s[0]);
                }
            }
        }
        let mut items: Vec<Arc<T>> = Vec::new();
        std::mem::swap(&mut items, &mut self.items);
        place(&mut items, item, rest);
        self.items = items;
    }

    /// Removes the head and returns it. The multiset of handles shrinks by
    /// exactly this one.
    pub fn pop(&mut self) -> (first: Arc<T>)
        requires
            old(self)@.len() > 0,
        ensures
            first == old(self).head(),
            old(self)@.contains(first),
            final(self)@ == old(self)@.remove(first),
            final(self)@.len() == old(self)@.len() - 1,
            final(self).wf(),
    {
        proof {
            use_type_invariant(&*self);
            self.items@.to_multiset_ensures();
            assert(self.items@.contains(self.items@[0]));
        }
        let rest = sink_slot(&self.items);
        let mut items: Vec<Arc<T>> = Vec::new();
        std::mem::swap(&mut items, &mut self.items);
        let first = lift(&mut items, rest);
        proof {
            items@.to_multiset_ensures();
        }
        self.items = items;
        first
    }
}

} // verus!
