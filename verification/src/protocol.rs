//! Runs of the queue, and what holds of every run.
//!
//! Every change to a queue is one transition of its coordinator state, made
//! while the lock is held: a producer's `offer`, a consumer's `look`, a
//! leader's `retire`. However many threads share the queue, what happens to
//! it is therefore one sequence of such events. The laws below hold of every
//! such sequence, whichever threads the events came from and in whatever
//! order: no item leaves unless the delay observed for it was zero or
//! less, items leave in the order of their deadlines, every item that was put
//! is handed out at most once and is otherwise still queued, and at most one
//! consumer at a time is leader.
//!
//! The laws say nothing of time. That a due item is taken within a bounded
//! time of its deadline rests on the clock and on the scheduler, which are
//! not modelled; what is proved towards it is that a look that finds the
//! head due hands it out, and that the leader slot is never taken by a
//! consumer that is not about to wake.
use crate::coordinator::{DelayQueueInner, Step};
use crate::delayed::{reported, Delayed};
use crate::order::{before, lemma_transitive, lemma_trichotomy, no_later, total_order};
use crate::store::earliest_in;
use std::sync::Arc;
use vstd::multiset::Multiset;
use vstd::prelude::*;

verus! {

/// One transition of the coordinator state.
pub enum Event<T> {
    /// A producer queued `item` and was told `wake`.
    Put { item: Arc<T>, wake: bool },
    /// The consumer `me` looked at the state, observed the remaining delay
    /// `observed` of the head and was told `out`.
    Poll { me: usize, observed: Option<i64>, out: Step<T> },
    /// The consumer `me` woke from a timed wait and retired.
    Retire { me: usize },
    /// The consumer `me` gave up without an item and was told `wake`.
    Leave { me: usize, wake: bool },
}

/// `event` leads from the state `pre` to the state `post`.
pub open spec fn follows<T: Delayed>(
    pre: DelayQueueInner<T>,
    event: Event<T>,
    post: DelayQueueInner<T>,
) -> bool {
    match event {
        Event::Put { item, wake } => DelayQueueInner::offered(pre, item, post, wake),
        Event::Poll { me, observed, out } => pre.observes(observed) && DelayQueueInner::polled(
            pre,
            observed,
            me,
            post,
            out,
        ),
        Event::Retire { me } => DelayQueueInner::retired(pre, me, post),
        Event::Leave { me, wake } => post == pre && post.wf() && DelayQueueInner::left(pre, wake),
    }
}

/// The `i`-th event leads from the `i`-th state to the next.
pub open spec fn follows_at<T: Delayed>(
    states: Seq<DelayQueueInner<T>>,
    events: Seq<Event<T>>,
    i: int,
) -> bool {
    follows(states[i], events[i], states[i + 1])
}

/// A run of a queue: `states` begins with the state of a new queue, and each
/// of `events` leads from one state to the next.
pub open spec fn is_run<T: Delayed>(
    states: Seq<DelayQueueInner<T>>,
    events: Seq<Event<T>>,
) -> bool {
    &&& states.len() == events.len() + 1
    &&& states[0].wf()
    &&& states[0].items() == Multiset::<Arc<T>>::empty()
    &&& states[0].spec_leader() is None
    &&& forall|i: int| 0 <= i < events.len() ==> #[trigger] follows_at(states, events, i)
}

/// The handles that the producers queued in the course of `events`.
pub open spec fn put_in<T>(events: Seq<Event<T>>) -> Multiset<Arc<T>>
    decreases events.len(),
{
    if events.len() == 0 {
        Multiset::empty()
    } else {
        let earlier = put_in(events.drop_last());
        match events.last() {
            Event::Put { item, .. } => earlier.insert(item),
            _ => earlier,
        }
    }
}

/// The handles that the consumers were handed in the course of `events`.
pub open spec fn delivered<T>(events: Seq<Event<T>>) -> Multiset<Arc<T>>
    decreases events.len(),
{
    if events.len() == 0 {
        Multiset::empty()
    } else {
        let earlier = delivered(events.drop_last());
        match events.last() {
            Event::Poll { out: Step::Deliver { item, .. }, .. } => earlier.insert(item),
            _ => earlier,
        }
    }
}

/// The consumer `who` is in the leader designation after `events`: the last
/// thing it did was a look at the state that made it leader.
pub open spec fn leads<T>(events: Seq<Event<T>>, who: usize) -> bool
    decreases events.len(),
{
    if events.len() == 0 {
        false
    } else {
        match events.last() {
            Event::Poll { me, out, .. } => if me == who {
                out is Lead
            } else {
                leads(events.drop_last(), who)
            },
            Event::Retire { me } => me != who && leads(events.drop_last(), who),
            Event::Leave { me, .. } => me != who && leads(events.drop_last(), who),
            Event::Put { .. } => leads(events.drop_last(), who),
        }
    }
}

/// All of a run but its last event is a run.
proof fn lemma_shorter_run<T: Delayed>(states: Seq<DelayQueueInner<T>>, events: Seq<Event<T>>)
    requires
        is_run(states, events),
        events.len() > 0,
    ensures
        is_run(states.drop_last(), events.drop_last()),
        follows(states[events.len() - 1], events.last(), states.last()),
        states.drop_last().last() == states[events.len() - 1],
{
    let shorter_states = states.drop_last();
    let shorter_events = events.drop_last();
    assert forall|i: int| 0 <= i < shorter_events.len() implies #[trigger] follows_at(
        shorter_states,
        shorter_events,
        i,
    ) by {
        assert(follows_at(states, events, i));
    }
    assert(follows_at(states, events, events.len() - 1));
}

/// The first `k` events of a run are a run, which ends in the `k`-th state.
/// So what holds at the end of every run holds at every point of every run.
pub proof fn lemma_prefix_run<T: Delayed>(
    states: Seq<DelayQueueInner<T>>,
    events: Seq<Event<T>>,
    k: int,
)
    requires
        is_run(states, events),
        0 <= k <= events.len(),
    ensures
        is_run(states.take(k + 1), events.take(k)),
        states.take(k + 1).last() == states[k],
{
    let first_states = states.take(k + 1);
    let first_events = events.take(k);
    assert forall|i: int| 0 <= i < first_events.len() implies #[trigger] follows_at(
        first_states,
        first_events,
        i,
    ) by {
        assert(follows_at(states, events, i));
    }
}

/// Every state of a run is well formed.
pub proof fn lemma_run_well_formed<T: Delayed>(
    states: Seq<DelayQueueInner<T>>,
    events: Seq<Event<T>>,
)
    requires
        is_run(states, events),
    ensures
        forall|i: int| 0 <= i < states.len() ==> (#[trigger] states[i]).wf(),
{
    assert forall|i: int| 0 <= i < states.len() implies (#[trigger] states[i]).wf() by {
        if i > 0 {
            assert(follows_at(states, events, i - 1));
        }
    }
}

/// No item leaves the queue early. A consumer is handed an item only by a
/// look at the state that observed, as the remaining delay of that very
/// item, zero or less. The item handed out is the head of the store, which
/// for a total item order is an earliest of the queued items.
pub proof fn lemma_delivered_was_due<T: Delayed>(
    pre: DelayQueueInner<T>,
    observed: Option<i64>,
    me: usize,
    post: DelayQueueInner<T>,
    item: Arc<T>,
    wake: bool,
)
    requires
        pre.wf(),
        pre.observes(observed),
        DelayQueueInner::polled(pre, observed, me, post, Step::Deliver { item, wake }),
    ensures
        observed matches Some(left) && left <= 0 && reported(*item, left),
        item == pre.head(),
        pre.items().contains(item),
        post.items() == pre.items().remove(item),
        total_order::<T>() ==> earliest_in(pre.items(), item),
{
    pre.lemma_head();
    assert(reported(*item, observed->0));
}

/// A due head is handed out at once: a look at a store that is not empty,
/// with an observed delay of zero or less, always delivers. Where the head
/// is not due and nobody leads, the consumer that looks becomes leader and is
/// to wait for exactly the delay it observed; it parks only behind a leader.
pub proof fn lemma_look_outcomes<T: Delayed>(
    pre: DelayQueueInner<T>,
    left: i64,
    me: usize,
    post: DelayQueueInner<T>,
    out: Step<T>,
)
    requires
        pre.items().len() > 0,
        DelayQueueInner::polled(pre, Some(left), me, post, out),
    ensures
        left <= 0 ==> out is Deliver,
        left > 0 && pre.spec_leader() is None ==> out == (Step::<T>::Lead { nanos: left as u64 }),
        left > 0 && pre.spec_leader() is Some ==> out is Park,
{
}

/// While an item is queued, no item that is ordered strictly after it is
/// handed out: of two queued items with different deadlines the earlier one
/// leaves first.
pub proof fn lemma_earlier_leaves_first<T: Delayed>(
    pre: DelayQueueInner<T>,
    observed: Option<i64>,
    me: usize,
    post: DelayQueueInner<T>,
    item: Arc<T>,
    wake: bool,
    earlier: Arc<T>,
    later: Arc<T>,
)
    requires
        total_order::<T>(),
        pre.wf(),
        DelayQueueInner::polled(pre, observed, me, post, Step::Deliver { item, wake }),
        pre.items().contains(earlier),
        before(*earlier, *later),
    ensures
        no_later(*item, *earlier),
        before(*item, *later),
        item != later,
{
    pre.lemma_head();
    assert(no_later(*item, *earlier));
    lemma_transitive(&*item, &*earlier, &*later);
    lemma_trichotomy(&*item, &*later);
    crate::order::lemma_reflexive(&*later);
}

/// In every run the handles that were queued are exactly those that were
/// handed out together with those still queued: nothing is lost and nothing
/// is handed out twice.
pub proof fn lemma_conservation<T: Delayed>(
    states: Seq<DelayQueueInner<T>>,
    events: Seq<Event<T>>,
)
    requires
        is_run(states, events),
    ensures
        put_in(events) == delivered(events).add(states.last().items()),
        delivered(events).subset_of(put_in(events)),
        put_in(events).len() == delivered(events).len() + states.last().items().len(),
    decreases events.len(),
{
    broadcast use vstd::multiset::group_multiset_axioms;

    if events.len() == 0 {
        assert(put_in(events) =~= delivered(events).add(states.last().items()));
    } else {
        lemma_shorter_run(states, events);
        lemma_conservation(states.drop_last(), events.drop_last());
        lemma_run_well_formed(states, events);
        let pre = states[events.len() - 1];
        let post = states.last();
        match events.last() {
            Event::Put { item, wake } => {},
            Event::Poll { me, observed, out } => {
                match out {
                    Step::Deliver { item, wake } => {
                        pre.lemma_head();
                    },
                    _ => {},
                }
            },
            Event::Retire { me } => {},
            Event::Leave { me, wake } => {},
        }
        assert(put_in(events) =~= delivered(events).add(post.items()));
    }
    assert(delivered(events).subset_of(put_in(events)));
}

/// Every item that a run hands out is handed out by a look that observed a
/// remaining delay of zero or less, and that delay was the answer of the very
/// item that is handed out.
pub proof fn lemma_deliveries_were_due<T: Delayed>(
    states: Seq<DelayQueueInner<T>>,
    events: Seq<Event<T>>,
    k: int,
)
    requires
        is_run(states, events),
        0 <= k < events.len(),
    ensures
        events[k] matches Event::Poll { observed, out: Step::Deliver { item, .. }, .. }
            ==> observed matches Some(left) && left <= 0 && reported(*item, left),
{
    lemma_run_well_formed(states, events);
    assert(follows_at(states, events, k));
    match events[k] {
        Event::Poll { me, observed, out: Step::Deliver { item, wake } } => {
            lemma_delivered_was_due(states[k], observed, me, states[k + 1], item, wake);
        },
        _ => {},
    }
}

/// Items leave a run in the order of their deadlines. When a run hands out
/// `later`, every handle that is ordered strictly before it and was queued
/// by then has been handed out by then, as often as it was queued.
pub proof fn lemma_delivery_order<T: Delayed>(
    states: Seq<DelayQueueInner<T>>,
    events: Seq<Event<T>>,
    k: int,
    earlier: Arc<T>,
    later: Arc<T>,
)
    requires
        total_order::<T>(),
        is_run(states, events),
        0 <= k < events.len(),
        events[k] matches Event::Poll { out: Step::Deliver { item, .. }, .. } && item == later,
        before(*earlier, *later),
    ensures
        delivered(events.take(k)).count(earlier) == put_in(events.take(k)).count(earlier),
{
    broadcast use vstd::multiset::group_multiset_axioms;

    lemma_run_well_formed(states, events);
    lemma_prefix_run(states, events, k);
    lemma_conservation(states.take(k + 1), events.take(k));
    assert(follows_at(states, events, k));
    match events[k] {
        Event::Poll { me, observed, out: Step::Deliver { item, wake } } => {
            if states[k].items().contains(earlier) {
                lemma_earlier_leaves_first(
                    states[k],
                    observed,
                    me,
                    states[k + 1],
                    item,
                    wake,
                    earlier,
                    later,
                );
            }
        },
        _ => {},
    }
    assert(states[k].items().count(earlier) == 0);
}

/// The leader slot changes only in two ways: a look at the state by some
/// consumer fills the vacant slot with that consumer, or the consumer that
/// the slot names retires. No producer and no other consumer ever changes
/// it.
pub proof fn lemma_leader_slot<T: Delayed>(
    pre: DelayQueueInner<T>,
    event: Event<T>,
    post: DelayQueueInner<T>,
)
    requires
        follows(pre, event, post),
    ensures
        post.spec_leader() != pre.spec_leader() ==> match event {
            Event::Poll { me, out, .. } => pre.spec_leader() is None && out is Lead
                && post.spec_leader() == Some(me),
            Event::Retire { me } => pre.spec_leader() == Some(me) && post.spec_leader() is None,
            Event::Put { .. } => false,
            Event::Leave { .. } => false,
        },
        event matches Event::Poll { me, out, .. } ==> (out is Lead ==> pre.spec_leader() is None
            && post.spec_leader() == Some(me)),
{
}

/// In every run, a consumer that is in the leader designation is the one
/// that the leader slot names. So at no point of a run are two consumers in
/// the leader designation.
pub proof fn lemma_single_leader<T: Delayed>(
    states: Seq<DelayQueueInner<T>>,
    events: Seq<Event<T>>,
    who: usize,
    other: usize,
)
    requires
        is_run(states, events),
    ensures
        leads(events, who) ==> states.last().spec_leader() == Some(who),
        leads(events, who) && leads(events, other) ==> who == other,
    decreases events.len(),
{
    if events.len() > 0 {
        lemma_shorter_run(states, events);
        lemma_single_leader(states.drop_last(), events.drop_last(), who, other);
        lemma_single_leader(states.drop_last(), events.drop_last(), other, who);
        lemma_leader_slot(states[events.len() - 1], events.last(), states.last());
    }
}

/// At every point of a run at most one consumer is in the leader
/// designation, and it is the one that the leader slot names at that point.
pub proof fn lemma_single_leader_at<T: Delayed>(
    states: Seq<DelayQueueInner<T>>,
    events: Seq<Event<T>>,
    k: int,
    who: usize,
    other: usize,
)
    requires
        is_run(states, events),
        0 <= k <= events.len(),
    ensures
        leads(events.take(k), who) ==> states[k].spec_leader() == Some(who),
        leads(events.take(k), who) && leads(events.take(k), other) ==> who == other,
{
    lemma_prefix_run(states, events, k);
    lemma_single_leader(states.take(k + 1), events.take(k), who, other);
}

/// The consumer that looks at the state or gives up in `event`, if it is
/// such an event.
pub open spec fn looker<T>(event: Event<T>) -> Option<usize> {
    match event {
        Event::Poll { me, .. } => Some(me),
        Event::Leave { me, .. } => Some(me),
        _ => None,
    }
}

/// The consumers of `events` keep to the program of `take`: none looks at
/// the state again, or gives up, while it is in the leader designation. (It
/// waits, and retires first.)
pub open spec fn orderly<T>(events: Seq<Event<T>>) -> bool {
    forall|i: int|
        0 <= i < events.len() ==> (#[trigger] looker(events[i]) matches Some(me) ==> !leads(
            events.take(i),
            me,
        ))
}

/// In every run whose consumers keep to the program of `take`, the leader
/// slot names a consumer only while that consumer is in the leader
/// designation: a slot that is taken is taken by a consumer that is about to
/// wake and retire, so the others never wait on a leader that is gone.
pub proof fn lemma_leader_is_waiting<T: Delayed>(
    states: Seq<DelayQueueInner<T>>,
    events: Seq<Event<T>>,
    who: usize,
)
    requires
        is_run(states, events),
        orderly(events),
    ensures
        states.last().spec_leader() == Some(who) <==> leads(events, who),
    decreases events.len(),
{
    lemma_single_leader(states, events, who, who);
    if events.len() > 0 {
        let shorter = events.drop_last();
        lemma_shorter_run(states, events);
        assert forall|i: int| 0 <= i < shorter.len() implies (#[trigger] looker(
            shorter[i],
        ) matches Some(me) ==> !leads(shorter.take(i), me)) by {
            assert(events[i] == shorter[i]);
            assert(looker(events[i]) == looker(shorter[i]));
            assert(events.take(i) =~= shorter.take(i));
        }
        lemma_leader_is_waiting(states.drop_last(), shorter, who);
        lemma_leader_slot(states[events.len() - 1], events.last(), states.last());
        assert(events.take(events.len() - 1) =~= shorter);
        assert(looker(events[events.len() - 1]) == looker(events.last()));
    }
}

} // verus!
