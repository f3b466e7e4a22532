//! Who waits and who is awake: the consumers around a queue.
//!
//! The coordinator state says what is queued and who leads. Whether a
//! consumer that waits is ever woken depends on more: on which consumers wait
//! at all, and on whom a wake-up signal reaches. This module adds that to
//! the runs of [`crate::protocol`]. A consumer is away, awake, parked,
//! leading or roused; a signal wakes one consumer that waits, if one does,
//! and which one is open; a consumer that waits may also wake by itself, when
//! its timed wait ends or for no reason at all.
//!
//! What is proved of every such play is that no consumer is stranded:
//! whenever something is queued and a consumer is parked, some consumer is
//! awake or is leading, and so will look at the state again without being
//! told. The model has no clock: that this consumer looks in time is not
//! part of what is proved.
use crate::coordinator::{DelayQueueInner, Step};
use crate::delayed::Delayed;
use crate::protocol::{follows, Event};
use std::sync::Arc;
use vstd::multiset::Multiset;
use vstd::prelude::*;

verus! {

/// Where a consumer stands.
pub enum Status {
    /// Not in `take`.
    Away,
    /// In `take`, about to look at the state.
    Awake,
    /// Waiting to be notified, without a timeout.
    Parked,
    /// Waiting to be notified, with a timeout, as leader.
    Leading,
    /// Woken from the wait as leader, about to retire.
    Roused,
}

/// Where the consumer `who` stands in `crowd`. A consumer that `crowd` does
/// not mention is away.
pub open spec fn status_of(crowd: Map<usize, Status>, who: usize) -> Status {
    if crowd.dom().contains(who) {
        crowd[who]
    } else {
        Status::Away
    }
}

/// The consumer waits to be notified.
pub open spec fn waits(status: Status) -> bool {
    status is Parked || status is Leading
}

/// The consumer will look at the state again without being told: it is awake,
/// or its wait has a timeout, or it has woken from that wait.
pub open spec fn active(status: Status) -> bool {
    status is Awake || status is Leading || status is Roused
}

/// The consumer is in the leader designation.
pub open spec fn designated(status: Status) -> bool {
    status is Leading || status is Roused
}

/// Where a consumer that waited stands once it has woken.
pub open spec fn woken_as(status: Status) -> Status {
    match status {
        Status::Parked => Status::Awake,
        Status::Leading => Status::Roused,
        other => other,
    }
}

/// One wake-up signal reaches `pre`: it wakes the consumer `woken`, which
/// waited; it wakes nobody only if nobody waited.
pub open spec fn notified(
    pre: Map<usize, Status>,
    woken: Option<usize>,
    post: Map<usize, Status>,
) -> bool {
    match woken {
        None => post == pre && forall|who: usize| !waits(#[trigger] status_of(pre, who)),
        Some(who) => waits(status_of(pre, who)) && post == pre.insert(
            who,
            woken_as(status_of(pre, who)),
        ),
    }
}

/// A signal is sent exactly if `wake` is set.
pub open spec fn signalled(
    wake: bool,
    pre: Map<usize, Status>,
    woken: Option<usize>,
    post: Map<usize, Status>,
) -> bool {
    if wake {
        notified(pre, woken, post)
    } else {
        woken is None && post == pre
    }
}

/// One thing that happens around a queue.
pub enum Move<T> {
    /// The consumer `me` calls `take`.
    Enter { me: usize },
    /// The consumer `me`, which waits, wakes without a signal: the timeout of
    /// its wait has passed, or it woke for no reason.
    Stir { me: usize },
    /// One transition of the coordinator state, made by a consumer that is
    /// in place for it, and the consumer `woken` by the signal that was sent
    /// after it, if one was sent and reached a consumer.
    Act { event: Event<T>, woken: Option<usize> },
}

/// `step` leads from the state `pre` and the crowd `before` to the state
/// `post` and the crowd `after`.
pub open spec fn moves_to<T: Delayed>(
    pre: DelayQueueInner<T>,
    before: Map<usize, Status>,
    step: Move<T>,
    post: DelayQueueInner<T>,
    after: Map<usize, Status>,
) -> bool {
    match step {
        Move::Enter { me } => {
            &&& post == pre
            &&& status_of(before, me) is Away
            &&& after == before.insert(me, Status::Awake)
        },
        Move::Stir { me } => {
            &&& post == pre
            &&& waits(status_of(before, me))
            &&& after == before.insert(me, woken_as(status_of(before, me)))
        },
        Move::Act { event, woken } => {
            &&& follows(pre, event, post)
            &&& match event {
                Event::Put { wake, .. } => signalled(wake, before, woken, after),
                Event::Poll { me, out, .. } => {
                    &&& status_of(before, me) is Awake
                    &&& match out {
                        Step::Deliver { wake, .. } => signalled(
                            wake,
                            before.insert(me, Status::Away),
                            woken,
                            after,
                        ),
                        Step::Park => woken is None && after == before.insert(me, Status::Parked),
                        Step::Lead { .. } => woken is None && after == before.insert(
                            me,
                            Status::Leading,
                        ),
                    }
                },
                Event::Retire { me } => {
                    &&& status_of(before, me) is Roused
                    &&& woken is None
                    &&& after == before.insert(me, Status::Awake)
                },
                Event::Leave { me, wake } => {
                    &&& status_of(before, me) is Awake
                    &&& signalled(wake, before.insert(me, Status::Away), woken, after)
                },
            }
        },
    }
}

/// The `i`-th step leads from the `i`-th state and crowd to the next.
pub open spec fn moves_at<T: Delayed>(
    states: Seq<DelayQueueInner<T>>,
    crowds: Seq<Map<usize, Status>>,
    steps: Seq<Move<T>>,
    i: int,
) -> bool {
    moves_to(states[i], crowds[i], steps[i], states[i + 1], crowds[i + 1])
}

/// A play around a queue: it begins with the state of a new queue and with
/// every consumer away, and each of `steps` leads from one state and crowd to
/// the next.
pub open spec fn is_play<T: Delayed>(
    states: Seq<DelayQueueInner<T>>,
    crowds: Seq<Map<usize, Status>>,
    steps: Seq<Move<T>>,
) -> bool {
    &&& states.len() == steps.len() + 1
    &&& crowds.len() == steps.len() + 1
    &&& states[0].wf()
    &&& states[0].items() == Multiset::<Arc<T>>::empty()
    &&& states[0].spec_leader() is None
    &&& forall|who: usize| #[trigger] status_of(crowds[0], who) is Away
    &&& forall|i: int| 0 <= i < steps.len() ==> #[trigger] moves_at(states, crowds, steps, i)
}

/// The leader slot names the consumer that is in the leader designation, and
/// no other.
pub open spec fn slot_agrees<T: Delayed>(state: DelayQueueInner<T>, crowd: Map<usize, Status>) -> bool {
    forall|who: usize|
        state.spec_leader() == Some(who) <==> designated(#[trigger] status_of(crowd, who))
}

/// Some consumer is parked.
pub open spec fn someone_parked(crowd: Map<usize, Status>) -> bool {
    exists|who: usize| #[trigger] status_of(crowd, who) is Parked
}

/// Some consumer will look at the state again without being told.
pub open spec fn someone_active(crowd: Map<usize, Status>) -> bool {
    exists|who: usize| active(#[trigger] status_of(crowd, who))
}

/// No consumer is stranded: where something is queued and a consumer is
/// parked, some consumer will look at the state again without being told.
pub open spec fn nobody_stranded<T: Delayed>(
    state: DelayQueueInner<T>,
    crowd: Map<usize, Status>,
) -> bool {
    state.items().len() > 0 && someone_parked(crowd) ==> someone_active(crowd)
}

/// A signal that is sent where a consumer is parked leaves a consumer
/// active.
proof fn lemma_signal_wakes(pre: Map<usize, Status>, woken: Option<usize>, post: Map<usize, Status>)
    requires
        notified(pre, woken, post),
        someone_parked(post),
    ensures
        someone_active(post),
{
    match woken {
        None => {
            let parked = choose|who: usize| #[trigger] status_of(post, who) is Parked;
            assert(waits(status_of(pre, parked)));
        },
        Some(who) => {
            assert(active(status_of(post, who)));
        },
    }
}

/// Each step keeps the slot in agreement with the crowd and strands nobody.
proof fn lemma_step_strands_nobody<T: Delayed>(
    pre: DelayQueueInner<T>,
    before: Map<usize, Status>,
    step: Move<T>,
    post: DelayQueueInner<T>,
    after: Map<usize, Status>,
)
    requires
        pre.wf(),
        slot_agrees(pre, before),
        nobody_stranded(pre, before),
        moves_to(pre, before, step, post, after),
    ensures
        post.wf(),
        slot_agrees(post, after),
        nobody_stranded(post, after),
{
    broadcast use vstd::multiset::group_multiset_axioms;

    assert(post.wf());
    assert forall|who: usize|
        post.spec_leader() == Some(who) <==> designated(#[trigger] status_of(after, who)) by {
        assert(pre.spec_leader() == Some(who) <==> designated(status_of(before, who)));
        match step {
            Move::Act { event: Event::Poll { me, out: Step::Lead { .. }, .. }, .. } => {
                assert(pre.spec_leader() == Some(me) <==> designated(status_of(before, me)));
            },
            Move::Act { event: Event::Retire { me }, .. } => {
                assert(pre.spec_leader() == Some(me) <==> designated(status_of(before, me)));
            },
            _ => {},
        }
    }
    if post.items().len() > 0 && someone_parked(after) {
        let parked = choose|who: usize| #[trigger] status_of(after, who) is Parked;
        match step {
            Move::Enter { me } => {
                assert(active(status_of(after, me)));
            },
            Move::Stir { me } => {
                assert(active(status_of(after, me)));
            },
            Move::Act { event, woken } => {
                match event {
                    Event::Put { item, wake } => {
                        if wake {
                            lemma_signal_wakes(before, woken, after);
                        } else {
                            assert(pre.items().len() > 0);
                            assert(status_of(before, parked) is Parked);
                            let busy = choose|who: usize| active(#[trigger] status_of(before, who));
                            assert(active(status_of(after, busy)));
                        }
                    },
                    Event::Poll { me, observed, out } => {
                        let gone = before.insert(me, Status::Away);
                        match out {
                            Step::Deliver { item, wake } => {
                                if wake {
                                    lemma_signal_wakes(gone, woken, after);
                                } else {
                                    let leader = pre.spec_leader()->0;
                                    assert(designated(status_of(before, leader)));
                                    assert(active(status_of(after, leader)));
                                }
                            },
                            Step::Park => {
                                let leader = pre.spec_leader()->0;
                                assert(designated(status_of(before, leader)));
                                assert(active(status_of(after, leader)));
                            },
                            Step::Lead { nanos } => {
                                assert(active(status_of(after, me)));
                            },
                        }
                    },
                    Event::Retire { me } => {
                        assert(active(status_of(after, me)));
                    },
                    Event::Leave { me, wake } => {
                        let gone = before.insert(me, Status::Away);
                        if wake {
                            lemma_signal_wakes(gone, woken, after);
                        } else {
                            let leader = pre.spec_leader()->0;
                            assert(designated(status_of(before, leader)));
                            assert(active(status_of(after, leader)));
                        }
                    },
                }
            },
        }
    }
}

/// At every point of every play the leader slot names exactly the consumer
/// that is in the leader designation, and no consumer is stranded: where
/// something is queued and a consumer is parked, some consumer is awake or
/// is leading, and will look at the state again without being told.
///
/// This needs nothing of the item type: it holds also where the order of
/// the items is not total.
pub proof fn lemma_nobody_stranded<T: Delayed>(
    states: Seq<DelayQueueInner<T>>,
    crowds: Seq<Map<usize, Status>>,
    steps: Seq<Move<T>>,
    k: int,
)
    requires
        is_play(states, crowds, steps),
        0 <= k <= steps.len(),
    ensures
        states[k].wf(),
        slot_agrees(states[k], crowds[k]),
        nobody_stranded(states[k], crowds[k]),
    decreases k,
{
    if k == 0 {
        assert forall|who: usize|
            states[0].spec_leader() == Some(who) <==> designated(
                #[trigger] status_of(crowds[0], who),
            ) by {
            assert(status_of(crowds[0], who) is Away);
        }
    } else {
        lemma_nobody_stranded(states, crowds, steps, k - 1);
        assert(moves_at(states, crowds, steps, k - 1));
        lemma_step_strands_nobody(
            states[k - 1],
            crowds[k - 1],
            steps[k - 1],
            states[k],
            crowds[k],
        );
    }
}

} // verus!
