//! The queue handle.
//!
//! What a call on a handle does, it does to the state under the lock, which
//! other threads change between calls. A contract cannot speak of that state
//! as of a value of the handle. So each handle keeps a record, in ghost
//! code, of the transitions that it made: for each the event, and the state
//! that the call found under the lock and the state that it left there. The
//! contracts of `put` and `take` say what they add to the record.
use crate::coordinator::{DelayQueueInner, Step};
use crate::delayed::{reported, Delayed};
use crate::order::total_order;
use crate::protocol::{follows, leads, lemma_delivered_was_due, looker, orderly, Event};
use crate::store::earliest_in;
use crate::sync::{current_thread, lock, new_mutex, state_of, wait, wait_for};
use std::sync::Arc;
use vstd::prelude::*;

verus! {

/// One transition that a handle made: the event, the state that the call
/// found under the lock, and the state that it left there.
pub struct Entry<T: Delayed> {
    pub pre: DelayQueueInner<T>,
    pub event: Event<T>,
    pub post: DelayQueueInner<T>,
}

impl<T: Delayed> Entry<T> {
    /// The state that was found is well formed, and the event leads from it
    /// to the state that was left.
    pub open spec fn sound(self) -> bool {
        self.pre.wf() && follows(self.pre, self.event, self.post)
    }
}

/// Every entry of `made` is sound.
pub open spec fn all_sound<T: Delayed>(made: Seq<Entry<T>>) -> bool {
    forall|i: int| 0 <= i < made.len() ==> (#[trigger] made[i]).sound()
}

/// The number of looks at the state among `made`.
pub open spec fn looks<T: Delayed>(made: Seq<Entry<T>>) -> nat
    decreases made.len(),
{
    if made.len() == 0 {
        0
    } else if made.last().event is Poll {
        looks(made.drop_last()) + 1
    } else {
        looks(made.drop_last())
    }
}

/// `made` is what the consumer `me` does while it waits in `take`: round
/// after round, either a look that parks it, or a look that makes it leader
/// and, once its wait is over, its retirement.
pub open spec fn waited<T: Delayed>(made: Seq<Entry<T>>, me: usize) -> bool
    decreases made.len(),
{
    if made.len() == 0 {
        true
    } else {
        match made.last().event {
            Event::Poll { me: who, out: Step::Park, .. } => who == me && waited(
                made.drop_last(),
                me,
            ),
            Event::Retire { me: who } => {
                &&& who == me
                &&& made.len() >= 2
                &&& made[made.len() - 2].event matches Event::Poll {
                    me: leader,
                    out: Step::Lead { .. },
                    ..
                }
                &&& leader == me
                &&& waited(made.take(made.len() - 2), me)
            },
            _ => false,
        }
    }
}

/// `made` is what one call of `take` with `rounds` rounds does when it
/// returns `taken`. The consumer waits through some rounds. Then either a
/// look hands it `taken`, or it has looked `rounds` times and leaves. It
/// never looks more than `rounds` times.
pub open spec fn is_take<T: Delayed>(
    made: Seq<Entry<T>>,
    rounds: u64,
    taken: Option<Arc<T>>,
) -> bool {
    &&& made.len() > 0
    &&& all_sound(made)
    &&& looker(made.last().event) matches Some(me)
    &&& waited(made.drop_last(), me)
    &&& looks(made) <= rounds
    &&& match taken {
        Some(item) => made.last().event matches Event::Poll {
            out: Step::Deliver { item: handed, .. },
            ..
        } && handed == item,
        None => made.last().event is Leave && looks(made) == rounds,
    }
}

/// `made` is what one call of `put` with the item `t` does: one offer of a
/// handle to `t`.
pub open spec fn is_put<T: Delayed>(made: Seq<Entry<T>>, t: T) -> bool {
    &&& made.len() == 1
    &&& made[0].sound()
    &&& made[0].event matches Event::Put { item, .. }
    &&& *item == t
}

/// What `put` comes to: the state that the call leaves under the lock is the
/// state that it found there with a handle to `t` queued as well, and with
/// the same leader.
pub proof fn lemma_put_queues<T: Delayed>(made: Seq<Entry<T>>, t: T)
    requires
        is_put(made, t),
    ensures
        made[0].event matches Event::Put { item, .. } && *item == t && made[0].post.items()
            == made[0].pre.items().insert(item) && made[0].post.items().contains(item),
        made[0].post.spec_leader() == made[0].pre.spec_leader(),
{
    broadcast use vstd::multiset::group_multiset_axioms;

}

/// What `take` comes to when it returns an item. The last look observed a
/// remaining delay of zero or less, and that delay was the answer of the
/// item: no item is handed out while the delay observed for it is positive.
/// The item was the head of the state that the look found under the lock,
/// and the look left that state without it. For a total item order nothing
/// that was queued then was ordered strictly before the item.
pub proof fn lemma_take_hands_out_head<T: Delayed>(made: Seq<Entry<T>>, rounds: u64, item: Arc<T>)
    requires
        is_take(made, rounds, Some(item)),
    ensures
        rounds > 0,
        made.last().event matches Event::Poll { observed: Some(left), .. } && left <= 0
            && reported(*item, left),
        item == made.last().pre.head(),
        made.last().pre.items().contains(item),
        made.last().post.items() == made.last().pre.items().remove(item),
        made.last().post.spec_leader() == made.last().pre.spec_leader(),
        total_order::<T>() ==> earliest_in(made.last().pre.items(), item),
{
    let last = made.last();
    assert(last.sound());
    match last.event {
        Event::Poll { me, observed, out: Step::Deliver { item: handed, wake } } => {
            lemma_delivered_was_due(last.pre, observed, me, last.post, handed, wake);
        },
        _ => {},
    }
}

/// What `take` comes to when it gives up: it has looked at the state as
/// often as it was allowed to, and the last thing it did was to ask whether
/// a wake-up is to be passed on, which changes nothing.
pub proof fn lemma_take_gives_up<T: Delayed>(made: Seq<Entry<T>>, rounds: u64)
    requires
        is_take(made, rounds, None),
    ensures
        looks(made) == rounds,
        made.last().post == made.last().pre,
        made.last().event matches Event::Leave { wake, .. } && (wake <==> made.last().pre.items().len()
            > 0 && made.last().pre.spec_leader() is None),
{
    assert(made.last().sound());
}

/// The events of `made`, without the states.
pub open spec fn events_of<T: Delayed>(made: Seq<Entry<T>>) -> Seq<Event<T>> {
    Seq::new(made.len(), |i: int| made[i].event)
}

/// The `i`-th entry of `made` is a step of a waiting round of the consumer
/// `me`, as it should be.
///
/// * A look that parks leaves the state alone, and where something is queued
///   it found a leader designated.
/// * A look that makes `me` leader found the slot vacant and a head that is
///   not due, left the slot naming `me`, asks for a wait of exactly the delay
///   that it observed, and is followed by the retirement of `me`.
/// * A retirement follows such a look, and leaves the slot not naming `me`.
pub open spec fn round_at<T: Delayed>(made: Seq<Entry<T>>, me: usize, i: int) -> bool {
    let entry = made[i];
    match entry.event {
        Event::Poll { me: who, out: Step::Park, .. } => {
            &&& who == me
            &&& entry.post == entry.pre
            &&& entry.pre.items().len() > 0 ==> entry.pre.spec_leader() is Some
        },
        Event::Poll { me: who, observed, out: Step::Lead { nanos } } => {
            &&& who == me
            &&& entry.pre.spec_leader() is None
            &&& entry.post.spec_leader() == Some(me)
            &&& entry.post.items() == entry.pre.items()
            &&& observed matches Some(left)
            &&& left > 0
            &&& nanos == left
            &&& i + 1 < made.len()
            &&& made[i + 1].event == (Event::<T>::Retire { me })
        },
        Event::Retire { me: who } => {
            &&& who == me
            &&& entry.post.spec_leader() != Some(me)
            &&& entry.post.items() == entry.pre.items()
            &&& i > 0
            &&& made[i - 1].event matches Event::Poll { out: Step::Lead { .. }, .. }
        },
        _ => false,
    }
}

/// Every entry of the rounds that a consumer waits through is a step of a
/// round as it should be.
pub proof fn lemma_waiting_rounds<T: Delayed>(made: Seq<Entry<T>>, me: usize, i: int)
    requires
        waited(made, me),
        all_sound(made),
        0 <= i < made.len(),
    ensures
        round_at(made, me, i),
    decreases made.len(),
{
    let n = made.len() as int;
    match made.last().event {
        Event::Poll { out: Step::Park, .. } => {
            if i == n - 1 {
                assert(made[i].sound());
            } else {
                lemma_waiting_rounds(made.drop_last(), me, i);
            }
        },
        Event::Retire { .. } => {
            if i >= n - 2 {
                assert(made[n - 1].sound());
                assert(made[n - 2].sound());
            } else {
                lemma_waiting_rounds(made.take(n - 2), me, i);
            }
        },
        _ => {},
    }
}

/// A consumer that has waited through whole rounds is not in the leader
/// designation.
pub proof fn lemma_waited_not_leading<T: Delayed>(made: Seq<Entry<T>>, me: usize)
    requires
        waited(made, me),
    ensures
        !leads(events_of(made), me),
{
    if made.len() > 0 {
        assert(events_of(made).last() == made.last().event);
    }
}

/// The rounds before a look are whole rounds.
proof fn lemma_waited_before_look<T: Delayed>(made: Seq<Entry<T>>, me: usize, i: int)
    requires
        waited(made, me),
        0 <= i < made.len(),
        made[i].event is Poll,
    ensures
        waited(made.take(i), me),
    decreases made.len(),
{
    let n = made.len() as int;
    match made.last().event {
        Event::Poll { out: Step::Park, .. } => {
            if i == n - 1 {
                assert(made.take(i) =~= made.drop_last());
            } else {
                lemma_waited_before_look(made.drop_last(), me, i);
                assert(made.drop_last().take(i) =~= made.take(i));
            }
        },
        Event::Retire { .. } => {
            if i == n - 2 {
            } else {
                lemma_waited_before_look(made.take(n - 2), me, i);
                assert(made.take(n - 2).take(i) =~= made.take(i));
            }
        },
        _ => {},
    }
}

/// What `take` comes to for the leader slot. The consumer keeps to the
/// program that the laws of runs ask for: it never looks at the state, and
/// never leaves, while it is in the leader designation. When the call
/// returns the consumer is not in the leader designation, and its last step
/// left the slot as it found it. Every step before the last is a step of a
/// waiting round as [`round_at`] says.
pub proof fn lemma_take_leads_in_turn<T: Delayed>(
    made: Seq<Entry<T>>,
    rounds: u64,
    taken: Option<Arc<T>>,
)
    requires
        is_take(made, rounds, taken),
    ensures
        looker(made.last().event) matches Some(me) && !leads(events_of(made), me) && (forall|
            i: int,
        |
            0 <= i < made.len() - 1 ==> #[trigger] round_at(made.drop_last(), me, i)),
        orderly(events_of(made)),
        made.last().post.spec_leader() == made.last().pre.spec_leader(),
{
    let me = looker(made.last().event)->0;
    let events = events_of(made);
    let waiting = made.drop_last();
    assert(events.last() == made.last().event);
    assert(made.last().sound());
    assert forall|i: int| 0 <= i < made.len() - 1 implies #[trigger] round_at(waiting, me, i) by {
        lemma_waiting_rounds(waiting, me, i);
    }
    assert forall|i: int| 0 <= i < events.len() implies (#[trigger] looker(events[i]) matches Some(
        who,
    ) ==> !leads(events.take(i), who)) by {
        if looker(events[i]) is Some {
            if i == made.len() - 1 {
                lemma_waited_not_leading(waiting, me);
                assert(events.take(i) =~= events_of(waiting));
            } else {
                lemma_waiting_rounds(waiting, me, i);
                lemma_waited_before_look(waiting, me, i);
                lemma_waited_not_leading(waiting.take(i), me);
                assert(events.take(i) =~= events_of(waiting.take(i)));
            }
        }
    }
}

/// A handle to a delay queue. Clones of a handle share one queue: they see
/// and change the same store and wake and sleep through the same condition
/// variable.
///
/// The store and the leader slot are kept under one lock, which cannot be
/// poisoned: a thread that panics while it holds the lock releases it, and
/// the queue goes on with the state as that thread left it.
#[verifier::reject_recursive_types(T)]
pub struct DelayQueue<T: Delayed> {
    pub(crate) queue: Arc<parking_lot::Mutex<DelayQueueInner<T>>>,
    pub(crate) available: Arc<parking_lot::Condvar>,
    pub(crate) record: Ghost<Seq<Entry<T>>>,
}

impl<T: Delayed> DelayQueue<T> {
    /// The transitions that this handle has made, in their order. A clone
    /// begins with the record of the handle it was cloned from.
    pub closed spec fn record(&self) -> Seq<Entry<T>> {
        self.record@
    }

    /// The part of the record that was added since the handle was `before`.
    pub open spec fn added_since(&self, before: Self) -> Seq<Entry<T>> {
        self.record().skip(before.record().len() as int)
    }

    /// This handle and `other` are handles to the same queue.
    pub closed spec fn same_queue(&self, other: Self) -> bool {
        &&& self.queue == other.queue
        &&& self.available == other.available
    }

    /// This handle is `before`, grown older: it is a handle to the same
    /// queue, and its record is the record of `before` with more added.
    pub open spec fn follows_on(&self, before: Self) -> bool {
        &&& self.same_queue(before)
        &&& self.record() == before.record() + self.added_since(before)
    }
}

impl<T: Delayed> Default for DelayQueue<T> {
    /// A handle to a new queue, with nothing queued and no leader. The
    /// handle has done nothing yet.
    fn default() -> (fresh: Self)
        ensures
            fresh.record() == Seq::<Entry<T>>::empty(),
    {
        DelayQueue {
            queue: Arc::new(new_mutex(DelayQueueInner::new())),
            available: Arc::new(parking_lot::Condvar::new()),
            record: Ghost(Seq::empty()),
        }
    }
}

impl<T: Delayed> Clone for DelayQueue<T> {
    /// Another handle to the same queue.
    fn clone(&self) -> (twin: Self)
        ensures
            twin == *self,
            twin.same_queue(*self),
    {
        DelayQueue {
            queue: Arc::clone(&self.queue),
            available: Arc::clone(&self.available),
            record: self.record,
        }
    }
}

impl<T> DelayQueue<T> where T: Delayed + Sync + Send {
    /// Queues `t`. If `t` has become the head of the store, one waiting
    /// consumer is woken; an item that leaves the head in place wakes nobody.
    /// The call blocks only for the lock.
    ///
    /// The call makes one transition: it offers a handle to `t` to the state
    /// that it finds under the lock. In the state that it leaves there, `t`
    /// is queued.
    pub fn put(&mut self, t: T)
        ensures
            final(self).follows_on(*old(self)),
            is_put(final(self).added_since(*old(self)), t),
    {
        let ghost made: Seq<Entry<T>>;
        {
            let mut held = lock(self);
            let state = state_of(&mut held);
            let ghost pre = *state;
            let item = Arc::new(t);
            let ghost queued = item;
            let wake = state.offer(item);
            proof {
                made = seq![Entry { pre, event: Event::Put { item: queued, wake }, post: *state }];
            }
            if wake {
                self.available.notify_one();
            }
        }
        let ghost before = self.record@;
        self.record = Ghost(before + made);
        proof {
            assert((before + made).skip(before.len() as int) =~= made);
        }
    }

    /// Takes the earliest item once it is due, blocking until then.
    ///
    /// The call looks at the store at most `rounds` times and waits after
    /// each look that finds nothing due: without a timeout while the store is
    /// empty or another consumer is leader, and as leader for the remaining
    /// delay of the head otherwise. It returns the item that a look found
    /// due, and nothing if `rounds` looks found none. Before it gives up it
    /// wakes one waiting consumer, if something is queued and nobody leads,
    /// so that no wake-up is lost on a consumer that leaves.
    ///
    /// An item is returned only by a look that observed, as the remaining
    /// delay of that item, zero or less: no item is handed out before its
    /// deadline.
    pub fn take(&mut self, rounds: u64) -> (taken: Option<Arc<T>>)
        ensures
            final(self).follows_on(*old(self)),
            is_take(final(self).added_since(*old(self)), rounds, taken),
            rounds == 0 ==> taken is None,
    {
        let me = current_thread();
        let ghost mut made: Seq<Entry<T>> = Seq::empty();
        let mut taken: Option<Arc<T>> = None;
        {
            let mut held = lock(self);
            let mut left: u64 = rounds;
            while left > 0
                invariant_except_break
                    taken is None,
                    left <= rounds,
                    all_sound(made),
                    waited(made, me),
                    looks(made) == rounds - left,
                ensures
                    taken is None ==> left == 0 && all_sound(made) && waited(made, me) && looks(
                        made,
                    ) == rounds,
                    taken is Some ==> is_take(made, rounds, taken),
                decreases left,
            {
                left = left - 1;
                let state = state_of(&mut held);
                let ghost pre = *state;
                let observed = state.remaining();
                let out = state.poll(observed, me);
                let ghost looked = Entry {
                    pre,
                    event: Event::Poll { me, observed, out },
                    post: *state,
                };
                let ghost earlier = made;
                proof {
                    made = earlier.push(looked);
                    assert(made.drop_last() =~= earlier);
                    assert(looked.sound());
                }
                match out {
                    Step::Deliver { item, wake } => {
                        if wake {
                            self.available.notify_one();
                        }
                        taken = Some(item);
                        break ;
                    },
                    Step::Park => {
                        wait(&mut held);
                    },
                    Step::Lead { nanos } => {
                        wait_for(&mut held, nanos);
                        let state = state_of(&mut held);
                        let ghost woken = *state;
                        state.retire(me);
                        proof {
                            let retired = Entry {
                                pre: woken,
                                event: Event::Retire { me },
                                post: *state,
                            };
                            let looked_only = made;
                            made = looked_only.push(retired);
                            assert(made.drop_last() =~= looked_only);
                            assert(made.take(made.len() - 2) =~= earlier);
                            assert(retired.sound());
                        }
                    },
                }
            }
            if taken.is_none() {
                let state = state_of(&mut held);
                let wake = state.leave();
                proof {
                    let left_behind = Entry {
                        pre: *state,
                        event: Event::Leave { me, wake },
                        post: *state,
                    };
                    let waiting = made;
                    made = waiting.push(left_behind);
                    assert(made.drop_last() =~= waiting);
                    assert(left_behind.sound());
                }
                if wake {
                    self.available.notify_one();
                }
            }
        }
        let ghost before = self.record@;
        self.record = Ghost(before + made);
        proof {
            assert((before + made).skip(before.len() as int) =~= made);
        }
        taken
    }
}

} // verus!
