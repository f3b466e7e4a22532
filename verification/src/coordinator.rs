//! The state that the queue's lock protects, and its transitions.
//!
//! The state is the ordered store together with the leader slot. `put` makes
//! one transition, [`DelayQueueInner::offer`]; each round of `take` makes one,
//! [`DelayQueueInner::look`], and a leader that wakes makes one more,
//! [`DelayQueueInner::retire`]. Every transition runs while the lock is held,
//! so a run of the queue is a sequence of them. Each has an exact contract,
//! given as a relation between the state before and the state after.
//!
//! A consumer that gives up makes no transition, but it also looks at the
//! state once more, [`DelayQueueInner::leave`], to pass on a wake-up that
//! it may have used up.
//!
//! A look is in two parts. What the head answers when asked for its
//! remaining delay depends on the clock; [`DelayQueueInner::remaining`] asks.
//! What follows from the answer does not; [`DelayQueueInner::poll`] takes
//! the answer as an argument and decides.
//!
//! The leader slot is filled by a consumer that finds the head not due and
//! the slot vacant, and it is cleared by that consumer alone, when it wakes.
//! A producer never touches it, also not when it queues an item earlier than
//! the head that the leader is waiting for. The wake-up it sends may then
//! reach a consumer that parks again behind the leader, and the new head is
//! taken when the leader's wait for the old one ends: late, never early.
use crate::delayed::{reported, Delayed};
use crate::order::{before, is_before, lemma_transitive, lemma_trichotomy, total_order};
use crate::store::{earliest_in, Store};
use std::sync::Arc;
use vstd::multiset::Multiset;
use vstd::prelude::*;

verus! {

/// What a consumer does after one look at the state.
pub enum Step<T> {
    /// The head was due and has been removed: return `item`, after sending
    /// one wake-up signal if `wake` is set.
    Deliver { item: Arc<T>, wake: bool },
    /// Nothing is due and this consumer is not to time the wait: wait to be
    /// notified, without a timeout.
    Park,
    /// This consumer has been made leader: wait to be notified for at most
    /// `nanos` nanoseconds, then retire.
    Lead { nanos: u64 },
}

/// The coordinator state: the ordered store and the leader slot.
pub struct DelayQueueInner<T: Delayed> {
    queue: Store<T>,
    current_thread: Option<usize>,
}

impl<T: Delayed> DelayQueueInner<T> {
    /// The handles that are queued.
    pub closed spec fn items(&self) -> Multiset<Arc<T>> {
        self.queue@
    }

    /// The head of the store: the handle that the next delivery hands out.
    pub closed spec fn head(&self) -> Arc<T> {
        self.queue.head()
    }

    /// The consumer that times the next wake-up, if one is designated.
    pub closed spec fn spec_leader(&self) -> Option<usize> {
        self.current_thread
    }

    /// The store is well formed.
    pub closed spec fn wf(&self) -> bool {
        self.queue.wf()
    }

    /// While anything is queued the head is queued, and for a total item
    /// order nothing queued is strictly before it.
    pub proof fn lemma_head(self)
        requires
            self.wf(),
            self.items().len() > 0,
        ensures
            self.items().contains(self.head()),
            total_order::<T>() ==> earliest_in(self.items(), self.head()),
    {
        self.queue.lemma_head();
    }

    /// What `offer` does: `item` joins the queued handles and the leader slot
    /// is left alone. For a total item order `item` becomes the head where
    /// nothing was queued or the head was strictly later, and the head stays
    /// the head otherwise. `wake` is set exactly if `item` has become the
    /// head: an item that is tied with the head, or equal to it, leaves the
    /// head in place and asks for no wake-up.
    pub open spec fn offered(pre: Self, item: Arc<T>, post: Self, wake: bool) -> bool {
        &&& post.wf()
        &&& post.items() == pre.items().insert(item)
        &&& post.spec_leader() == pre.spec_leader()
        &&& pre.items().len() == 0 ==> wake
        &&& total_order::<T>() ==> (wake <==> pre.items().len() == 0 || before(
            *item,
            *pre.head(),
        ))
        &&& total_order::<T>() ==> post.head() == (if pre.items().len() == 0 || before(
            *item,
            *pre.head(),
        ) {
            item
        } else {
            pre.head()
        })
    }

    /// What `poll` does for the consumer `me`, given the remaining delay
    /// `observed` of the head.
    ///
    /// * Nothing queued (or nothing observed): park, state unchanged.
    /// * The head is due: it leaves the store and is delivered; a wake-up is
    ///   asked for exactly if no leader is designated and something is still
    ///   queued.
    /// * The head is not due and a leader is designated: park, state
    ///   unchanged.
    /// * The head is not due and no leader is designated: `me` becomes leader
    ///   and is to wait for exactly the observed delay.
    pub open spec fn polled(
        pre: Self,
        observed: Option<i64>,
        me: usize,
        post: Self,
        out: Step<T>,
    ) -> bool {
        &&& post.wf()
        &&& if observed is None || pre.items().len() == 0 {
            &&& out is Park
            &&& post == pre
        } else if observed->0 <= 0 {
            &&& out == (Step::<T>::Deliver {
                item: pre.head(),
                wake: pre.spec_leader() is None && post.items().len() > 0,
            })
            &&& post.items() == pre.items().remove(pre.head())
            &&& post.spec_leader() == pre.spec_leader()
        } else if pre.spec_leader() is Some {
            &&& out is Park
            &&& post == pre
        } else {
            &&& out == (Step::<T>::Lead { nanos: observed->0 as u64 })
            &&& post.items() == pre.items()
            &&& post.head() == pre.head()
            &&& post.spec_leader() == Some(me)
        }
    }

    /// What `retire` does for the consumer `me`: the leader slot is cleared
    /// if it names `me` and left alone otherwise. The store is unchanged.
    pub open spec fn retired(pre: Self, me: usize, post: Self) -> bool {
        &&& post.wf()
        &&& post.items() == pre.items()
        &&& post.head() == pre.head()
        &&& post.spec_leader() == (if pre.spec_leader() == Some(me) {
            None
        } else {
            pre.spec_leader()
        })
    }

    /// What `leave` answers in the state `pre`: a wake-up is asked for
    /// exactly if something is queued and no leader is designated.
    pub open spec fn left(pre: Self, wake: bool) -> bool {
        wake <==> pre.items().len() > 0 && pre.spec_leader() is None
    }

    /// The state of a new queue: nothing queued, no leader.
    pub fn new() -> (state: Self)
        ensures
            state.wf(),
            state.items() == Multiset::<Arc<T>>::empty(),
            state.spec_leader() is None,
    {
        DelayQueueInner { queue: Store::new(), current_thread: None }
    }

    /// The number of queued handles.
    pub fn len(&self) -> (n: usize)
        ensures
            n == self.items().len(),
    {
        self.queue.len()
    }

    /// The designated leader, if there is one.
    #[verifier::when_used_as_spec(spec_leader)]
    pub fn leader(&self) -> (id: Option<usize>)
        ensures
            id == self.spec_leader(),
    {
        self.current_thread
    }

    /// The item at the head, left in place; nothing if nothing is queued.
    /// The head is one of the queued items, and for a total item order none
    /// of them is strictly before it.
    pub fn peek(&self) -> (first: Option<&T>)
        ensures
            self.wf(),
            first is None <==> self.items().len() == 0,
            first matches Some(item) ==> *item == *self.head(),
            first is Some ==> self.items().contains(self.head()),
            first is Some && total_order::<T>() ==> earliest_in(self.items(), self.head()),
    {
        proof {
            use_type_invariant(&self.queue);
            if self.items().len() > 0 {
                self.lemma_head();
            }
        }
        match self.queue.peek() {
            None => None,
            Some(handle) => Some(&**handle),
        }
    }

    /// `observed` is what a look at the state `self` observes: nothing where
    /// nothing is queued, and a remaining delay that the head reports
    /// otherwise.
    pub open spec fn observes(self, observed: Option<i64>) -> bool {
        match observed {
            None => self.items().len() == 0,
            Some(left) => self.items().len() > 0 && reported(*self.head(), left),
        }
    }

    /// The remaining delay that the head reports now; nothing if nothing is
    /// queued. The delay is whatever the item answers: it depends on the
    /// clock, and nothing is stated of its value.
    pub fn remaining(&self) -> (observed: Option<i64>)
        ensures
            self.wf(),
            self.observes(observed),
    {
        proof {
            use_type_invariant(&self.queue);
        }
        match self.peek() {
            None => None,
            Some(first) => Some(first.delayed()),
        }
    }

    /// Queues `item`. Returns whether one waiting consumer is to be woken:
    /// that is so exactly if `item` has become the head of the store, because
    /// nothing was queued or because it is strictly before the head that
    /// was.
    pub fn offer(&mut self, item: Arc<T>) -> (wake: bool)
        ensures
            old(self).wf(),
            Self::offered(*old(self), item, *final(self), wake),
    {
        proof {
            use_type_invariant(&self.queue);
        }
        let wake = match self.queue.peek() {
            None => true,
            Some(first) => is_before(&*item, &**first),
        };
        self.queue.push(item);
        wake
    }

    /// For a total item order, `offer` asks for a wake-up exactly if the new
    /// item is strictly before everything that was queued: if it has become
    /// the head, and the wait that a leader may be timing for the head that
    /// was is now too long. Otherwise the head stays the head.
    pub proof fn lemma_wake_for_earliest(pre: Self, item: Arc<T>, post: Self, wake: bool)
        requires
            total_order::<T>(),
            pre.wf(),
            Self::offered(pre, item, post, wake),
        ensures
            wake <==> (forall|y: Arc<T>| #[trigger] pre.items().contains(y) ==> before(*item, *y)),
            wake ==> post.head() == item && earliest_in(post.items(), item),
            !wake ==> post.head() == pre.head(),
    {
        broadcast use vstd::multiset::group_multiset_axioms;

        post.lemma_head();
        if pre.items().len() > 0 {
            pre.lemma_head();
            let head = pre.head();
            assert(pre.items().contains(head));
            if wake {
                assert forall|y: Arc<T>| #[trigger] pre.items().contains(y) implies before(
                    *item,
                    *y,
                ) by {
                    lemma_trichotomy(&*item, &*head);
                    lemma_transitive(&*item, &*head, &*y);
                }
            }
        } else {
            assert forall|y: Arc<T>| #[trigger] pre.items().contains(y) implies before(
                *item,
                *y,
            ) by {
                assert(pre.items().len() > 0);
            }
        }
    }

    /// What a look at the state by the consumer `me` comes to, once it has
    /// observed the remaining delay `observed` of the head.
    pub fn poll(&mut self, observed: Option<i64>, me: usize) -> (out: Step<T>)
        ensures
            Self::polled(*old(self), observed, me, *final(self), out),
    {
        proof {
            use_type_invariant(&self.queue);
        }
        let left: i64 = match observed {
            None => {
                return Step::Park;
            },
            Some(left) => left,
        };
        if self.queue.is_empty() {
            return Step::Park;
        }
        if left <= 0 {
            let item = self.queue.pop();
            let wake = self.current_thread.is_none() && !self.queue.is_empty();
            return Step::Deliver { item, wake };
        }
        match self.current_thread {
            Some(_) => Step::Park,
            None => {
                self.current_thread = Some(me);
                Step::Lead { nanos: left as u64 }
            },
        }
    }

    /// One look at the state by the consumer `me`: asks the head for its
    /// remaining delay and decides on the answer. Whatever the head answers,
    /// the state changes as `poll` says for that answer.
    pub fn look(&mut self, me: usize) -> (out: Step<T>)
        ensures
            exists|observed: Option<i64>|
                old(self).observes(observed) && #[trigger] Self::polled(
                    *old(self),
                    observed,
                    me,
                    *final(self),
                    out,
                ),
    {
        let observed = self.remaining();
        self.poll(observed, me)
    }

    /// A consumer gives up without an item. Returns whether one waiting
    /// consumer is to be woken in its place: that is so exactly if something
    /// is queued and nobody is timing the wait for it. The consumer that
    /// leaves may have used up a wake-up that was meant for any of them.
    pub fn leave(&self) -> (wake: bool)
        ensures
            self.wf(),
            Self::left(*self, wake),
    {
        proof {
            use_type_invariant(&self.queue);
        }
        !self.queue.is_empty() && self.current_thread.is_none()
    }

    /// The consumer `me` has woken from its timed wait: it stops being
    /// leader, if it still is.
    pub fn retire(&mut self, me: usize)
        ensures
            old(self).wf(),
            Self::retired(*old(self), me, *final(self)),
    {
        proof {
            use_type_invariant(&self.queue);
        }
        let still_leader = match self.current_thread {
            Some(id) => id == me,
            None => false,
        };
        if still_leader {
            self.current_thread = None;
        }
    }
}

} // verus!
