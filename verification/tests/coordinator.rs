use delayqueue::coordinator::{DelayQueueInner, Step};
use delayqueue::Delayed;
use std::cmp::Ordering;
use std::sync::Arc;

/// An item whose remaining delay never changes.
#[derive(Debug, PartialEq, Eq)]
struct Fixed {
    due_in: i64,
    tag: u32,
}

impl Delayed for Fixed {
    fn delayed(&self) -> i64 {
        self.due_in
    }
}

impl Ord for Fixed {
    fn cmp(&self, other: &Self) -> Ordering {
        self.due_in.cmp(&other.due_in)
    }
}

impl PartialOrd for Fixed {
    fn partial_cmp(&self, other: &Self) -> Option<Ordering> {
        Some(self.cmp(other))
    }
}

fn item(due_in: i64, tag: u32) -> Arc<Fixed> {
    Arc::new(Fixed { due_in, tag })
}

fn state_with(items: &[(i64, u32)]) -> DelayQueueInner<Fixed> {
    let mut state = DelayQueueInner::new();
    for (due_in, tag) in items {
        state.offer(item(*due_in, *tag));
    }
    state
}

#[test]
fn new_state_has_nothing_queued_and_no_leader() {
    let state = DelayQueueInner::<Fixed>::new();
    assert_eq!(state.len(), 0);
    assert_eq!(state.leader(), None);
    assert!(state.peek().is_none());
    assert_eq!(state.remaining(), None);
}

#[test]
fn offer_into_an_empty_store_wakes() {
    let mut state = DelayQueueInner::new();
    assert!(state.offer(item(100, 1)));
    assert_eq!(state.len(), 1);
    assert_eq!(state.peek().unwrap().tag, 1);
}

#[test]
fn offer_of_an_earlier_item_wakes() {
    let mut state = state_with(&[(100, 1)]);
    assert!(state.offer(item(50, 2)));
    assert_eq!(state.peek().unwrap().tag, 2);
    assert_eq!(state.len(), 2);
}

#[test]
fn offer_of_a_later_item_does_not_wake() {
    let mut state = state_with(&[(100, 1)]);
    assert!(!state.offer(item(150, 2)));
    assert_eq!(state.peek().unwrap().tag, 1);
    assert_eq!(state.len(), 2);
}

#[test]
fn offer_of_an_item_equal_to_the_head_does_not_wake() {
    let mut state = state_with(&[(100, 1)]);
    assert!(!state.offer(item(100, 1)));
    assert_eq!(state.peek().unwrap().due_in, 100);
    assert_eq!(state.len(), 2);
}

#[test]
fn offer_of_a_tied_item_that_differs_from_the_head_does_not_wake() {
    let mut state = state_with(&[(100, 1)]);
    assert!(!state.offer(item(100, 2)));
    assert_eq!(state.peek().unwrap().tag, 1);
    assert_eq!(state.len(), 2);
}

#[test]
fn offer_leaves_the_leader_alone() {
    let mut state = state_with(&[(100, 1)]);
    assert!(matches!(state.poll(Some(100), 7), Step::Lead { nanos: 100 }));
    assert!(state.offer(item(10, 2)));
    assert_eq!(state.leader(), Some(7));
    assert!(!state.offer(item(500, 3)));
    assert_eq!(state.leader(), Some(7));
}

#[test]
fn remaining_is_the_delay_of_the_head() {
    let state = state_with(&[(300, 1), (-20, 2), (40, 3)]);
    assert_eq!(state.remaining(), Some(-20));
    assert_eq!(state.peek().unwrap().tag, 2);
}

#[test]
fn poll_of_an_empty_store_parks() {
    let mut state = DelayQueueInner::<Fixed>::new();
    assert!(matches!(state.poll(None, 1), Step::Park));
    assert_eq!(state.leader(), None);
    assert_eq!(state.len(), 0);
}

#[test]
fn poll_of_an_empty_store_parks_whatever_was_observed() {
    let mut state = DelayQueueInner::<Fixed>::new();
    assert!(matches!(state.poll(Some(-5), 1), Step::Park));
    assert!(matches!(state.poll(Some(5), 1), Step::Park));
    assert_eq!(state.leader(), None);
    assert_eq!(state.len(), 0);
}

#[test]
fn poll_without_an_observation_parks() {
    let mut state = state_with(&[(-1, 1)]);
    assert!(matches!(state.poll(None, 1), Step::Park));
    assert_eq!(state.len(), 1);
    assert_eq!(state.leader(), None);
}

#[test]
fn poll_delivers_a_due_head() {
    let mut state = state_with(&[(-1, 1)]);
    let observed = state.remaining();
    assert_eq!(observed, Some(-1));
    match state.poll(observed, 9) {
        Step::Deliver { item, wake } => {
            assert_eq!(item.tag, 1);
            assert!(!wake);
        }
        _ => panic!("a due head is delivered"),
    }
    assert_eq!(state.len(), 0);
    assert_eq!(state.leader(), None);
}

#[test]
fn a_delay_of_zero_is_due() {
    let mut state = state_with(&[(0, 4)]);
    match state.poll(Some(0), 9) {
        Step::Deliver { item, wake } => {
            assert_eq!(item.tag, 4);
            assert!(!wake);
        }
        _ => panic!("a delay of zero is due"),
    }
}

#[test]
fn a_delay_of_one_nanosecond_is_not_due() {
    let mut state = state_with(&[(1, 4)]);
    assert!(matches!(state.poll(Some(1), 9), Step::Lead { nanos: 1 }));
    assert_eq!(state.len(), 1);
    assert_eq!(state.leader(), Some(9));
}

#[test]
fn delivery_asks_for_a_wake_up_when_more_is_queued_and_nobody_leads() {
    let mut state = state_with(&[(-10, 1), (500, 2)]);
    match state.poll(Some(-10), 3) {
        Step::Deliver { item, wake } => {
            assert_eq!(item.tag, 1);
            assert!(wake);
        }
        _ => panic!("a due head is delivered"),
    }
    assert_eq!(state.len(), 1);
    assert_eq!(state.peek().unwrap().tag, 2);
}

#[test]
fn delivery_asks_for_no_wake_up_while_a_leader_is_designated() {
    let mut state = state_with(&[(500, 2)]);
    assert!(matches!(state.poll(Some(500), 8), Step::Lead { nanos: 500 }));
    assert!(state.offer(item(-10, 1)));
    assert!(!state.offer(item(900, 3)));
    match state.poll(Some(-10), 3) {
        Step::Deliver { item, wake } => {
            assert_eq!(item.tag, 1);
            assert!(!wake);
        }
        _ => panic!("a due head is delivered"),
    }
    assert_eq!(state.leader(), Some(8));
    assert_eq!(state.len(), 2);
}

#[test]
fn the_first_to_find_nothing_due_becomes_leader() {
    let mut state = state_with(&[(2_000_000, 1)]);
    let observed = state.remaining();
    assert!(matches!(state.poll(observed, 11), Step::Lead { nanos: 2_000_000 }));
    assert_eq!(state.leader(), Some(11));
    assert_eq!(state.len(), 1);
}

#[test]
fn the_leader_waits_for_the_largest_delay_in_full() {
    let mut state = state_with(&[(i64::MAX, 1)]);
    assert!(matches!(state.poll(Some(i64::MAX), 2), Step::Lead { nanos: 9_223_372_036_854_775_807 }));
}

#[test]
fn a_second_consumer_parks_behind_the_leader() {
    let mut state = state_with(&[(2_000_000, 1)]);
    assert!(matches!(state.poll(Some(2_000_000), 11), Step::Lead { .. }));
    assert!(matches!(state.poll(Some(2_000_000), 12), Step::Park));
    assert!(matches!(state.poll(Some(1), 13), Step::Park));
    assert_eq!(state.leader(), Some(11));
    assert_eq!(state.len(), 1);
}

#[test]
fn retire_clears_the_leader_that_retires() {
    let mut state = state_with(&[(2_000_000, 1)]);
    assert!(matches!(state.poll(Some(2_000_000), 11), Step::Lead { .. }));
    state.retire(11);
    assert_eq!(state.leader(), None);
    assert_eq!(state.len(), 1);
}

#[test]
fn retire_of_another_consumer_changes_nothing() {
    let mut state = state_with(&[(2_000_000, 1)]);
    assert!(matches!(state.poll(Some(2_000_000), 11), Step::Lead { .. }));
    state.retire(12);
    assert_eq!(state.leader(), Some(11));
    state.retire(0);
    assert_eq!(state.leader(), Some(11));
}

#[test]
fn retire_without_a_leader_changes_nothing() {
    let mut state = state_with(&[(5, 1)]);
    state.retire(3);
    assert_eq!(state.leader(), None);
    assert_eq!(state.len(), 1);
}

#[test]
fn leadership_passes_on_only_through_retirement() {
    let mut state = state_with(&[(1_000, 1)]);
    assert!(matches!(state.poll(Some(1_000), 1), Step::Lead { nanos: 1_000 }));
    assert!(matches!(state.poll(Some(900), 2), Step::Park));
    assert_eq!(state.leader(), Some(1));
    state.retire(1);
    assert!(matches!(state.poll(Some(800), 2), Step::Lead { nanos: 800 }));
    assert_eq!(state.leader(), Some(2));
}

#[test]
fn the_earlier_of_two_items_is_delivered_first() {
    let mut state = state_with(&[(-1, 50), (-2, 10)]);
    let first = match state.poll(state.remaining(), 1) {
        Step::Deliver { item, .. } => item,
        _ => panic!("a due head is delivered"),
    };
    let second = match state.poll(state.remaining(), 1) {
        Step::Deliver { item, .. } => item,
        _ => panic!("a due head is delivered"),
    };
    assert_eq!(first.tag, 10);
    assert_eq!(second.tag, 50);
}

#[test]
fn a_run_hands_out_what_was_put_and_nothing_twice() {
    let mut state = DelayQueueInner::new();
    let mut put = Vec::new();
    let mut taken = Vec::new();
    let mut tag = 0;
    for round in 0..40 {
        for _ in 0..(round % 3) + 1 {
            state.offer(item(-((tag as i64 * 7) % 13) - 1, tag));
            put.push(tag);
            tag += 1;
        }
        if round % 2 == 1 {
            if let Step::Deliver { item, .. } = state.poll(state.remaining(), round) {
                taken.push(item.tag);
            }
        }
    }
    assert_eq!(put.len(), taken.len() + state.len());
    while let Step::Deliver { item, .. } = state.poll(state.remaining(), 0) {
        taken.push(item.tag);
    }
    assert_eq!(state.len(), 0);
    taken.sort();
    assert_eq!(taken, put);
}

#[test]
fn look_on_an_empty_store_parks() {
    let mut state = DelayQueueInner::<Fixed>::new();
    assert!(matches!(state.look(1), Step::Park));
    assert_eq!(state.leader(), None);
}

#[test]
fn look_hands_out_a_head_that_reports_itself_due() {
    let mut state = state_with(&[(40, 1), (-3, 2), (0, 3)]);
    match state.look(1) {
        Step::Deliver { item, wake } => {
            assert_eq!(item.tag, 2);
            assert!(wake);
        }
        _ => panic!("a due head is delivered"),
    }
    match state.look(1) {
        Step::Deliver { item, wake } => {
            assert_eq!(item.tag, 3);
            assert!(wake);
        }
        _ => panic!("a due head is delivered"),
    }
    assert!(matches!(state.look(1), Step::Lead { nanos: 40 }));
    assert_eq!(state.leader(), Some(1));
    assert!(matches!(state.look(2), Step::Park));
    assert_eq!(state.len(), 1);
}

#[test]
fn look_makes_the_consumer_wait_for_what_the_head_reports() {
    let mut state = state_with(&[(7_000, 1), (9_000, 2)]);
    assert!(matches!(state.look(5), Step::Lead { nanos: 7_000 }));
    state.retire(5);
    assert!(matches!(state.look(6), Step::Lead { nanos: 7_000 }));
    assert_eq!(state.leader(), Some(6));
}

#[test]
fn leave_asks_for_a_wake_up_when_something_is_queued_and_nobody_leads() {
    let state = state_with(&[(500, 1)]);
    assert!(state.leave());
}

#[test]
fn leave_asks_for_no_wake_up_on_an_empty_store() {
    let state = DelayQueueInner::<Fixed>::new();
    assert!(!state.leave());
}

#[test]
fn leave_asks_for_no_wake_up_while_a_leader_is_designated() {
    let mut state = state_with(&[(500, 1)]);
    assert!(matches!(state.look(4), Step::Lead { nanos: 500 }));
    assert!(!state.leave());
    state.retire(4);
    assert!(state.leave());
    assert_eq!(state.len(), 1);
    assert_eq!(state.leader(), None);
}
