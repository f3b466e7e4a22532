use chrono::{DateTime, Duration, Local};
use crossbeam_utils::thread;
use delayqueue::coordinator::{DelayQueueInner, Step};
use delayqueue::{DelayQueue, Delayed};
use std::collections::HashMap;
use std::sync::atomic::{AtomicBool, Ordering};
use std::sync::Arc;

#[derive(Default, Debug, PartialEq, Eq)]
struct Task {
    deadline: i64,
    message: String,
}

impl Task {
    fn new<S: Into<String>>(deadline: i64, message: S) -> Task {
        let message = message.into();
        Task { deadline, message }
    }
}

fn now_nanos() -> i64 {
    chrono::Local::now().timestamp_nanos_opt().unwrap()
}

impl Delayed for Task {
    fn delayed(&self) -> i64 {
        self.deadline - now_nanos()
    }
}

impl Ord for Task {
    fn cmp(&self, other: &Self) -> std::cmp::Ordering {
        self.deadline.cmp(&other.deadline)
    }
}

impl PartialOrd for Task {
    fn partial_cmp(&self, other: &Self) -> Option<std::cmp::Ordering> {
        Some(self.deadline.cmp(&other.deadline))
    }
}

fn after(du: Duration) -> DateTime<Local> {
    chrono::Local::now() + du
}

fn take_blocking(queue: &mut DelayQueue<Task>) -> Arc<Task> {
    loop {
        if let Some(task) = queue.take(u64::MAX) {
            return task;
        }
    }
}

fn pause(millis: i64) {
    let until = now_nanos() + millis * 1_000_000;
    while now_nanos() < until {
        std::hint::spin_loop();
    }
}

#[test]
fn test() {
    const TOTAL_COUNT: usize = 1000;
    const THREAD_COUNT: usize = 8;

    let queue = DelayQueue::<Task>::default();
    let maps = thread::scope(|scope| {
        {
            let mut queue = queue.clone();
            scope.spawn(move |_| {
                for index in 0..TOTAL_COUNT {
                    let v = rand::random::<u64>() % 10000;
                    queue.put(Task::new(
                        after(Duration::milliseconds(v as i64)).timestamp_nanos_opt().unwrap(),
                        format!("index: {}. delay for {}ms", index, v),
                    ));
                }
            });
        }

        (0..THREAD_COUNT)
            .map(|_thead_id| {
                let mut queue = queue.clone();
                scope.spawn(move |_| {
                    let mut map = HashMap::<i32, i32>::new();
                    for _i in 0..TOTAL_COUNT / THREAD_COUNT {
                        let task = take_blocking(&mut queue);
                        let now = chrono::Local::now();
                        let diff = (now.timestamp_nanos_opt().unwrap() - task.deadline) / 1000;
                        assert!(diff >= 0);
                        if diff <= 100 {
                            *map.entry(100).or_default() += 1;
                        } else if diff <= 200 {
                            *map.entry(200).or_default() += 1;
                        } else if diff <= 300 {
                            *map.entry(300).or_default() += 1;
                        } else if diff <= 400 {
                            *map.entry(400).or_default() += 1;
                        } else if diff <= 500 {
                            *map.entry(500).or_default() += 1;
                        } else if diff <= 600 {
                            *map.entry(600).or_default() += 1;
                        } else {
                            *map.entry(1000).or_default() += 1;
                        }
                    }
                    map
                })
            })
            .collect::<Vec<_>>()
            .into_iter()
            .map(|h| h.join().unwrap())
            .collect::<Vec<_>>()
    })
    .unwrap();

    let mut results = HashMap::<i32, i32>::default();

    for map in maps {
        for (k, v) in map {
            *results.entry(k).or_default() += v;
        }
    }

    let mut result_count = 0;
    println!("Response Latency\tCount\tPercent");
    for (k, v) in results {
        result_count += v;
        println!(
            "{:16}\t{:5}\t{:.2}%",
            k,
            v,
            (v as f64 / TOTAL_COUNT as f64) * 100f64
        );
    }
    assert_eq!(1000, result_count);
}

#[test]
fn a_consumer_on_an_empty_queue_is_woken_by_a_put() {
    let queue = DelayQueue::<Task>::default();
    let message = thread::scope(|scope| {
        let mut consumer = queue.clone();
        let waiting = scope.spawn(move |_| take_blocking(&mut consumer).message.clone());
        pause(30);
        let mut producer = queue.clone();
        producer.put(Task::new(now_nanos(), "wake up"));
        waiting.join().unwrap()
    })
    .unwrap();
    assert_eq!(message, "wake up");
}

#[test]
fn an_earlier_item_put_during_a_timed_wait_is_still_taken_first() {
    let queue = DelayQueue::<Task>::default();
    let mut producer = queue.clone();
    let later = now_nanos() + 1_500_000_000;
    producer.put(Task::new(later, "later"));
    let taken = thread::scope(|scope| {
        let mut consumer = queue.clone();
        let waiting = scope.spawn(move |_| {
            let first = take_blocking(&mut consumer);
            let first_at = now_nanos();
            let second = take_blocking(&mut consumer);
            let second_at = now_nanos();
            vec![(first, first_at), (second, second_at)]
        });
        pause(30);
        producer.put(Task::new(now_nanos() + 20_000_000, "sooner"));
        waiting.join().unwrap()
    })
    .unwrap();
    assert_eq!(taken[0].0.message, "sooner");
    assert_eq!(taken[1].0.message, "later");
    for (task, at) in taken.iter() {
        assert!(*at >= task.deadline);
    }
    assert!(taken[0].1 < later);
}

#[test]
fn a_consumer_that_gives_up_passes_the_wake_up_on() {
    let queue = DelayQueue::<Task>::default();
    let (short_got, patient_got) = thread::scope(|scope| {
        let mut short = queue.clone();
        let leaving = scope.spawn(move |_| short.take(1).map(|task| task.message.clone()));
        pause(100);
        let mut patient = queue.clone();
        let staying = scope.spawn(move |_| take_blocking(&mut patient).message.clone());
        pause(100);
        let mut producer = queue.clone();
        producer.put(Task::new(now_nanos() - 1, "first"));
        let short_got = leaving.join().unwrap();
        if short_got.is_some() {
            producer.put(Task::new(now_nanos() - 1, "second"));
        }
        (short_got, staying.join().unwrap())
    })
    .unwrap();
    match short_got {
        None => assert_eq!(patient_got, "first"),
        Some(message) => {
            assert_eq!(message, "first");
            assert_eq!(patient_got, "second");
        }
    }
}

#[test]
fn a_leader_that_gives_up_passes_the_watch_on() {
    let queue = DelayQueue::<Task>::default();
    let mut producer = queue.clone();
    let deadline = now_nanos() + 300_000_000;
    producer.put(Task::new(deadline, "watched"));
    let (short_got, patient_got, taken_at) = thread::scope(|scope| {
        let mut short = queue.clone();
        let leaving = scope.spawn(move |_| short.take(1).map(|task| task.message.clone()));
        pause(50);
        let mut patient = queue.clone();
        let staying = scope.spawn(move |_| {
            let task = take_blocking(&mut patient);
            (task.message.clone(), task.deadline, now_nanos())
        });
        let short_got = leaving.join().unwrap();
        if short_got.is_some() {
            producer.put(Task::new(now_nanos() - 1, "spare"));
        }
        let (message, due, at) = staying.join().unwrap();
        assert!(at >= due);
        (short_got, message, at)
    })
    .unwrap();
    match short_got {
        None => {
            assert_eq!(patient_got, "watched");
            assert!(taken_at >= deadline);
            assert!(taken_at - deadline < 5_000_000_000);
        }
        Some(message) => {
            assert_eq!(message, "watched");
            assert_eq!(patient_got, "spare");
        }
    }
}

#[test]
fn many_consumers_take_every_item_once() {
    const ITEMS: usize = 400;
    const CONSUMERS: usize = 8;
    const PRODUCERS: usize = 4;

    let queue = DelayQueue::<Task>::default();
    let start = now_nanos();
    let mut taken = thread::scope(|scope| {
        for producer in 0..PRODUCERS {
            let mut queue = queue.clone();
            scope.spawn(move |_| {
                for index in (producer..ITEMS).step_by(PRODUCERS) {
                    let deadline = start + ((index * 37) % 200) as i64 * 1_000_000;
                    queue.put(Task::new(deadline, format!("{}", index)));
                }
            });
        }
        (0..CONSUMERS)
            .map(|_| {
                let mut queue = queue.clone();
                scope.spawn(move |_| {
                    let mut mine = Vec::new();
                    for _ in 0..ITEMS / CONSUMERS {
                        let task = take_blocking(&mut queue);
                        assert!(now_nanos() >= task.deadline);
                        mine.push(task.message.parse::<usize>().unwrap());
                    }
                    mine
                })
            })
            .collect::<Vec<_>>()
            .into_iter()
            .flat_map(|handle| handle.join().unwrap())
            .collect::<Vec<usize>>()
    })
    .unwrap();
    taken.sort();
    assert_eq!(taken, (0..ITEMS).collect::<Vec<usize>>());
}

#[test]
fn a_thousand_items_over_ten_seconds_reach_eight_consumers() {
    const TOTAL_COUNT: usize = 1000;
    const THREAD_COUNT: usize = 8;

    let mut queue = DelayQueue::<Task>::default();
    let start = now_nanos();
    for index in 0..TOTAL_COUNT {
        let deadline = start + (((index * 617) % TOTAL_COUNT) as i64) * 10_000_000;
        queue.put(Task::new(deadline, format!("{}", index)));
    }
    let counts = thread::scope(|scope| {
        (0..THREAD_COUNT)
            .map(|_| {
                let mut queue = queue.clone();
                scope.spawn(move |_| {
                    let mut received = 0;
                    for _ in 0..TOTAL_COUNT / THREAD_COUNT {
                        let task = take_blocking(&mut queue);
                        assert!(now_nanos() - task.deadline >= 0);
                        received += 1;
                    }
                    received
                })
            })
            .collect::<Vec<_>>()
            .into_iter()
            .map(|handle| handle.join().unwrap())
            .collect::<Vec<usize>>()
    })
    .unwrap();
    assert_eq!(counts, vec![125; 8]);
    assert_eq!(counts.iter().sum::<usize>(), 1000);
    assert!(queue.take(0).is_none());
}

/// An item whose comparison panics while `armed` is set.
struct Fragile {
    due_in: i64,
    armed: Arc<AtomicBool>,
}

impl Delayed for Fragile {
    fn delayed(&self) -> i64 {
        self.due_in
    }
}

impl PartialEq for Fragile {
    fn eq(&self, other: &Self) -> bool {
        self.due_in == other.due_in
    }
}

impl Eq for Fragile {}

impl PartialOrd for Fragile {
    fn partial_cmp(&self, other: &Self) -> Option<std::cmp::Ordering> {
        Some(self.cmp(other))
    }
}

impl Ord for Fragile {
    fn cmp(&self, other: &Self) -> std::cmp::Ordering {
        if self.armed.load(Ordering::SeqCst) {
            panic!("the comparison fails");
        }
        self.due_in.cmp(&other.due_in)
    }
}

fn fragile_state(armed: &Arc<AtomicBool>, delays: &[i64]) -> DelayQueueInner<Fragile> {
    let mut state = DelayQueueInner::new();
    for due_in in delays {
        state.offer(Arc::new(Fragile { due_in: *due_in, armed: Arc::clone(armed) }));
    }
    state
}

fn drain(state: &mut DelayQueueInner<Fragile>) -> Vec<i64> {
    let mut delays = Vec::new();
    while let Step::Deliver { item, .. } = state.poll(state.remaining(), 1) {
        delays.push(item.due_in);
    }
    delays
}

#[test]
fn a_comparison_that_panics_in_offer_leaves_the_store_as_it_was() {
    let armed = Arc::new(AtomicBool::new(false));
    let shared = parking_lot::Mutex::new(fragile_state(&armed, &[-5, -9, -2, -7, -1, -8, -3]));
    armed.store(true, Ordering::SeqCst);
    let outcome = thread::scope(|scope| {
        let late = Arc::new(Fragile { due_in: -6, armed: Arc::clone(&armed) });
        let shared = &shared;
        scope.spawn(move |_| shared.lock().offer(late)).join()
    })
    .unwrap();
    assert!(outcome.is_err());
    armed.store(false, Ordering::SeqCst);
    let mut state = shared.lock();
    assert_eq!(state.len(), 7);
    assert_eq!(state.leader(), None);
    assert_eq!(drain(&mut state), vec![-9, -8, -7, -5, -3, -2, -1]);
}

#[test]
fn a_comparison_that_panics_in_poll_leaves_the_store_as_it_was() {
    let armed = Arc::new(AtomicBool::new(false));
    let shared = parking_lot::Mutex::new(fragile_state(&armed, &[-5, -9, -2, -7, -1, -8, -3]));
    armed.store(true, Ordering::SeqCst);
    let outcome = thread::scope(|scope| {
        let shared = &shared;
        scope
            .spawn(move |_| matches!(shared.lock().poll(Some(-9), 1), Step::Deliver { .. }))
            .join()
    })
    .unwrap();
    assert!(outcome.is_err());
    armed.store(false, Ordering::SeqCst);
    let mut state = shared.lock();
    assert_eq!(state.len(), 7);
    assert_eq!(state.peek().unwrap().due_in, -9);
    assert_eq!(drain(&mut state), vec![-9, -8, -7, -5, -3, -2, -1]);
}

#[test]
fn a_comparison_that_panics_in_put_leaves_the_queue_usable() {
    let armed = Arc::new(AtomicBool::new(false));
    let mut queue = DelayQueue::<Fragile>::default();
    for due_in in [-4, -6, -2] {
        queue.put(Fragile { due_in, armed: Arc::clone(&armed) });
    }
    armed.store(true, Ordering::SeqCst);
    let outcome = thread::scope(|scope| {
        let mut producer = queue.clone();
        let bad = Fragile { due_in: -5, armed: Arc::clone(&armed) };
        scope.spawn(move |_| producer.put(bad)).join()
    })
    .unwrap();
    assert!(outcome.is_err());
    armed.store(false, Ordering::SeqCst);
    let mut taken = Vec::new();
    for _ in 0..3 {
        taken.push(queue.take(1).unwrap().due_in);
    }
    assert_eq!(taken, vec![-6, -4, -2]);
}
