use nobro_kernel::{ReactorError, ReactorExecutor, ReactorTask};
use std::cell::Cell;
use std::sync::atomic::{AtomicU32, Ordering};

/// Sets the ready bit of `index` in `ready`, as the slot's waker would.
fn wake(ready: &AtomicU32, index: usize) {
    ready.fetch_or(1 << index, Ordering::AcqRel);
}

/// Wakes itself `wakes` times per poll and never finishes.
struct Storm<'r> {
    ready: &'r AtomicU32,
    wakes: u32,
}

impl ReactorTask for Storm<'_> {
    fn poll_ready(&mut self, index: usize) -> bool {
        for _ in 0..self.wakes {
            wake(self.ready, index);
        }
        false
    }
}

/// Counts its polls and never finishes or wakes itself.
struct Counting<'c> {
    polls: &'c Cell<u32>,
}

impl ReactorTask for Counting<'_> {
    fn poll_ready(&mut self, _index: usize) -> bool {
        self.polls.set(self.polls.get() + 1);
        false
    }
}

/// Finishes on its first poll.
struct Once;

impl ReactorTask for Once {
    fn poll_ready(&mut self, _index: usize) -> bool {
        true
    }
}

#[test]
fn wake_storm_is_one_bit_and_fuel_bounds_hold() {
    let ready = AtomicU32::new(0);
    let mut exec = ReactorExecutor::<Storm, 2>::bind(&ready, 1);
    exec.spawn(Storm { ready: &ready, wakes: 100 }).unwrap();

    let stats = exec.run_ready(3);
    assert_eq!(stats.polled, 3);
    assert!(stats.fuel_exhausted);
    assert!(exec.has_ready());
    assert_eq!(stats.live, 1);
}

#[test]
fn sparse_ready_bits_preserve_unpolled_fuel_remainder() {
    let polls: Vec<Cell<u32>> = (0..8).map(|_| Cell::new(0)).collect();
    let ready = AtomicU32::new(0);
    let mut exec = ReactorExecutor::<Counting, 8>::bind(&ready, 1);
    for index in 0..8 {
        assert_eq!(exec.spawn(Counting { polls: &polls[index] }), Ok(index));
    }
    assert_eq!(exec.run_ready(8).polled, 8);

    wake(&ready, 7);
    wake(&ready, 3);
    let first = exec.run_ready(1);
    assert_eq!(first.polled, 1);
    assert!(first.fuel_exhausted);
    assert_eq!(polls[3].get(), 2);
    assert_eq!(polls[7].get(), 1);

    let second = exec.run_ready(1);
    assert_eq!(second.polled, 1);
    assert!(!second.fuel_exhausted);
    assert_eq!(polls[7].get(), 2);
}

#[test]
fn never_ready_future_parks_without_spinning() {
    let polls = Cell::new(0);
    let ready = AtomicU32::new(0);
    let mut exec = ReactorExecutor::<Counting, 1>::bind(&ready, 1);
    exec.spawn(Counting { polls: &polls }).unwrap();
    assert_eq!(exec.run_ready(10).polled, 1);
    let second = exec.run_ready(10);
    assert_eq!(second.polled, 0);
    assert!(!second.fuel_exhausted);
    assert_eq!(second.live, 1);
}

#[test]
fn finished_tasks_free_their_slots_and_a_full_reactor_refuses() {
    let ready = AtomicU32::new(0);
    let mut exec = ReactorExecutor::<Once, 2>::bind(&ready, 0x40);
    assert_eq!(exec.core_identity(), 0x40);
    assert_eq!(exec.spawn(Once), Ok(0));
    assert_eq!(exec.spawn(Once), Ok(1));
    assert_eq!(exec.spawn(Once), Err(ReactorError::Full));
    assert_eq!(exec.live(), 2);
    let stats = exec.run_ready(5);
    assert_eq!((stats.polled, stats.completed, stats.live), (2, 2, 0));
    assert!(!stats.fuel_exhausted);
    assert!(!exec.has_ready());
    wake(&ready, 1);
    let stale = exec.run_ready(5);
    assert_eq!(stale.polled, 0, "a wake for a freed slot polls nothing");
    assert_eq!(exec.spawn(Once), Ok(0));
}
