use nobro_kernel::{AsyncError, AsyncTask, BoundedExecutor};
use std::cell::Cell;

/// A task that stays pending `left` times, then finishes, bumping `done`.
struct Countdown<'c> {
    left: u32,
    done: &'c Cell<u32>,
}

impl AsyncTask for Countdown<'_> {
    fn poll_once(&mut self) -> bool {
        if self.left == 0 {
            self.done.set(self.done.get() + 1);
            true
        } else {
            self.left -= 1;
            false
        }
    }
}

/// A task that never finishes.
struct Never;

impl AsyncTask for Never {
    fn poll_once(&mut self) -> bool {
        false
    }
}

#[test]
fn spawns_and_completes_within_bound() {
    let done = Cell::new(0);
    let mut exec = BoundedExecutor::<Countdown, 4>::new();
    exec.spawn(Countdown { left: 3, done: &done }).unwrap();
    exec.spawn(Countdown { left: 1, done: &done }).unwrap();
    assert_eq!(exec.len(), 2);

    let rounds = exec.run_to_idle(16).expect("both tasks resolve");
    assert_eq!(rounds, 4);
    assert_eq!(done.get(), 2);
    assert_eq!(exec.pending(), 0);
    assert_eq!(exec.len(), 0);
}

#[test]
fn spawn_past_capacity_is_rejected_not_allocated() {
    let done = Cell::new(0);
    let mut exec = BoundedExecutor::<Countdown, 1>::new();
    assert_eq!(exec.spawn(Countdown { left: 0, done: &done }), Ok(0));
    assert_eq!(exec.spawn(Countdown { left: 0, done: &done }), Err(AsyncError::Full));
}

#[test]
fn run_once_reports_progress() {
    let done = Cell::new(0);
    let mut exec = BoundedExecutor::<Countdown, 2>::new();
    exec.spawn(Countdown { left: 2, done: &done }).unwrap();

    let s0 = exec.run_once();
    assert_eq!((s0.polled, s0.completed, s0.pending), (1, 0, 1));
    exec.run_once();
    let s2 = exec.run_once();
    assert_eq!(s2.completed, 1);
    assert_eq!(exec.pending(), 0);
}

#[test]
fn stalls_are_bounded_not_infinite() {
    let mut exec = BoundedExecutor::<Never, 1>::new();
    exec.spawn(Never).unwrap();
    assert_eq!(exec.run_to_idle(8), Err(AsyncError::Stalled));
}

#[test]
fn a_freed_slot_is_reused_and_an_idle_executor_needs_one_pass() {
    let done = Cell::new(0);
    let mut exec = BoundedExecutor::<Countdown, 2>::new();
    assert_eq!(exec.capacity(), 2);
    assert!(exec.is_empty());
    assert_eq!(exec.run_to_idle(3), Ok(1));
    assert_eq!(exec.run_to_idle(0), Ok(0));
    assert_eq!(exec.spawn(Countdown { left: 0, done: &done }), Ok(0));
    assert_eq!(exec.spawn(Countdown { left: 5, done: &done }), Ok(1));
    let stats = exec.run_once();
    assert_eq!((stats.polled, stats.completed, stats.pending), (2, 1, 1));
    assert_eq!(exec.spawn(Countdown { left: 0, done: &done }), Ok(0), "the finished task's slot is free again");
}
