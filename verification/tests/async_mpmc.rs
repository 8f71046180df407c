use nobro_kernel::{
    MpmcChannel, MpmcRecvStep, MpmcSendError, MpmcSendStep, MpmcTrySendError, TaskGroup, WaitError, WaitQueue,
};
use std::sync::atomic::{AtomicU32, Ordering};
use std::sync::Arc;
use std::task::{Wake, Waker};

struct WakeCount(AtomicU32);

impl Wake for WakeCount {
    fn wake(self: Arc<Self>) {
        self.0.fetch_add(1, Ordering::SeqCst);
    }
}

fn task_waker() -> (Arc<WakeCount>, Waker) {
    let count = Arc::new(WakeCount(AtomicU32::new(0)));
    let waker = Waker::from(count.clone());
    (count, waker)
}

fn wakes(count: &Arc<WakeCount>) -> u32 {
    count.0.load(Ordering::SeqCst)
}

/// A sender that pushes `values` in order, one poll step at a time.
struct Producer {
    registration: usize,
    values: Vec<u32>,
    next: usize,
    held: Option<u32>,
}

impl Producer {
    fn done(&self) -> bool {
        self.held.is_none() && self.next == self.values.len()
    }

    /// Runs until the send would block or every value is delivered.
    fn run<const C: usize, const W: usize>(&mut self, channel: &mut MpmcChannel<u32, C, W>, waker: &Waker) {
        loop {
            let value = match self.held.take() {
                Some(value) => value,
                None if self.next < self.values.len() => {
                    self.next += 1;
                    self.values[self.next - 1]
                }
                None => return,
            };
            match channel.poll_send(self.registration, value, waker) {
                MpmcSendStep::Ready(Ok(())) => {}
                MpmcSendStep::Pending(value) => {
                    self.held = Some(value);
                    return;
                }
                MpmcSendStep::Ready(Err(error)) => panic!("send failed: {:?}", error),
            }
        }
    }
}

/// A receiver that takes `wanted` values, one poll step at a time.
struct Consumer {
    registration: usize,
    wanted: u32,
    sum: u32,
    count: u32,
}

impl Consumer {
    fn done(&self) -> bool {
        self.count == self.wanted
    }

    fn run<const C: usize, const W: usize>(&mut self, channel: &mut MpmcChannel<u32, C, W>, waker: &Waker) {
        while !self.done() {
            match channel.poll_recv(self.registration, waker) {
                MpmcRecvStep::Ready(Ok(Some(value))) => {
                    self.sum += value;
                    self.count += 1;
                }
                MpmcRecvStep::Pending => return,
                MpmcRecvStep::Ready(other) => panic!("receive ended: {:?}", other),
            }
        }
    }
}

#[test]
fn wait_queue_is_fair_and_dedups() {
    let mut q = WaitQueue::<4>::new();
    let (c0, w0) = task_waker();
    let (c1, w1) = task_waker();
    let (_c2, w2) = task_waker();
    q.park(&w0).unwrap();
    q.park(&w1).unwrap();
    q.park(&w0).unwrap();
    assert_eq!(q.len(), 2);
    q.park(&w2).unwrap();
    assert_eq!(q.len(), 3);
    assert!(q.wake_one());
    assert_eq!(q.len(), 2);
    assert_eq!(wakes(&c0), 1, "the oldest waiter wakes first");
    assert_eq!(wakes(&c1), 0);
}

#[test]
fn wait_queue_reports_full_instead_of_losing_a_waker() {
    let mut q = WaitQueue::<1>::new();
    let (_c0, w0) = task_waker();
    let (_c1, w1) = task_waker();
    q.park(&w0).unwrap();
    assert_eq!(q.park(&w1), Err(WaitError::WaitersFull));
}

#[test]
fn wait_queue_remove_and_wake_all_empty_the_queue() {
    let mut q = WaitQueue::<3>::new();
    let (c0, w0) = task_waker();
    let (c1, w1) = task_waker();
    let (_c2, w2) = task_waker();
    q.park(&w0).unwrap();
    q.park(&w1).unwrap();
    assert!(!q.remove(&w2));
    assert!(q.remove(&w0));
    assert_eq!(q.len(), 1);
    q.wake_all();
    assert!(q.is_empty());
    assert_eq!(wakes(&c0), 0, "a removed waiter is not woken");
    assert_eq!(wakes(&c1), 1);
    assert!(!q.wake_one());
}

#[test]
fn mpmc_two_producers_two_consumers_deliver_every_item_fairly() {
    let mut ch = MpmcChannel::<u32, 2, 4>::new();
    let (_c, waker) = task_waker();
    let mut p1 = Producer { registration: 1, values: vec![1, 2], next: 0, held: None };
    let mut p2 = Producer { registration: 2, values: vec![10, 20], next: 0, held: None };
    let mut c1 = Consumer { registration: 3, wanted: 2, sum: 0, count: 0 };
    let mut c2 = Consumer { registration: 4, wanted: 2, sum: 0, count: 0 };
    for _ in 0..20 {
        p1.run(&mut ch, &waker);
        p2.run(&mut ch, &waker);
        c1.run(&mut ch, &waker);
        c2.run(&mut ch, &waker);
        if p1.done() && p2.done() && c1.done() && c2.done() {
            break;
        }
    }
    assert!(p1.done() && p2.done() && c1.done() && c2.done(), "all four tasks completed");
    assert_eq!(c1.count + c2.count, 4);
    assert_eq!(c1.sum + c2.sum, 33);
}

#[test]
fn mpmc_multi_producer_saturation_delivers_every_item_without_starvation() {
    let m: u32 = 500;
    let total: u32 = 2 * m;
    let mut ch = MpmcChannel::<u32, 3, 2>::new();
    let (_c, waker) = task_waker();
    let mut p1 = Producer { registration: 1, values: vec![1; 500], next: 0, held: None };
    let mut p2 = Producer { registration: 2, values: vec![3; 500], next: 0, held: None };
    let mut consumer = Consumer { registration: 3, wanted: total, sum: 0, count: 0 };
    let mut cycles = 0u32;
    while !(p1.done() && p2.done() && consumer.done()) {
        p1.run(&mut ch, &waker);
        p2.run(&mut ch, &waker);
        consumer.run(&mut ch, &waker);
        cycles += 1;
        assert!(cycles < 100_000, "must terminate; a starved producer would hang");
    }
    assert_eq!(consumer.count, total, "every item delivered once");
    assert_eq!(consumer.sum, m * 1 + m * 3);
}

#[test]
fn mpmc_close_wakes_blocked_receivers_with_none() {
    let mut ch = MpmcChannel::<u32, 1, 2>::new();
    let (count, waker) = task_waker();
    assert_eq!(ch.poll_recv(1, &waker), MpmcRecvStep::Pending, "parked on empty channel");
    ch.close();
    assert_eq!(wakes(&count), 1);
    assert_eq!(ch.poll_recv(1, &waker), MpmcRecvStep::Ready(Ok(None)));
}

#[test]
fn cross_core_transport_survives_a_consumer_core_stall() {
    let mut xcore = MpmcChannel::<u32, 2, 2>::new();
    let (_ca, waker_a) = task_waker();
    let (_cb, waker_b) = task_waker();
    let mut producer = Producer { registration: 1, values: vec![1, 2, 3, 4, 5], next: 0, held: None };
    let mut consumer = Consumer { registration: 2, wanted: 5, sum: 0, count: 0 };
    for _ in 0..5 {
        producer.run(&mut xcore, &waker_a);
    }
    assert!(!producer.done(), "producer parked on a full channel");
    assert_eq!(consumer.count, 0, "consumer core stalled");
    assert_eq!(xcore.len(), 2, "exactly the ring capacity buffered");
    for _ in 0..20 {
        producer.run(&mut xcore, &waker_a);
        consumer.run(&mut xcore, &waker_b);
        if producer.done() && consumer.done() {
            break;
        }
    }
    assert!(producer.done(), "producer completed after B resumed");
    assert!(consumer.done(), "consumer drained every item");
    assert_eq!(consumer.count, 5, "each item delivered once");
    assert_eq!(consumer.sum, 15, "1+2+3+4+5, none lost/duplicated");
}

#[test]
fn recv_waiter_exhaustion_is_typed_and_cancellation_frees_capacity() {
    let mut ch = MpmcChannel::<u32, 1, 1>::new();
    let (_c0, first_waker) = task_waker();
    let (_c1, second_waker) = task_waker();
    assert_eq!(ch.poll_recv(1, &first_waker), MpmcRecvStep::Pending);
    assert_eq!(ch.poll_recv(2, &second_waker), MpmcRecvStep::Ready(Err(WaitError::WaitersFull)));
    assert!(!ch.is_closed(), "waiter exhaustion is not end-of-stream");
    ch.remove_receiver(1);
    assert_eq!(
        ch.poll_recv(3, &second_waker),
        MpmcRecvStep::Pending,
        "dropping a pending receiver releases its waiter slot"
    );
}

#[test]
fn pending_receiver_replaces_a_changed_task_waker_without_leaking_capacity() {
    let mut ch = MpmcChannel::<u32, 1, 1>::new();
    let (_c0, first_waker) = task_waker();
    let (_c1, migrated_waker) = task_waker();
    assert_eq!(ch.poll_recv(1, &first_waker), MpmcRecvStep::Pending);
    assert_eq!(
        ch.poll_recv(1, &migrated_waker),
        MpmcRecvStep::Pending,
        "the replacement waker reuses the same admitted waiter slot"
    );
    ch.remove_receiver(1);
    assert_eq!(
        ch.poll_recv(2, &first_waker),
        MpmcRecvStep::Pending,
        "dropping after waker migration removes the replacement registration"
    );
}

#[test]
fn cancelling_one_of_two_same_task_waiters_preserves_the_other_wake() {
    let mut ch = MpmcChannel::<u32, 1, 2>::new();
    let (count, shared_waker) = task_waker();
    assert_eq!(ch.poll_recv(1, &shared_waker), MpmcRecvStep::Pending);
    assert_eq!(ch.poll_recv(2, &shared_waker), MpmcRecvStep::Pending);
    ch.remove_receiver(1);
    assert_eq!(ch.try_send(7), Ok(()));
    assert_eq!(wakes(&count), 1, "the surviving future retains an independent wake registration");
    assert_eq!(ch.poll_recv(2, &shared_waker), MpmcRecvStep::Ready(Ok(Some(7))));
}

#[test]
fn send_distinguishes_full_from_closed_and_returns_undelivered_value() {
    let mut ch = MpmcChannel::<u32, 1, 1>::new();
    assert_eq!(ch.try_send_checked(1), Ok(()));
    assert_eq!(ch.try_send_checked(2), Err(MpmcTrySendError::Full(2)));
    let (_c, waker) = task_waker();
    assert_eq!(ch.poll_send(1, 42, &waker), MpmcSendStep::Pending(42));
    ch.close();
    assert_eq!(ch.poll_send(1, 42, &waker), MpmcSendStep::Ready(Err(MpmcSendError::Closed(42))));
    assert_eq!(ch.try_send_checked(3), Err(MpmcTrySendError::Closed(3)));
}

#[test]
fn send_waiter_exhaustion_returns_the_value() {
    let mut ch = MpmcChannel::<u32, 1, 1>::new();
    let (_c0, w0) = task_waker();
    let (_c1, w1) = task_waker();
    assert_eq!(ch.try_send(1), Ok(()));
    assert_eq!(ch.poll_send(1, 5, &w0), MpmcSendStep::Pending(5));
    assert_eq!(ch.poll_send(2, 6, &w1), MpmcSendStep::Ready(Err(MpmcSendError::WaitersFull(6))));
    assert_eq!(MpmcSendError::WaitersFull(6).into_inner(), 6);
    assert_eq!(MpmcTrySendError::Full(9).into_inner(), 9);
    assert_eq!(ch.try_recv(), Some(1));
    assert_eq!(ch.try_recv(), None);
    assert!(ch.is_empty());
}

#[test]
fn task_group_cancels_all_members_and_joins() {
    let mut group = TaskGroup::<3>::new();
    let mut members = Vec::new();
    for registration in 1..=3usize {
        let index = group.join_member().unwrap();
        let (count, waker) = task_waker();
        assert_eq!(group.poll_cancelled(registration, &waker), None);
        members.push((index, registration, count, waker));
    }
    assert!(!group.all_done(), "members parked on the group token");
    group.cancel_all();
    let mut cancelled = 0;
    for (index, registration, count, waker) in members.iter() {
        assert_eq!(wakes(count), 1);
        assert_eq!(group.poll_cancelled(*registration, waker), Some(Ok(())));
        cancelled += 1;
        group.mark_done(*index);
    }
    assert_eq!(cancelled, 3);
    assert!(group.is_cancelled());
    assert!(group.all_done(), "group join satisfied after cancel");
}

#[test]
fn dropping_group_cancellation_future_releases_its_waiter_slot() {
    let mut group = TaskGroup::<1>::new();
    assert_eq!(group.join_member(), Ok(0));
    let (_c0, first_waker) = task_waker();
    let (_c1, replacement_waker) = task_waker();
    assert_eq!(group.poll_cancelled(1, &first_waker), None);
    group.remove_waiter(1);
    assert_eq!(group.poll_cancelled(2, &replacement_waker), None);
    group.cancel_all();
    assert_eq!(group.poll_cancelled(2, &replacement_waker), Some(Ok(())));
}

#[test]
fn group_cancellation_waiter_overflow_is_typed() {
    let mut group = TaskGroup::<1>::new();
    assert_eq!(group.join_member(), Ok(0));
    let (_c0, first_waker) = task_waker();
    let (_c1, second_waker) = task_waker();
    assert_eq!(group.poll_cancelled(1, &first_waker), None);
    assert_eq!(group.poll_cancelled(2, &second_waker), Some(Err(WaitError::WaitersFull)));
}

#[test]
fn group_membership_is_bounded_and_attributed() {
    let mut group = TaskGroup::<1>::new();
    assert_eq!(group.join_member(), Ok(0));
    assert_eq!(group.join_member(), Err(WaitError::WaitersFull));
}

#[test]
fn group_mark_done_past_the_bound_is_ignored() {
    let mut group = TaskGroup::<2>::new();
    assert_eq!(group.join_member(), Ok(0));
    group.mark_done(5);
    assert!(!group.all_done());
    group.mark_done(0);
    assert!(group.all_done());
}
