use nobro_kernel::{
    admit_reactor_domains, AsyncDeadline, DeadlineContractError, DeadlineFault,
    DeadlineFaultKind, FaultSource, InterruptProfile, KernelError, ReactorAdmissionError,
    ReactorAdmissionPlan, ReactorChannelContract, ReactorDomainContract, ReactorPriorityBinding,
    ReactorPriorityError, ReactorRuntimeDomain, ReactorRuntimeError, ReactorRuntimeSet, ModuleId, Either,
    SleepStep, TimerQueue, CancelToken, Channel, Signal, ReactorExecutor, ReactorTask,
};
use std::cell::{Cell, RefCell};
use std::sync::atomic::AtomicU32;
use std::sync::Arc;
use std::task::{Wake, Waker};

fn soft_device_profile() -> InterruptProfile {
    InterruptProfile::new(8, 4, 0b0001_0011)
}

fn bare_profile() -> InterruptProfile {
    InterruptProfile::new(8, 4, 0)
}

#[test]
fn reactor_domain_admission_surfaces_cross_domain_channels() {
    let control = ReactorDomainContract::new(0, 0)
        .task_slots(4)
        .timer_slots(2)
        .fuel_per_cycle(4);
    let telemetry = ReactorDomainContract::new(1, 3)
        .task_slots(8)
        .timer_slots(4)
        .fuel_per_cycle(8);
    let plan = admit_reactor_domains::<2, 2>(
        [Some(control), Some(telemetry)],
        [
            Some(ReactorChannelContract::new(0, 1, 4).waiter_slots(4)),
            Some(ReactorChannelContract::new(1, 1, 2)),
        ],
    )
    .unwrap();

    assert_eq!(plan.domain_len, 2);
    assert_eq!(plan.channel_len, 2);
    assert_eq!(plan.cross_domain_len, 1);
    assert_eq!(plan.domain(0), Some(&control));
    assert_eq!(
        plan.cross_domain_channels().first().copied(),
        Some(ReactorChannelContract::new(0, 1, 4).waiter_slots(4))
    );
    assert_eq!(plan.cross_domain_channels().len(), 1);
}

#[test]
fn reactor_domain_admission_rejects_invalid_domains_and_channels() {
    let domain = ReactorDomainContract::new(0, 0).task_slots(1);
    assert_eq!(
        admit_reactor_domains::<0, 0>([], []),
        Err(ReactorAdmissionError::EmptyDomains)
    );
    assert_eq!(
        admit_reactor_domains::<2, 0>([Some(domain), Some(ReactorDomainContract::new(0, 1))], []),
        Err(ReactorAdmissionError::DuplicateDomain(0))
    );
    assert_eq!(
        admit_reactor_domains::<1, 0>([Some(ReactorDomainContract::new(2, 0).task_slots(33))], []),
        Err(ReactorAdmissionError::InvalidTaskSlots { domain: 2, task_slots: 33 })
    );
    assert_eq!(
        admit_reactor_domains::<1, 0>([Some(ReactorDomainContract::new(3, 0).fuel_per_cycle(0))], []),
        Err(ReactorAdmissionError::InvalidFuel { domain: 3 })
    );
    assert_eq!(
        admit_reactor_domains::<1, 1>([Some(domain)], [Some(ReactorChannelContract::new(0, 1, 1))]),
        Err(ReactorAdmissionError::UnknownChannelDomain { index: 0, domain: 1 })
    );
    assert_eq!(
        admit_reactor_domains::<1, 1>([Some(domain)], [Some(ReactorChannelContract::new(0, 0, 0))]),
        Err(ReactorAdmissionError::InvalidChannelCapacity { index: 0 })
    );
    assert_eq!(
        admit_reactor_domains::<1, 1>(
            [Some(domain)],
            [Some(ReactorChannelContract::new(0, 0, 1).waiter_slots(0))],
        ),
        Err(ReactorAdmissionError::InvalidWaiterSlots { index: 0 })
    );
    assert_eq!(
        admit_reactor_domains::<2, 1>(
            [Some(domain), Some(ReactorDomainContract::new(1, 1))],
            [Some(ReactorChannelContract::new(0, 1, 1).waiter_slots(1))],
        ),
        Err(ReactorAdmissionError::InvalidWaiterSlots { index: 0 })
    );
}

#[test]
fn reactor_priorities_bind_through_the_p_isr_profile() {
    let reactor = admit_reactor_domains::<2, 1>(
        [
            Some(ReactorDomainContract::new(7, 0).task_slots(4)),
            Some(ReactorDomainContract::new(9, 3).task_slots(2)),
        ],
        [Some(ReactorChannelContract::new(7, 9, 4).waiter_slots(4))],
    )
    .unwrap();
    let mapped = reactor
        .bind_interrupt_priorities(
            [Some(ReactorPriorityBinding::new(7, 2)), Some(ReactorPriorityBinding::new(9, 6))],
            soft_device_profile(),
        )
        .unwrap();
    assert_eq!(mapped.binding_len, 2);
    assert_eq!(mapped.binding(7), Some(ReactorPriorityBinding::new(7, 2)));
    assert_eq!(mapped.binding(8), None);
    assert_eq!(mapped.bindings().len(), 2);
    assert_eq!(mapped.reactor.cross_domain_len, 1);
    assert_eq!(mapped.interrupt_profile, soft_device_profile());
}

fn two_domain_plan() -> ReactorAdmissionPlan<2, 0> {
    admit_reactor_domains(
        [Some(ReactorDomainContract::new(0, 0)), Some(ReactorDomainContract::new(1, 3))],
        [],
    )
    .unwrap()
}

#[test]
fn reactor_priority_mapping_rejects_unsafe_target_bindings() {
    let b = ReactorPriorityBinding::new;
    assert_eq!(
        two_domain_plan().bind_interrupt_priorities([Some(b(0, 1)), Some(b(1, 6))], soft_device_profile()),
        Err(ReactorPriorityError::ReservedPriority { domain: 0, priority: 1 })
    );
    assert_eq!(
        two_domain_plan().bind_interrupt_priorities([Some(b(0, 2)), Some(b(1, 8))], bare_profile()),
        Err(ReactorPriorityError::PriorityOutOfRange { domain: 1, priority: 8, priority_levels: 8 })
    );
    assert_eq!(
        two_domain_plan().bind_interrupt_priorities([Some(b(0, 2)), Some(b(0, 3))], bare_profile()),
        Err(ReactorPriorityError::DuplicateDomainBinding { domain: 0 })
    );
    assert_eq!(
        two_domain_plan().bind_interrupt_priorities([Some(b(0, 2)), None], bare_profile()),
        Err(ReactorPriorityError::MissingDomainBinding { domain: 1 })
    );
    assert_eq!(
        two_domain_plan().bind_interrupt_priorities([Some(b(0, 2)), Some(b(1, 2))], bare_profile()),
        Err(ReactorPriorityError::DuplicatePriority { priority: 2, first_domain: 0, duplicate_domain: 1 })
    );
    assert_eq!(
        two_domain_plan().bind_interrupt_priorities([Some(b(0, 6)), Some(b(1, 2))], bare_profile()),
        Err(ReactorPriorityError::PriorityOrderMismatch { more_urgent_domain: 0, less_urgent_domain: 1 })
    );
    assert_eq!(
        two_domain_plan().bind_interrupt_priorities([Some(b(0, 2)), Some(b(3, 6))], bare_profile()),
        Err(ReactorPriorityError::UnknownDomain { domain: 3 })
    );
    assert_eq!(
        two_domain_plan().bind_interrupt_priorities([Some(b(0, 2)), Some(b(1, 6))], InterruptProfile::new(0, 1, 0)),
        Err(ReactorPriorityError::InvalidInterruptProfile { priority_levels: 0, max_nesting: 1 })
    );
    assert_eq!(
        two_domain_plan().bind_interrupt_priorities([Some(b(0, 2)), Some(b(1, 6))], InterruptProfile::new(8, 1, 0)),
        Err(ReactorPriorityError::NestingExceeded { domains: 2, max_nesting: 1 })
    );
    let duplicate_band = admit_reactor_domains::<2, 0>(
        [Some(ReactorDomainContract::new(0, 4)), Some(ReactorDomainContract::new(1, 4))],
        [],
    )
    .unwrap();
    assert_eq!(
        duplicate_band.bind_interrupt_priorities([Some(b(0, 2)), Some(b(1, 6))], bare_profile()),
        Err(ReactorPriorityError::DuplicatePriorityBand { priority_band: 4, first_domain: 0, duplicate_domain: 1 })
    );
}

#[test]
fn deadline_contract_rejects_each_invalid_shape() {
    assert_eq!(AsyncDeadline::new(0, 0, 1), Err(DeadlineContractError::ZeroPeriod));
    assert_eq!(AsyncDeadline::new(0, 10, 0), Err(DeadlineContractError::ZeroDeadline));
    assert_eq!(AsyncDeadline::new(0, 100, 101), Err(DeadlineContractError::DeadlineExceedsPeriod));
    assert_eq!(
        AsyncDeadline::new(u64::MAX, 100, 50),
        Err(DeadlineContractError::AbsoluteDeadlineOverflow)
    );
    let d = AsyncDeadline::new(5, 100, 50).unwrap();
    assert_eq!(d.absolute_deadline_us, 55);
}

#[test]
fn deadline_faults_map_to_health_faults() {
    let d = AsyncDeadline::new(5, 100, 50).unwrap();
    let missed = DeadlineFault::missed(d).health_fault();
    assert_eq!(missed.error, KernelError::DeadlineMissed);
    assert_eq!(missed.context.source, FaultSource::Scheduler);
    assert_eq!(missed.context.code, 1);
    assert_eq!(missed.context.detail0, 55);
    assert_eq!(missed.context.detail1, 50);
    let timer = DeadlineFault::timer_unavailable(d).health_fault();
    assert_eq!(timer.error, KernelError::QuotaBreach);
    assert_eq!(timer.context.code, 2);
    let invalid = DeadlineFault::invalid(DeadlineContractError::ZeroPeriod);
    assert_eq!(invalid.kind, DeadlineFaultKind::InvalidContract(DeadlineContractError::ZeroPeriod));
    assert_eq!(invalid.health_fault().context.code, 3);
    assert_eq!(invalid.health_fault().error, KernelError::QuotaBreach);
}

#[test]
fn runtime_set_links_domains_to_modules_and_refuses_a_foreign_core() {
    let control = ReactorDomainContract::new(0, 0).task_slots(1).timer_slots(1).fuel_per_cycle(3);
    let telemetry = ReactorDomainContract::new(1, 3).task_slots(1).timer_slots(1).fuel_per_cycle(1);
    let control_runtime = ReactorRuntimeDomain::new(0, 1, 1, 0x1000, 0x2000);
    let telemetry_runtime = ReactorRuntimeDomain::new(1, 1, 1, 0x3000, 0x4000);
    assert_eq!(control_runtime.id(), 0);
    assert_eq!(control_runtime.task_slots(), 1);
    assert_eq!(control_runtime.timer_slots(), 1);
    let set = ReactorRuntimeSet::<2>::from_bound(
        [
            Some(ReactorRuntimeSet::<2>::bind_domain(control, ModuleId::App(1), control_runtime)),
            Some(ReactorRuntimeSet::<2>::bind_domain(telemetry, ModuleId::App(2), telemetry_runtime)),
        ],
        2,
    );
    assert_eq!(set.len(), 2);
    assert!(!set.is_empty());
    assert_eq!(set.module_for_domain(0), Some(ModuleId::App(1)));
    assert_eq!(set.module_for_domain(1), Some(ModuleId::App(2)));
    assert_eq!(set.module_for_domain(7), None);
    assert_eq!(set.fuel_for_module(ModuleId::App(1)), Some(3));
    assert_eq!(set.fuel_for_module(ModuleId::Radio), None);
    let ready = AtomicU32::new(0);
    let mut unrelated = ReactorExecutor::<Idle, 1>::bind(&ready, 0x3000);
    assert_eq!(
        set.run_domain(ModuleId::App(1), &mut unrelated),
        Err(ReactorRuntimeError::CoreMismatch { domain: 0 })
    );
    let control_ready = AtomicU32::new(0);
    let mut control = ReactorExecutor::<Idle, 1>::bind(&control_ready, 0x1000);
    control.spawn(Idle).unwrap();
    let stats = set.run_domain(ModuleId::App(1), &mut control).unwrap();
    assert_eq!((stats.polled, stats.live), (1, 1));
    assert_eq!(
        set.run_domain(ModuleId::Radio, &mut control),
        Err(ReactorRuntimeError::UnknownModule { module: ModuleId::Radio })
    );
}

/// Never finishes and never wakes itself.
struct Idle;

impl ReactorTask for Idle {
    fn poll_ready(&mut self, _index: usize) -> bool {
        false
    }
}

#[test]
fn either_keeps_which_side_won() {
    let first: Either<u8, u16> = Either::First(7);
    assert_eq!(first, Either::First(7));
    assert_ne!(first, Either::Second(7));
}

struct WakeCount(AtomicU32);

impl Wake for WakeCount {
    fn wake(self: Arc<Self>) {
        self.0.fetch_add(1, std::sync::atomic::Ordering::SeqCst);
    }
}

fn counted_waker() -> (Arc<WakeCount>, Waker) {
    let count = Arc::new(WakeCount(AtomicU32::new(0)));
    (count.clone(), Waker::from(count))
}

#[test]
fn timer_queue_fires_due_sleeps_and_reports_the_next_deadline() {
    let mut timers = TimerQueue::<2>::new();
    let (count, waker) = counted_waker();
    assert_eq!(timers.next_deadline_us(), None);
    assert_eq!(timers.poll_sleep(None, 1_000, &waker), SleepStep::Pending(0));
    assert_eq!(timers.poll_sleep(None, 400, &waker), SleepStep::Pending(1));
    assert_eq!(timers.poll_sleep(None, 50, &waker), SleepStep::Ready(false), "no free timer slot");
    assert_eq!(timers.next_deadline_us(), Some(400));
    assert_eq!(timers.advance(399), 0);
    assert_eq!(timers.poll_sleep(Some(1), 400, &waker), SleepStep::Pending(1));
    assert_eq!(timers.advance(400), 1);
    assert_eq!(count.0.load(std::sync::atomic::Ordering::SeqCst), 1);
    assert_eq!(timers.advance(500), 0, "a fired timer fires once");
    assert_eq!(timers.next_deadline_us(), Some(1_000));
    assert_eq!(timers.poll_sleep(Some(1), 400, &waker), SleepStep::Ready(true));
    timers.release(0);
    assert_eq!(timers.next_deadline_us(), None);
    assert_eq!(timers.poll_sleep(Some(0), 1_000, &waker), SleepStep::Ready(true), "a freed slot resolves");
    assert_eq!(timers.poll_sleep(None, 7, &waker), SleepStep::Pending(0));
}

#[test]
fn channel_parks_each_side_and_wakes_it_on_progress() {
    let mut ch = Channel::<u32, 1>::new();
    let (rx_count, rx_waker) = counted_waker();
    let (tx_count, tx_waker) = counted_waker();
    assert_eq!(ch.poll_recv(&rx_waker), None, "receiver parks on an empty channel");
    assert_eq!(ch.poll_send(5, &tx_waker), Ok(()));
    assert_eq!(rx_count.0.load(std::sync::atomic::Ordering::SeqCst), 1, "delivery wakes the receiver");
    assert_eq!(ch.poll_send(6, &tx_waker), Err(6), "sender parks on a full channel");
    assert_eq!(ch.try_send(7), Err(7));
    assert_eq!(ch.len(), 1);
    assert_eq!(ch.poll_recv(&rx_waker), Some(5));
    assert_eq!(tx_count.0.load(std::sync::atomic::Ordering::SeqCst), 1, "space wakes the sender");
    assert!(ch.is_empty());
    assert_eq!(ch.try_recv(), None);
}

#[test]
fn signal_is_sticky_and_cancel_token_is_idempotent() {
    let (count, waker) = counted_waker();
    let mut signal = Signal::new();
    assert!(!signal.poll_wait(&waker));
    signal.notify();
    assert_eq!(count.0.load(std::sync::atomic::Ordering::SeqCst), 1);
    signal.notify();
    assert!(signal.poll_wait(&waker), "a notification waits for the next waiter");
    assert!(!signal.poll_wait(&waker), "and is consumed once");

    let mut token = CancelToken::new();
    assert!(!token.is_cancelled());
    assert!(!token.poll_cancelled(&waker));
    token.cancel();
    token.cancel();
    assert!(token.is_cancelled());
    assert!(token.poll_cancelled(&waker));
    assert_eq!(count.0.load(std::sync::atomic::Ordering::SeqCst), 2, "cancelling twice wakes the parked waiter once");
}

#[test]
fn reactor_priority_mapping_property_grid_preserves_urgency() {
    let allowed = [2u8, 3, 6, 7];
    for seed in 0..256u32 {
        let left_band = ((seed * 17 + 3) & 0x7f) as u8;
        let right_band = left_band.saturating_add(1);
        let lower_index = seed as usize % (allowed.len() - 1);
        let higher_index = lower_index + 1;
        let reactor = admit_reactor_domains::<2, 0>(
            [Some(ReactorDomainContract::new(10, left_band)), Some(ReactorDomainContract::new(11, right_band))],
            [],
        )
        .unwrap();
        let mapped = reactor
            .bind_interrupt_priorities(
                [
                    Some(ReactorPriorityBinding::new(10, allowed[lower_index])),
                    Some(ReactorPriorityBinding::new(11, allowed[higher_index])),
                ],
                soft_device_profile(),
            )
            .unwrap();
        assert!(mapped.binding(10).unwrap().logical_priority < mapped.binding(11).unwrap().logical_priority);

        let inverted = mapped.reactor.bind_interrupt_priorities(
            [
                Some(ReactorPriorityBinding::new(10, allowed[higher_index])),
                Some(ReactorPriorityBinding::new(11, allowed[lower_index])),
            ],
            soft_device_profile(),
        );
        assert_eq!(
            inverted,
            Err(ReactorPriorityError::PriorityOrderMismatch { more_urgent_domain: 10, less_urgent_domain: 11 })
        );
    }
}

/// Sets the ready bit of one reactor slot, as that slot's waker.
struct ReadyBit {
    ready: Arc<AtomicU32>,
    index: usize,
}

impl Wake for ReadyBit {
    fn wake(self: Arc<Self>) {
        self.ready.fetch_or(1 << self.index, std::sync::atomic::Ordering::AcqRel);
    }
}

fn slot_waker(ready: &Arc<AtomicU32>, index: usize) -> Waker {
    Waker::from(Arc::new(ReadyBit { ready: ready.clone(), index }))
}

/// Sends `values` in order through a one-producer channel.
struct Producer<'c> {
    channel: &'c RefCell<Channel<u32, 1>>,
    ready: Arc<AtomicU32>,
    values: Vec<u32>,
    next: usize,
    held: Option<u32>,
}

impl ReactorTask for Producer<'_> {
    fn poll_ready(&mut self, index: usize) -> bool {
        let waker = slot_waker(&self.ready, index);
        loop {
            let value = match self.held.take() {
                Some(value) => value,
                None if self.next < self.values.len() => {
                    self.next += 1;
                    self.values[self.next - 1]
                }
                None => return true,
            };
            let step = self.channel.borrow_mut().poll_send(value, &waker);
            if let Err(value) = step {
                self.held = Some(value);
                return false;
            }
        }
    }
}

/// Receives `wanted` values, summing them.
struct Consumer<'c> {
    channel: &'c RefCell<Channel<u32, 1>>,
    ready: Arc<AtomicU32>,
    wanted: u32,
    received: &'c Cell<u32>,
    sum: &'c Cell<u32>,
}

impl ReactorTask for Consumer<'_> {
    fn poll_ready(&mut self, index: usize) -> bool {
        let waker = slot_waker(&self.ready, index);
        while self.received.get() < self.wanted {
            let step = self.channel.borrow_mut().poll_recv(&waker);
            match step {
                Some(value) => {
                    self.sum.set(self.sum.get() + value);
                    self.received.set(self.received.get() + 1);
                }
                None => return false,
            }
        }
        true
    }
}

enum ChannelTask<'c> {
    Send(Producer<'c>),
    Receive(Consumer<'c>),
}

impl ReactorTask for ChannelTask<'_> {
    fn poll_ready(&mut self, index: usize) -> bool {
        match self {
            ChannelTask::Send(task) => task.poll_ready(index),
            ChannelTask::Receive(task) => task.poll_ready(index),
        }
    }
}

#[test]
fn full_channel_backpressures_and_resumes() {
    let channel = RefCell::new(Channel::<u32, 1>::new());
    let ready = Arc::new(AtomicU32::new(0));
    let received = Cell::new(0);
    let sum = Cell::new(0);
    let mut exec = ReactorExecutor::<ChannelTask, 2>::bind(&ready, 1);
    exec.spawn(ChannelTask::Send(Producer { channel: &channel, ready: ready.clone(), values: vec![1, 2, 3], next: 0, held: None }))
        .unwrap();
    exec.spawn(ChannelTask::Receive(Consumer { channel: &channel, ready: ready.clone(), wanted: 3, received: &received, sum: &sum }))
        .unwrap();
    for _ in 0..10 {
        exec.run_ready(8);
        if exec.live() == 0 {
            break;
        }
    }
    assert_eq!(exec.live(), 0, "both sides completed");
    assert_eq!(sum.get(), 6);
    assert!(channel.borrow().is_empty());
}

#[test]
fn channel_backpressure_is_stable_over_many_messages() {
    let n: u32 = 1000;
    let channel = RefCell::new(Channel::<u32, 1>::new());
    let ready = Arc::new(AtomicU32::new(0));
    let received = Cell::new(0);
    let sum = Cell::new(0);
    let mut exec = ReactorExecutor::<ChannelTask, 2>::bind(&ready, 1);
    exec.spawn(ChannelTask::Send(Producer {
        channel: &channel,
        ready: ready.clone(),
        values: (0..n).collect(),
        next: 0,
        held: None,
    }))
    .unwrap();
    exec.spawn(ChannelTask::Receive(Consumer { channel: &channel, ready: ready.clone(), wanted: n, received: &received, sum: &sum }))
        .unwrap();
    let mut cycles = 0u32;
    while exec.live() != 0 {
        exec.run_ready(8);
        cycles += 1;
        assert!(cycles < 100_000, "must terminate; a lost wake would hang");
    }
    assert_eq!(received.get(), n, "no message dropped");
    assert_eq!(sum.get(), n * (n - 1) / 2, "in-order sum");
    assert!(channel.borrow().is_empty());
}

/// Finishes once the token is cancelled.
struct AwaitCancel<'t> {
    token: &'t RefCell<CancelToken>,
    ready: Arc<AtomicU32>,
}

impl ReactorTask for AwaitCancel<'_> {
    fn poll_ready(&mut self, index: usize) -> bool {
        let waker = slot_waker(&self.ready, index);
        self.token.borrow_mut().poll_cancelled(&waker)
    }
}

#[test]
fn cancellation_races_are_safe_and_sticky() {
    let token = RefCell::new(CancelToken::new());
    let ready = Arc::new(AtomicU32::new(0));
    let mut exec = ReactorExecutor::<AwaitCancel, 1>::bind(&ready, 1);
    exec.spawn(AwaitCancel { token: &token, ready: ready.clone() }).unwrap();
    exec.run_ready(4);
    assert_eq!(exec.live(), 1);
    token.borrow_mut().cancel();
    token.borrow_mut().cancel();
    assert_eq!(exec.run_ready(4).completed, 1);
    assert!(token.borrow().is_cancelled());
}

/// Finishes once its sleep until `deadline_us` fires.
struct Sleeper<'q> {
    queue: &'q RefCell<TimerQueue<2>>,
    ready: Arc<AtomicU32>,
    deadline_us: u64,
    slot: Option<usize>,
}

impl ReactorTask for Sleeper<'_> {
    fn poll_ready(&mut self, index: usize) -> bool {
        let waker = slot_waker(&self.ready, index);
        let step = self.queue.borrow_mut().poll_sleep(self.slot, self.deadline_us, &waker);
        match step {
            SleepStep::Ready(fired) => {
                assert!(fired);
                self.slot = None;
                true
            }
            SleepStep::Pending(slot) => {
                self.slot = Some(slot);
                false
            }
        }
    }
}

#[test]
fn timers_fire_in_order_and_release_their_slots() {
    let queue = RefCell::new(TimerQueue::<2>::new());
    let ready = Arc::new(AtomicU32::new(0));
    let mut exec = ReactorExecutor::<Sleeper, 2>::bind(&ready, 1);
    exec.spawn(Sleeper { queue: &queue, ready: ready.clone(), deadline_us: 100, slot: None }).unwrap();
    exec.spawn(Sleeper { queue: &queue, ready: ready.clone(), deadline_us: 200, slot: None }).unwrap();
    exec.run_ready(8);
    assert_eq!(queue.borrow().next_deadline_us(), Some(100));

    queue.borrow_mut().advance(150);
    let stats = exec.run_ready(8);
    assert_eq!(stats.completed, 1);
    assert_eq!(queue.borrow().next_deadline_us(), Some(200));

    queue.borrow_mut().advance(u64::MAX);
    assert_eq!(exec.run_ready(8).completed, 1);
    assert_eq!(queue.borrow().next_deadline_us(), None);
    assert_eq!(exec.live(), 0);
}
