//! Contracts of the async reactor: deadline guards, fault mapping, and the
//! admission of reactor domains, channels, and interrupt-priority bindings.

use vstd::prelude::*;

use crate::error::{FaultContext, FaultSource, HealthFault, KernelError};
use crate::health::ModuleId;
use crate::reactor::{ReactorExecutor, ReactorTask};
use crate::waker::{waker_clone, waker_wake, waker_wake_by_ref};
use std::collections::VecDeque;
use core::task::Waker;
use crate::scan::{
    first_some, lemma_first_some_hit, lemma_first_some_none, lemma_first_some_none_all,
};

verus! {

#[derive(Clone, Copy, Debug, Default, PartialEq, Eq, Structural)]
pub struct ReactorStats {
    pub polled: u32,
    pub completed: u32,
    /// Live tasks remaining after the pass.
    pub live: u32,
    /// The fuel bound stopped the pass with ready work left (wake storm).
    pub fuel_exhausted: bool,
}

#[derive(Clone, Copy, Debug, PartialEq, Eq, Structural)]
pub enum ReactorError {
    Full,
}

#[derive(Clone, Copy, Debug, PartialEq, Eq, Structural)]
pub enum Either<A, B> {
    First(A),
    Second(B),
}

// -------------------------------------------------------- deadline guard

#[derive(Clone, Copy, Debug, PartialEq, Eq, Structural)]
pub enum DeadlineContractError {
    ZeroPeriod,
    ZeroDeadline,
    DeadlineExceedsPeriod,
    AbsoluteDeadlineOverflow,
}

#[derive(Clone, Copy, Debug, PartialEq, Eq, Structural)]
pub struct AsyncDeadline {
    pub phase_us: u64,
    pub period_us: u64,
    pub deadline_us: u64,
    pub absolute_deadline_us: u64,
}

impl AsyncDeadline {
    /// A constrained-deadline contract whose first absolute deadline is
    /// `phase_us + deadline_us`.
    pub fn new(phase_us: u64, period_us: u64, deadline_us: u64) -> (r: Result<Self, DeadlineContractError>)
        ensures
            period_us == 0 ==> r == Err::<Self, DeadlineContractError>(DeadlineContractError::ZeroPeriod),
            period_us != 0 && deadline_us == 0 ==> r == Err::<Self, DeadlineContractError>(DeadlineContractError::ZeroDeadline),
            period_us != 0 && deadline_us != 0 && deadline_us > period_us ==> r == Err::<Self, DeadlineContractError>(
                DeadlineContractError::DeadlineExceedsPeriod,
            ),
            period_us != 0 && deadline_us != 0 && deadline_us <= period_us && phase_us + deadline_us > u64::MAX
                ==> r == Err::<Self, DeadlineContractError>(DeadlineContractError::AbsoluteDeadlineOverflow),
            r is Ok <==> (period_us != 0 && deadline_us != 0 && deadline_us <= period_us && phase_us + deadline_us <= u64::MAX),
            r matches Ok(d) ==> d == (AsyncDeadline {
                phase_us,
                period_us,
                deadline_us,
                absolute_deadline_us: (phase_us + deadline_us) as u64,
            }),
    {
        if period_us == 0 {
            return Err(DeadlineContractError::ZeroPeriod);
        }
        if deadline_us == 0 {
            return Err(DeadlineContractError::ZeroDeadline);
        }
        if deadline_us > period_us {
            return Err(DeadlineContractError::DeadlineExceedsPeriod);
        }
        let Some(absolute_deadline_us) = phase_us.checked_add(deadline_us) else {
            return Err(DeadlineContractError::AbsoluteDeadlineOverflow);
        };
        Ok(AsyncDeadline { phase_us, period_us, deadline_us, absolute_deadline_us })
    }
}

#[derive(Clone, Copy, Debug, PartialEq, Eq, Structural)]
pub enum DeadlineFaultKind {
    InvalidContract(DeadlineContractError),
    TimerUnavailable,
    Missed,
}

#[derive(Clone, Copy, Debug, PartialEq, Eq, Structural)]
pub struct DeadlineFault {
    pub kind: DeadlineFaultKind,
    pub deadline: AsyncDeadline,
}

/// The all-zero deadline carried by a contract that never became valid.
pub open spec fn zero_deadline() -> AsyncDeadline {
    AsyncDeadline { phase_us: 0, period_us: 0, deadline_us: 0, absolute_deadline_us: 0 }
}

impl DeadlineFault {
    pub fn invalid(error: DeadlineContractError) -> (r: Self)
        ensures
            r == (DeadlineFault { kind: DeadlineFaultKind::InvalidContract(error), deadline: zero_deadline() }),
    {
        DeadlineFault {
            kind: DeadlineFaultKind::InvalidContract(error),
            deadline: AsyncDeadline { phase_us: 0, period_us: 0, deadline_us: 0, absolute_deadline_us: 0 },
        }
    }

    pub fn timer_unavailable(deadline: AsyncDeadline) -> (r: Self)
        ensures
            r == (DeadlineFault { kind: DeadlineFaultKind::TimerUnavailable, deadline }),
    {
        DeadlineFault { kind: DeadlineFaultKind::TimerUnavailable, deadline }
    }

    pub fn missed(deadline: AsyncDeadline) -> (r: Self)
        ensures
            r == (DeadlineFault { kind: DeadlineFaultKind::Missed, deadline }),
    {
        DeadlineFault { kind: DeadlineFaultKind::Missed, deadline }
    }

    /// Health fault for this deadline fault: a miss is a scheduler
    /// `DeadlineMissed` (code 1); a missing timer (code 2) or an invalid
    /// contract (code 3) is a kernel `QuotaBreach`. The details carry the low
    /// 32 bits of the absolute and relative deadlines.
    pub fn health_fault(self) -> (r: HealthFault)
        ensures
            r.error == (match self.kind {
                DeadlineFaultKind::Missed => KernelError::DeadlineMissed,
                _ => KernelError::QuotaBreach,
            }),
            r.context.source == (match self.kind {
                DeadlineFaultKind::Missed => FaultSource::Scheduler,
                _ => FaultSource::Kernel,
            }),
            r.context.code == (match self.kind {
                DeadlineFaultKind::Missed => 1u16,
                DeadlineFaultKind::TimerUnavailable => 2u16,
                DeadlineFaultKind::InvalidContract(_) => 3u16,
            }),
            r.context.detail0 == self.deadline.absolute_deadline_us as u32,
            r.context.detail1 == self.deadline.deadline_us as u32,
    {
        let (error, source, code) = match self.kind {
            DeadlineFaultKind::Missed => (KernelError::DeadlineMissed, FaultSource::Scheduler, 1u16),
            DeadlineFaultKind::TimerUnavailable => (KernelError::QuotaBreach, FaultSource::Kernel, 2u16),
            DeadlineFaultKind::InvalidContract(_) => (KernelError::QuotaBreach, FaultSource::Kernel, 3u16),
        };
        HealthFault::new(
            error,
            FaultContext::new(
                source,
                code,
                self.deadline.absolute_deadline_us as u32,
                self.deadline.deadline_us as u32,
            ),
        )
    }
}

// -------------------------------------------------------- reactor admission

/// Contract for one async reactor domain, driven by one admitted kernel task.
#[derive(Clone, Copy, Debug, PartialEq, Eq, Structural)]
pub struct ReactorDomainContract {
    pub id: u8,
    /// Lower numbers are more urgent; mapped to interrupt priorities only by
    /// an admitted priority plan.
    pub priority_band: u8,
    pub task_slots: u8,
    pub timer_slots: u8,
    pub fuel_per_cycle: u32,
}

impl ReactorDomainContract {
    pub fn new(id: u8, priority_band: u8) -> (r: Self)
        ensures
            r == (ReactorDomainContract { id, priority_band, task_slots: 1, timer_slots: 0, fuel_per_cycle: 1 }),
    {
        ReactorDomainContract { id, priority_band, task_slots: 1, timer_slots: 0, fuel_per_cycle: 1 }
    }

    pub fn task_slots(self, task_slots: u8) -> (r: Self)
        ensures
            r == (ReactorDomainContract { task_slots, ..self }),
    {
        ReactorDomainContract { task_slots, ..self }
    }

    pub fn timer_slots(self, timer_slots: u8) -> (r: Self)
        ensures
            r == (ReactorDomainContract { timer_slots, ..self }),
    {
        ReactorDomainContract { timer_slots, ..self }
    }

    pub fn fuel_per_cycle(self, fuel_per_cycle: u32) -> (r: Self)
        ensures
            r == (ReactorDomainContract { fuel_per_cycle, ..self }),
    {
        ReactorDomainContract { fuel_per_cycle, ..self }
    }
}

/// One bounded channel between reactor domains; cross-domain channels are
/// surfaced explicitly by admission.
#[derive(Clone, Copy, Debug, PartialEq, Eq, Structural)]
pub struct ReactorChannelContract {
    pub from_domain: u8,
    pub to_domain: u8,
    pub capacity: u8,
    pub waiter_slots: u8,
}

impl ReactorChannelContract {
    pub open spec fn crosses(self) -> bool {
        self.from_domain != self.to_domain
    }

    pub fn new(from_domain: u8, to_domain: u8, capacity: u8) -> (r: Self)
        ensures
            r == (ReactorChannelContract { from_domain, to_domain, capacity, waiter_slots: 2 }),
    {
        ReactorChannelContract { from_domain, to_domain, capacity, waiter_slots: 2 }
    }

    pub fn waiter_slots(self, waiter_slots: u8) -> (r: Self)
        ensures
            r == (ReactorChannelContract { waiter_slots, ..self }),
    {
        ReactorChannelContract { waiter_slots, ..self }
    }

    pub fn is_cross_domain(self) -> (r: bool)
        ensures
            r == self.crosses(),
    {
        self.from_domain != self.to_domain
    }
}

#[derive(Clone, Copy, Debug, PartialEq, Eq, Structural)]
pub enum ReactorAdmissionError {
    EmptyDomains,
    DuplicateDomain(u8),
    InvalidTaskSlots { domain: u8, task_slots: u8 },
    InvalidFuel { domain: u8 },
    InvalidChannelCapacity { index: usize },
    InvalidWaiterSlots { index: usize },
    UnknownChannelDomain { index: usize, domain: u8 },
}

#[derive(Clone, Copy, Debug, PartialEq, Eq)]
pub struct ReactorAdmissionPlan<const D: usize, const C: usize> {
    pub domains: [Option<ReactorDomainContract>; D],
    pub channels: [Option<ReactorChannelContract>; C],
    pub cross_domain_channels: [Option<ReactorChannelContract>; C],
    pub domain_len: usize,
    pub channel_len: usize,
    pub cross_domain_len: usize,
}

/// The present entries of an optional slot sequence, in slot order.
pub open spec fn somes<T>(s: Seq<Option<T>>) -> Seq<T>
    decreases s.len(),
{
    if s.len() == 0 {
        Seq::empty()
    } else {
        let prev = somes(s.drop_last());
        match s.last() {
            Some(v) => prev.push(v),
            None => prev,
        }
    }
}

/// The present channels that cross domains, in slot order.
pub open spec fn crossing(s: Seq<Option<ReactorChannelContract>>) -> Seq<ReactorChannelContract>
    decreases s.len(),
{
    if s.len() == 0 {
        Seq::empty()
    } else {
        let prev = crossing(s.drop_last());
        match s.last() {
            Some(c) => if c.crosses() {
                prev.push(c)
            } else {
                prev
            },
            None => prev,
        }
    }
}

pub open spec fn domain_fault(d: ReactorDomainContract) -> Option<ReactorAdmissionError> {
    if d.task_slots == 0 || d.task_slots > 32 {
        Some(ReactorAdmissionError::InvalidTaskSlots { domain: d.id, task_slots: d.task_slots })
    } else if d.fuel_per_cycle == 0 {
        Some(ReactorAdmissionError::InvalidFuel { domain: d.id })
    } else {
        None
    }
}

/// The fault of the first faulty present domain among the first `k` slots.
pub open spec fn first_domain_fault(s: Seq<Option<ReactorDomainContract>>, k: int) -> Option<ReactorAdmissionError>
    decreases k,
{
    if k <= 0 {
        None
    } else if first_domain_fault(s, k - 1) is Some {
        first_domain_fault(s, k - 1)
    } else {
        match s[k - 1] {
            Some(d) => domain_fault(d),
            None => None,
        }
    }
}

/// A present domain in slot `q > p` repeats the id of slot `p`.
pub open spec fn repeated_later(s: Seq<Option<ReactorDomainContract>>, p: int) -> bool {
    exists|q: int|
        p < q < s.len() && #[trigger] s[q] is Some && s[q].unwrap().id == s[p].unwrap().id
}

/// The id of the first present domain, among the first `k` slots, that is repeated later.
pub open spec fn first_duplicate(s: Seq<Option<ReactorDomainContract>>, k: int) -> Option<u8>
    decreases k,
{
    if k <= 0 {
        None
    } else if first_duplicate(s, k - 1) is Some {
        first_duplicate(s, k - 1)
    } else if s[k - 1] is Some && repeated_later(s, k - 1) {
        Some(s[k - 1].unwrap().id)
    } else {
        None
    }
}

/// Some present domain has this id.
pub open spec fn known_domain(s: Seq<Option<ReactorDomainContract>>, id: u8) -> bool {
    exists|p: int| 0 <= p < s.len() && #[trigger] s[p] is Some && s[p].unwrap().id == id
}

pub open spec fn channel_fault(c: ReactorChannelContract, index: int, ds: Seq<Option<ReactorDomainContract>>) -> Option<ReactorAdmissionError> {
    if c.capacity == 0 {
        Some(ReactorAdmissionError::InvalidChannelCapacity { index: index as usize })
    } else if c.waiter_slots == 0 || (c.crosses() && c.waiter_slots < 2) {
        Some(ReactorAdmissionError::InvalidWaiterSlots { index: index as usize })
    } else if !known_domain(ds, c.from_domain) {
        Some(ReactorAdmissionError::UnknownChannelDomain { index: index as usize, domain: c.from_domain })
    } else if !known_domain(ds, c.to_domain) {
        Some(ReactorAdmissionError::UnknownChannelDomain { index: index as usize, domain: c.to_domain })
    } else {
        None
    }
}

/// The fault of the first faulty present channel among the first `k` slots.
pub open spec fn first_channel_fault(cs: Seq<Option<ReactorChannelContract>>, ds: Seq<Option<ReactorDomainContract>>, k: int) -> Option<ReactorAdmissionError>
    decreases k,
{
    if k <= 0 {
        None
    } else if first_channel_fault(cs, ds, k - 1) is Some {
        first_channel_fault(cs, ds, k - 1)
    } else {
        match cs[k - 1] {
            Some(c) => channel_fault(c, k - 1, ds),
            None => None,
        }
    }
}

/// What admission refuses first: domain faults, then emptiness, then duplicate ids,
/// then channel faults.
pub open spec fn reactor_verdict(ds: Seq<Option<ReactorDomainContract>>, cs: Seq<Option<ReactorChannelContract>>) -> Result<(), ReactorAdmissionError> {
    match first_domain_fault(ds, ds.len() as int) {
        Some(e) => Err(e),
        None => if somes(ds).len() == 0 {
            Err(ReactorAdmissionError::EmptyDomains)
        } else {
            match first_duplicate(ds, ds.len() as int) {
                Some(id) => Err(ReactorAdmissionError::DuplicateDomain(id)),
                None => match first_channel_fault(cs, ds, cs.len() as int) {
                    Some(e) => Err(e),
                    None => Ok(()),
                },
            }
        },
    }
}

impl<const D: usize, const C: usize> ReactorAdmissionPlan<D, C> {
    pub open spec fn wf(self) -> bool {
        &&& self.cross_domain_len <= C
        &&& forall|i: int| 0 <= i < self.cross_domain_len ==> #[trigger] self.cross_domain_channels@[i] is Some
        &&& forall|i: int| self.cross_domain_len <= i < C ==> #[trigger] self.cross_domain_channels@[i] is None
    }

    pub fn domains(&self) -> (r: Vec<ReactorDomainContract>)
        ensures
            r@ == somes(self.domains@),
    {
        collect_somes(&self.domains)
    }

    pub fn channels(&self) -> (r: Vec<ReactorChannelContract>)
        ensures
            r@ == somes(self.channels@),
    {
        collect_somes(&self.channels)
    }

    pub fn cross_domain_channels(&self) -> (r: Vec<ReactorChannelContract>)
        ensures
            r@ == somes(self.cross_domain_channels@),
    {
        collect_somes(&self.cross_domain_channels)
    }

    /// The first present domain with `id`.
    pub fn domain(&self, id: u8) -> (r: Option<&ReactorDomainContract>)
        ensures
            r is None <==> !known_domain(self.domains@, id),
            r matches Some(d) ==> d.id == id && exists|p: int|
                0 <= p < D && self.domains@[p] == Some(*d) && forall|q: int|
                    0 <= q < p ==> !(#[trigger] self.domains@[q] matches Some(e) && e.id == id),
    {
        let mut i: usize = 0;
        while i < D
            invariant
                i <= D,
                forall|q: int| 0 <= q < i ==> !(#[trigger] self.domains@[q] matches Some(e) && e.id == id),
            decreases D - i,
        {
            match &self.domains[i] {
                Some(d) => {
                    if d.id == id {
                        return Some(d);
                    }
                },
                None => {},
            }
            i += 1;
        }
        None
    }
}

// -------------------------------------------------------- interrupt priorities

/// The interrupt-priority facts of a target: how many logical levels exist
/// (zero most urgent), how deeply handlers may nest, and which levels are
/// reserved (bit `p` set reserves level `p`).
#[derive(Clone, Copy, Debug, PartialEq, Eq, Structural)]
pub struct InterruptProfile {
    pub priority_levels: u8,
    pub max_nesting: u8,
    pub reserved_priorities: u8,
}

impl InterruptProfile {
    pub fn new(priority_levels: u8, max_nesting: u8, reserved_priorities: u8) -> (r: Self)
        ensures
            r == (InterruptProfile { priority_levels, max_nesting, reserved_priorities }),
    {
        InterruptProfile { priority_levels, max_nesting, reserved_priorities }
    }
}

/// Explicit target binding for one portable reactor urgency domain;
/// `logical_priority` zero is most urgent.
#[derive(Clone, Copy, Debug, PartialEq, Eq, Structural)]
pub struct ReactorPriorityBinding {
    pub domain: u8,
    pub logical_priority: u8,
}

impl ReactorPriorityBinding {
    pub fn new(domain: u8, logical_priority: u8) -> (r: Self)
        ensures
            r == (ReactorPriorityBinding { domain, logical_priority }),
    {
        ReactorPriorityBinding { domain, logical_priority }
    }
}

#[derive(Clone, Copy, Debug, PartialEq, Eq, Structural)]
pub enum ReactorPriorityError {
    InvalidInterruptProfile { priority_levels: u8, max_nesting: u8 },
    UnknownDomain { domain: u8 },
    DuplicateDomainBinding { domain: u8 },
    MissingDomainBinding { domain: u8 },
    PriorityOutOfRange { domain: u8, priority: u8, priority_levels: u8 },
    ReservedPriority { domain: u8, priority: u8 },
    DuplicatePriority { priority: u8, first_domain: u8, duplicate_domain: u8 },
    DuplicatePriorityBand { priority_band: u8, first_domain: u8, duplicate_domain: u8 },
    PriorityOrderMismatch { more_urgent_domain: u8, less_urgent_domain: u8 },
    NestingExceeded { domains: usize, max_nesting: u8 },
}

/// A reactor plan whose urgency domains are bound to target logical interrupt
/// priorities.
#[derive(Clone, Copy, Debug, PartialEq, Eq)]
pub struct ReactorPriorityPlan<const D: usize, const C: usize> {
    pub reactor: ReactorAdmissionPlan<D, C>,
    pub bindings: [Option<ReactorPriorityBinding>; D],
    pub binding_len: usize,
    pub interrupt_profile: InterruptProfile,
}

pub open spec fn profile_valid(p: InterruptProfile) -> bool {
    p.priority_levels != 0 && p.priority_levels <= 8 && p.max_nesting != 0
}

pub open spec fn is_reserved(mask: u8, priority: u8) -> bool {
    mask & (1u8 << priority) != 0
}

/// What is wrong with one binding on its own: an unknown domain, a level out
/// of range, or a reserved level.
pub open spec fn binding_fault(
    b: ReactorPriorityBinding,
    ds: Seq<Option<ReactorDomainContract>>,
    p: InterruptProfile,
) -> Option<ReactorPriorityError> {
    if !known_domain(ds, b.domain) {
        Some(ReactorPriorityError::UnknownDomain { domain: b.domain })
    } else if b.logical_priority >= p.priority_levels {
        Some(ReactorPriorityError::PriorityOutOfRange {
            domain: b.domain,
            priority: b.logical_priority,
            priority_levels: p.priority_levels,
        })
    } else if is_reserved(p.reserved_priorities, b.logical_priority) {
        Some(ReactorPriorityError::ReservedPriority { domain: b.domain, priority: b.logical_priority })
    } else {
        None
    }
}

pub open spec fn binding_faults(
    bs: Seq<ReactorPriorityBinding>,
    ds: Seq<Option<ReactorDomainContract>>,
    p: InterruptProfile,
) -> spec_fn(int) -> Option<ReactorPriorityError> {
    |j: int| binding_fault(bs[j], ds, p)
}

/// A later binding that repeats an earlier binding's domain or level.
pub open spec fn pair_fault(prev: ReactorPriorityBinding, cur: ReactorPriorityBinding) -> Option<ReactorPriorityError> {
    if prev.domain == cur.domain {
        Some(ReactorPriorityError::DuplicateDomainBinding { domain: cur.domain })
    } else if prev.logical_priority == cur.logical_priority {
        Some(ReactorPriorityError::DuplicatePriority {
            priority: cur.logical_priority,
            first_domain: prev.domain,
            duplicate_domain: cur.domain,
        })
    } else {
        None
    }
}

pub open spec fn pair_faults_at(bs: Seq<ReactorPriorityBinding>, i: int) -> spec_fn(int) -> Option<ReactorPriorityError> {
    |j: int| pair_fault(bs[j], bs[i])
}

pub open spec fn pair_rows(bs: Seq<ReactorPriorityBinding>) -> spec_fn(int) -> Option<ReactorPriorityError> {
    |i: int| first_some(pair_faults_at(bs, i), i)
}

pub open spec fn binding_matches(bs: Seq<ReactorPriorityBinding>, id: u8) -> spec_fn(int) -> Option<ReactorPriorityBinding> {
    |j: int| if bs[j].domain == id { Some(bs[j]) } else { None }
}

/// The first binding for domain `id`.
pub open spec fn find_binding(bs: Seq<ReactorPriorityBinding>, id: u8) -> Option<ReactorPriorityBinding> {
    first_some(binding_matches(bs, id), bs.len() as int)
}

pub open spec fn missing_faults(ds: Seq<ReactorDomainContract>, bs: Seq<ReactorPriorityBinding>) -> spec_fn(int) -> Option<ReactorPriorityError> {
    |i: int| if find_binding(bs, ds[i].id) is None {
        Some(ReactorPriorityError::MissingDomainBinding { domain: ds[i].id })
    } else {
        None
    }
}

/// Two domains that share a portable band, or whose levels invert their
/// portable urgency.
pub open spec fn order_fault(prev: ReactorDomainContract, cur: ReactorDomainContract, prev_level: u8, cur_level: u8) -> Option<ReactorPriorityError> {
    if prev.priority_band == cur.priority_band {
        Some(ReactorPriorityError::DuplicatePriorityBand {
            priority_band: cur.priority_band,
            first_domain: prev.id,
            duplicate_domain: cur.id,
        })
    } else if (prev.priority_band < cur.priority_band) != (prev_level < cur_level) {
        if prev.priority_band < cur.priority_band {
            Some(ReactorPriorityError::PriorityOrderMismatch { more_urgent_domain: prev.id, less_urgent_domain: cur.id })
        } else {
            Some(ReactorPriorityError::PriorityOrderMismatch { more_urgent_domain: cur.id, less_urgent_domain: prev.id })
        }
    } else {
        None
    }
}

pub open spec fn level_of(bs: Seq<ReactorPriorityBinding>, id: u8) -> u8 {
    find_binding(bs, id).unwrap().logical_priority
}

pub open spec fn order_faults_at(ds: Seq<ReactorDomainContract>, bs: Seq<ReactorPriorityBinding>, i: int) -> spec_fn(int) -> Option<ReactorPriorityError> {
    |j: int| order_fault(ds[j], ds[i], level_of(bs, ds[j].id), level_of(bs, ds[i].id))
}

pub open spec fn order_rows(ds: Seq<ReactorDomainContract>, bs: Seq<ReactorPriorityBinding>) -> spec_fn(int) -> Option<ReactorPriorityError> {
    |i: int| first_some(order_faults_at(ds, bs, i), i)
}

/// What priority binding refuses first: an invalid profile, then per-binding faults, then
/// repeated domains or levels, then unbound domains, then nesting depth, then
/// shared bands and urgency inversions, each in declaration order.
pub open spec fn priority_verdict(
    domains: Seq<Option<ReactorDomainContract>>,
    bs: Seq<ReactorPriorityBinding>,
    p: InterruptProfile,
) -> Result<(), ReactorPriorityError> {
    let ds = somes(domains);
    if !profile_valid(p) {
        Err(ReactorPriorityError::InvalidInterruptProfile { priority_levels: p.priority_levels, max_nesting: p.max_nesting })
    } else {
        match first_some(binding_faults(bs, domains, p), bs.len() as int) {
            Some(e) => Err(e),
            None => match first_some(pair_rows(bs), bs.len() as int) {
                Some(e) => Err(e),
                None => match first_some(missing_faults(ds, bs), ds.len() as int) {
                    Some(e) => Err(e),
                    None => if bs.len() > p.max_nesting {
                        Err(ReactorPriorityError::NestingExceeded { domains: bs.len() as usize, max_nesting: p.max_nesting })
                    } else {
                        match first_some(order_rows(ds, bs), ds.len() as int) {
                            Some(e) => Err(e),
                            None => Ok(()),
                        }
                    },
                },
            },
        }
    }
}

fn find_binding_in(bs: &Vec<ReactorPriorityBinding>, id: u8) -> (r: Option<ReactorPriorityBinding>)
    ensures
        r == find_binding(bs@, id),
{
    let mut i: usize = 0;
    while i < bs.len()
        invariant
            i <= bs.len(),
            first_some(binding_matches(bs@, id), i as int) is None,
        decreases bs.len() - i,
    {
        if bs[i].domain == id {
            proof {
                lemma_first_some_hit(binding_matches(bs@, id), i as int, bs@.len() as int);
            }
            return Some(bs[i]);
        }
        i += 1;
    }
    None
}

impl<const D: usize, const C: usize> ReactorPriorityPlan<D, C> {
    pub fn bindings(&self) -> (r: Vec<ReactorPriorityBinding>)
        ensures
            r@ == somes(self.bindings@),
    {
        collect_somes(&self.bindings)
    }

    /// The first binding for `domain`.
    pub fn binding(&self, domain: u8) -> (r: Option<ReactorPriorityBinding>)
        ensures
            r == find_binding(somes(self.bindings@), domain),
    {
        let bs = collect_somes(&self.bindings);
        find_binding_in(&bs, domain)
    }
}

fn binding_scan(ds: &Vec<ReactorDomainContract>, bs: &Vec<ReactorPriorityBinding>, p: InterruptProfile, Ghost(dom): Ghost<Seq<Option<ReactorDomainContract>>>) -> (r: Option<ReactorPriorityError>)
    requires
        ds@ == somes(dom),
        profile_valid(p),
    ensures
        r == first_some(binding_faults(bs@, dom, p), bs@.len() as int),
{
    let ghost f = binding_faults(bs@, dom, p);
    let mut i: usize = 0;
    while i < bs.len()
        invariant
            i <= bs.len(),
            ds@ == somes(dom),
            profile_valid(p),
            f == binding_faults(bs@, dom, p),
            first_some(f, i as int) is None,
        decreases bs.len() - i,
    {
        let b = bs[i];
        assert(f(i as int) == binding_fault(b, dom, p));
        let known = domain_listed(ds, b.domain);
        proof { lemma_listed_iff_known(dom, b.domain); }
        let fault = if !known {
            Some(ReactorPriorityError::UnknownDomain { domain: b.domain })
        } else if b.logical_priority >= p.priority_levels {
            Some(ReactorPriorityError::PriorityOutOfRange {
                domain: b.domain,
                priority: b.logical_priority,
                priority_levels: p.priority_levels,
            })
        } else if p.reserved_priorities & (1u8 << b.logical_priority) != 0 {
            Some(ReactorPriorityError::ReservedPriority { domain: b.domain, priority: b.logical_priority })
        } else {
            None
        };
        if fault.is_some() {
            proof { lemma_first_some_hit(f, i as int, bs@.len() as int); }
            return fault;
        }
        i += 1;
    }
    None
}

fn pair_scan(bs: &Vec<ReactorPriorityBinding>) -> (r: Option<ReactorPriorityError>)
    ensures
        r == first_some(pair_rows(bs@), bs@.len() as int),
{
    let ghost rows = pair_rows(bs@);
    let mut i: usize = 0;
    while i < bs.len()
        invariant
            i <= bs.len(),
            rows == pair_rows(bs@),
            first_some(rows, i as int) is None,
        decreases bs.len() - i,
    {
        let ghost f = pair_faults_at(bs@, i as int);
        assert(rows(i as int) == first_some(f, i as int));
        let mut j: usize = 0;
        while j < i
            invariant
                j <= i < bs.len(),
                f == pair_faults_at(bs@, i as int),
                first_some(f, j as int) is None,
                first_some(pair_rows(bs@), i as int) is None,
            decreases i - j,
        {
            let prev = bs[j];
            let cur = bs[i];
            assert(f(j as int) == pair_fault(prev, cur));
            let fault = if prev.domain == cur.domain {
                Some(ReactorPriorityError::DuplicateDomainBinding { domain: cur.domain })
            } else if prev.logical_priority == cur.logical_priority {
                Some(ReactorPriorityError::DuplicatePriority {
                    priority: cur.logical_priority,
                    first_domain: prev.domain,
                    duplicate_domain: cur.domain,
                })
            } else {
                None
            };
            if fault.is_some() {
                proof {
                    lemma_first_some_hit(f, j as int, i as int);
                    lemma_first_some_hit(pair_rows(bs@), i as int, bs@.len() as int);
                }
                return fault;
            }
            j += 1;
        }
        i += 1;
    }
    None
}

fn missing_scan(ds: &Vec<ReactorDomainContract>, bs: &Vec<ReactorPriorityBinding>) -> (r: Option<ReactorPriorityError>)
    ensures
        r == first_some(missing_faults(ds@, bs@), ds@.len() as int),
{
    let ghost f = missing_faults(ds@, bs@);
    let mut i: usize = 0;
    while i < ds.len()
        invariant
            i <= ds.len(),
            f == missing_faults(ds@, bs@),
            first_some(f, i as int) is None,
        decreases ds.len() - i,
    {
        let id = ds[i].id;
        assert(f(i as int) == (if find_binding(bs@, id) is None {
            Some(ReactorPriorityError::MissingDomainBinding { domain: id })
        } else {
            None::<ReactorPriorityError>
        }));
        if find_binding_in(bs, id).is_none() {
            proof { lemma_first_some_hit(f, i as int, ds@.len() as int); }
            return Some(ReactorPriorityError::MissingDomainBinding { domain: id });
        }
        i += 1;
    }
    None
}

fn order_scan(ds: &Vec<ReactorDomainContract>, bs: &Vec<ReactorPriorityBinding>) -> (r: Option<ReactorPriorityError>)
    requires
        forall|k: int| 0 <= k < ds@.len() ==> #[trigger] find_binding(bs@, ds@[k].id) is Some,
    ensures
        r == first_some(order_rows(ds@, bs@), ds@.len() as int),
{
    let ghost rows = order_rows(ds@, bs@);
    let mut i: usize = 0;
    while i < ds.len()
        invariant
            i <= ds.len(),
            rows == order_rows(ds@, bs@),
            forall|k: int| 0 <= k < ds@.len() ==> #[trigger] find_binding(bs@, ds@[k].id) is Some,
            first_some(rows, i as int) is None,
        decreases ds.len() - i,
    {
        let domain = ds[i];
        let ghost f = order_faults_at(ds@, bs@, i as int);
        assert(rows(i as int) == first_some(f, i as int));
        assert(find_binding(bs@, ds@[i as int].id) is Some);
        let level = find_binding_in(bs, domain.id).unwrap().logical_priority;
        let mut j: usize = 0;
        while j < i
            invariant
                j <= i < ds.len(),
                domain == ds@[i as int],
                level == level_of(bs@, domain.id),
                f == order_faults_at(ds@, bs@, i as int),
                forall|k: int| 0 <= k < ds@.len() ==> #[trigger] find_binding(bs@, ds@[k].id) is Some,
                first_some(f, j as int) is None,
                first_some(order_rows(ds@, bs@), i as int) is None,
            decreases i - j,
        {
            let previous = ds[j];
            assert(find_binding(bs@, ds@[j as int].id) is Some);
            let previous_level = find_binding_in(bs, previous.id).unwrap().logical_priority;
            assert(f(j as int) == order_fault(previous, domain, previous_level, level));
            let previous_more_urgent = previous.priority_band < domain.priority_band;
            let fault = if previous.priority_band == domain.priority_band {
                Some(ReactorPriorityError::DuplicatePriorityBand {
                    priority_band: domain.priority_band,
                    first_domain: previous.id,
                    duplicate_domain: domain.id,
                })
            } else if previous_more_urgent != (previous_level < level) {
                if previous_more_urgent {
                    Some(ReactorPriorityError::PriorityOrderMismatch {
                        more_urgent_domain: previous.id,
                        less_urgent_domain: domain.id,
                    })
                } else {
                    Some(ReactorPriorityError::PriorityOrderMismatch {
                        more_urgent_domain: domain.id,
                        less_urgent_domain: previous.id,
                    })
                }
            } else {
                None
            };
            if fault.is_some() {
                proof {
                    lemma_first_some_hit(f, j as int, i as int);
                    lemma_first_some_hit(order_rows(ds@, bs@), i as int, ds@.len() as int);
                }
                return fault;
            }
            j += 1;
        }
        i += 1;
    }
    None
}

fn domain_listed(ds: &Vec<ReactorDomainContract>, id: u8) -> (r: bool)
    ensures
        r == exists|k: int| 0 <= k < ds@.len() && #[trigger] ds@[k].id == id,
{
    let mut i: usize = 0;
    while i < ds.len()
        invariant
            i <= ds.len(),
            forall|k: int| 0 <= k < i ==> #[trigger] ds@[k].id != id,
        decreases ds.len() - i,
    {
        if ds[i].id == id {
            return true;
        }
        i += 1;
    }
    false
}

/// Membership among the present domains is membership among the slots.
proof fn lemma_listed_iff_known(dom: Seq<Option<ReactorDomainContract>>, id: u8)
    ensures
        (exists|k: int| 0 <= k < somes(dom).len() && #[trigger] somes(dom)[k].id == id) <==> known_domain(dom, id),
    decreases dom.len(),
{
    if dom.len() > 0 {
        let prev = dom.drop_last();
        lemma_listed_iff_known(prev, id);
        let sp = somes(prev);
        let s = somes(dom);
        if exists|k: int| 0 <= k < s.len() && #[trigger] s[k].id == id {
            let k = choose|k: int| 0 <= k < s.len() && #[trigger] s[k].id == id;
            if k < sp.len() {
                assert(sp[k].id == id);
                let q = choose|q: int| 0 <= q < prev.len() && #[trigger] prev[q] is Some && prev[q].unwrap().id == id;
                assert(dom[q] == prev[q]);
            } else {
                assert(dom[dom.len() - 1] is Some);
            }
        }
        if known_domain(dom, id) {
            let q = choose|q: int| 0 <= q < dom.len() && #[trigger] dom[q] is Some && dom[q].unwrap().id == id;
            if q < dom.len() - 1 {
                assert(prev[q] == dom[q]);
                assert(known_domain(prev, id));
                let k = choose|k: int| 0 <= k < sp.len() && #[trigger] sp[k].id == id;
                assert(s[k] == sp[k]);
            } else {
                assert(s[s.len() - 1].id == id);
            }
        }
    }
}

impl<const D: usize, const C: usize> ReactorAdmissionPlan<D, C> {
    /// Bind every urgency domain to one target logical interrupt priority.
    /// Target code programs hardware only from the returned plan.
    pub fn bind_interrupt_priorities(
        self,
        bindings: [Option<ReactorPriorityBinding>; D],
        interrupt_profile: InterruptProfile,
    ) -> (r: Result<ReactorPriorityPlan<D, C>, ReactorPriorityError>)
        ensures
            priority_verdict(self.domains@, somes(bindings@), interrupt_profile) matches Err(e)
                ==> r == Err::<ReactorPriorityPlan<D, C>, ReactorPriorityError>(e),
            priority_verdict(self.domains@, somes(bindings@), interrupt_profile) is Ok
                ==> r == Ok::<ReactorPriorityPlan<D, C>, ReactorPriorityError>(ReactorPriorityPlan {
                    reactor: self,
                    bindings,
                    binding_len: somes(bindings@).len() as usize,
                    interrupt_profile,
                }),
    {
        let p = interrupt_profile;
        if p.priority_levels == 0 || p.priority_levels > 8 || p.max_nesting == 0 {
            return Err(ReactorPriorityError::InvalidInterruptProfile {
                priority_levels: p.priority_levels,
                max_nesting: p.max_nesting,
            });
        }
        let bs = collect_somes(&bindings);
        let ds = self.domains();
        if let Some(e) = binding_scan(&ds, &bs, p, Ghost(self.domains@)) {
            return Err(e);
        }
        if let Some(e) = pair_scan(&bs) {
            return Err(e);
        }
        if let Some(e) = missing_scan(&ds, &bs) {
            return Err(e);
        }
        let n = bs.len();
        if n > p.max_nesting as usize {
            return Err(ReactorPriorityError::NestingExceeded { domains: n, max_nesting: p.max_nesting });
        }
        proof {
            lemma_first_some_none_all(missing_faults(ds@, bs@), ds@.len() as int);
            assert forall|k: int| 0 <= k < ds@.len() implies #[trigger] find_binding(bs@, ds@[k].id) is Some by {
                assert(missing_faults(ds@, bs@)(k) is None);
            }
        }
        if let Some(e) = order_scan(&ds, &bs) {
            return Err(e);
        }
        Ok(ReactorPriorityPlan { reactor: self, bindings, binding_len: n, interrupt_profile })
    }
}

pub(crate) fn collect_somes<T: Copy, const N: usize>(s: &[Option<T>; N]) -> (r: Vec<T>)
    ensures
        r@ == somes(s@),
{
    let mut out: Vec<T> = Vec::new();
    let mut i: usize = 0;
    while i < N
        invariant
            i <= N,
            out@ == somes(s@.subrange(0, i as int)),
        decreases N - i,
    {
        proof {
            assert(s@.subrange(0, i + 1).drop_last() =~= s@.subrange(0, i as int));
        }
        if let Some(v) = s[i] {
            out.push(v);
        }
        i += 1;
    }
    assert(s@.subrange(0, N as int) =~= s@);
    out
}

fn domain_is_known<const D: usize>(domains: &[Option<ReactorDomainContract>; D], id: u8) -> (r: bool)
    ensures
        r == known_domain(domains@, id),
{
    let mut i: usize = 0;
    while i < D
        invariant
            i <= D,
            forall|q: int| 0 <= q < i ==> !(#[trigger] domains@[q] is Some && domains@[q].unwrap().id == id),
        decreases D - i,
    {
        if let Some(d) = domains[i] {
            if d.id == id {
                assert(domains@[i as int] is Some && domains@[i as int].unwrap().id == id);
                return true;
            }
        }
        i += 1;
    }
    false
}

proof fn lemma_somes_prefix_len<T>(s: Seq<Option<T>>, k: int)
    requires
        0 <= k <= s.len(),
    ensures
        somes(s.subrange(0, k)).len() <= k,
    decreases k,
{
    if k > 0 {
        assert(s.subrange(0, k).drop_last() =~= s.subrange(0, k - 1));
        lemma_somes_prefix_len(s, k - 1);
    }
}

proof fn lemma_domain_fault_prefix(s: Seq<Option<ReactorDomainContract>>, k: int)
    requires
        0 <= k <= s.len(),
    ensures
        first_domain_fault(s.subrange(0, k), k) == first_domain_fault(s, k),
    decreases k,
{
    if k > 0 {
        lemma_domain_fault_prefix(s, k - 1);
        lemma_domain_fault_ext(s.subrange(0, k), s.subrange(0, k - 1), k - 1);
    }
}

proof fn lemma_domain_fault_ext(a: Seq<Option<ReactorDomainContract>>, b: Seq<Option<ReactorDomainContract>>, k: int)
    requires
        0 <= k <= a.len(),
        k <= b.len(),
        forall|j: int| 0 <= j < k ==> a[j] == b[j],
    ensures
        first_domain_fault(a, k) == first_domain_fault(b, k),
    decreases k,
{
    if k > 0 {
        lemma_domain_fault_ext(a, b, k - 1);
    }
}

proof fn lemma_first_duplicate_none(s: Seq<Option<ReactorDomainContract>>, k: int)
    requires
        0 <= k <= s.len(),
        forall|p: int| 0 <= p < k && #[trigger] s[p] is Some ==> !repeated_later(s, p),
    ensures
        first_duplicate(s, k) is None,
    decreases k,
{
    if k > 0 {
        lemma_first_duplicate_none(s, k - 1);
    }
}

proof fn lemma_channel_fault_none(cs: Seq<Option<ReactorChannelContract>>, ds: Seq<Option<ReactorDomainContract>>, k: int)
    requires
        0 <= k <= cs.len(),
        forall|p: int| 0 <= p < k && #[trigger] cs[p] is Some ==> channel_fault(cs[p].unwrap(), p, ds) is None,
    ensures
        first_channel_fault(cs, ds, k) is None,
    decreases k,
{
    if k > 0 {
        lemma_channel_fault_none(cs, ds, k - 1);
    }
}

/// Validate async reactor domains and channel contracts before runtime wiring.
pub fn admit_reactor_domains<const D: usize, const C: usize>(
    domains: [Option<ReactorDomainContract>; D],
    channels: [Option<ReactorChannelContract>; C],
) -> (r: Result<ReactorAdmissionPlan<D, C>, ReactorAdmissionError>)
    ensures
        reactor_verdict(domains@, channels@) matches Err(e) ==> r == Err::<ReactorAdmissionPlan<D, C>, ReactorAdmissionError>(e),
        reactor_verdict(domains@, channels@) is Ok ==> (r matches Ok(plan) && {
            &&& plan.wf()
            &&& plan.domains@ == domains@
            &&& plan.channels@ == channels@
            &&& plan.domain_len == somes(domains@).len()
            &&& plan.channel_len == somes(channels@).len()
            &&& plan.cross_domain_len == crossing(channels@).len()
            &&& somes(plan.cross_domain_channels@) == crossing(channels@)
        }),
{
    let mut domain_len: usize = 0;
    let mut i: usize = 0;
    while i < D
        invariant
            i <= D,
            domain_len == somes(domains@.subrange(0, i as int)).len(),
            first_domain_fault(domains@, i as int) is None,
        decreases D - i,
    {
        proof {
            assert(domains@.subrange(0, i + 1).drop_last() =~= domains@.subrange(0, i as int));
            lemma_somes_prefix_len(domains@, i as int);
        }
        if let Some(domain) = domains[i] {
            if domain.task_slots == 0 || domain.task_slots > 32 {
                proof {
                    lemma_later_faults_kept(domains@, i as int + 1);
                }
                return Err(ReactorAdmissionError::InvalidTaskSlots { domain: domain.id, task_slots: domain.task_slots });
            }
            if domain.fuel_per_cycle == 0 {
                proof {
                    lemma_later_faults_kept(domains@, i as int + 1);
                }
                return Err(ReactorAdmissionError::InvalidFuel { domain: domain.id });
            }
            domain_len += 1;
        }
        i += 1;
    }
    assert(domains@.subrange(0, D as int) =~= domains@);
    if domain_len == 0 {
        return Err(ReactorAdmissionError::EmptyDomains);
    }
    let mut a: usize = 0;
    while a < D
        invariant
            a <= D,
            forall|p: int| 0 <= p < a && #[trigger] domains@[p] is Some ==> !repeated_later(domains@, p),
            first_domain_fault(domains@, D as int) is None,
            somes(domains@).len() != 0,
        decreases D - a,
    {
        if let Some(first) = domains[a] {
            let mut b: usize = a + 1;
            while b < D
                invariant
                    a < b <= D,
                    domains@[a as int] == Some(first),
                    forall|q: int| a < q < b ==> !(#[trigger] domains@[q] is Some && domains@[q].unwrap().id == first.id),
                    forall|p: int| 0 <= p < a && #[trigger] domains@[p] is Some ==> !repeated_later(domains@, p),
                    first_domain_fault(domains@, D as int) is None,
                    somes(domains@).len() != 0,
                decreases D - b,
            {
                if let Some(second) = domains[b] {
                    if first.id == second.id {
                        proof {
                            assert(domains@[b as int] is Some);
                            assert(repeated_later(domains@, a as int));
                            lemma_first_duplicate_none(domains@, a as int);
                            lemma_later_duplicate_kept(domains@, a as int + 1);
                        }
                        return Err(ReactorAdmissionError::DuplicateDomain(first.id));
                    }
                }
                b += 1;
            }
        }
        a += 1;
    }
    proof {
        lemma_first_duplicate_none(domains@, D as int);
    }
    let mut cross_domain_channels: [Option<ReactorChannelContract>; C] = [None; C];
    let mut channel_len: usize = 0;
    let mut cross_domain_len: usize = 0;
    let mut index: usize = 0;
    while index < C
        invariant
            index <= C,
            channel_len == somes(channels@.subrange(0, index as int)).len(),
            cross_domain_len == crossing(channels@.subrange(0, index as int)).len(),
            cross_domain_len <= index,
            forall|k: int| 0 <= k < cross_domain_len ==> #[trigger] cross_domain_channels@[k] == Some(crossing(channels@.subrange(0, index as int))[k]),
            forall|k: int| cross_domain_len <= k < C ==> #[trigger] cross_domain_channels@[k] is None,
            forall|p: int| 0 <= p < index && #[trigger] channels@[p] is Some ==> channel_fault(channels@[p].unwrap(), p, domains@) is None,
            first_domain_fault(domains@, D as int) is None,
            somes(domains@).len() != 0,
            first_duplicate(domains@, D as int) is None,
        decreases C - index,
    {
        proof {
            assert(channels@.subrange(0, index + 1).drop_last() =~= channels@.subrange(0, index as int));
            lemma_somes_prefix_len(channels@, index as int);
            lemma_crossing_prefix_len(channels@, index as int);
        }
        if let Some(channel) = channels[index] {
            channel_len += 1;
            if channel.capacity == 0 {
                proof { lemma_channel_verdict_at(domains@, channels@, index as int); }
                return Err(ReactorAdmissionError::InvalidChannelCapacity { index });
            }
            if channel.waiter_slots == 0 || (channel.is_cross_domain() && channel.waiter_slots < 2) {
                proof { lemma_channel_verdict_at(domains@, channels@, index as int); }
                return Err(ReactorAdmissionError::InvalidWaiterSlots { index });
            }
            if !domain_is_known(&domains, channel.from_domain) {
                proof { lemma_channel_verdict_at(domains@, channels@, index as int); }
                return Err(ReactorAdmissionError::UnknownChannelDomain { index, domain: channel.from_domain });
            }
            if !domain_is_known(&domains, channel.to_domain) {
                proof { lemma_channel_verdict_at(domains@, channels@, index as int); }
                return Err(ReactorAdmissionError::UnknownChannelDomain { index, domain: channel.to_domain });
            }
            if channel.is_cross_domain() {
                cross_domain_channels[cross_domain_len] = Some(channel);
                cross_domain_len += 1;
            }
        }
        index += 1;
    }
    proof {
        assert(channels@.subrange(0, C as int) =~= channels@);
        lemma_channel_fault_none(channels@, domains@, C as int);
        lemma_somes_of_prefix_layout(cross_domain_channels@, cross_domain_len as int, crossing(channels@));
    }
    Ok(ReactorAdmissionPlan { domains, channels, cross_domain_channels, domain_len, channel_len, cross_domain_len })
}

proof fn lemma_crossing_prefix_len(s: Seq<Option<ReactorChannelContract>>, k: int)
    requires
        0 <= k <= s.len(),
    ensures
        crossing(s.subrange(0, k)).len() <= k,
    decreases k,
{
    if k > 0 {
        assert(s.subrange(0, k).drop_last() =~= s.subrange(0, k - 1));
        lemma_crossing_prefix_len(s, k - 1);
    }
}

/// A slot array holding `items` in its first `n` slots and nothing after has
/// exactly `items` as its present entries.
proof fn lemma_somes_of_prefix_layout<T>(s: Seq<Option<T>>, n: int, items: Seq<T>)
    requires
        0 <= n <= s.len(),
        items.len() == n,
        forall|k: int| 0 <= k < n ==> #[trigger] s[k] == Some(items[k]),
        forall|k: int| n <= k < s.len() ==> #[trigger] s[k] is None,
    ensures
        somes(s) == items,
    decreases s.len(),
{
    if s.len() > 0 {
        if s.len() > n {
            lemma_somes_of_prefix_layout(s.drop_last(), n, items);
        } else {
            lemma_somes_of_prefix_layout(s.drop_last(), n - 1, items.drop_last());
            assert(items.drop_last().push(items.last()) =~= items);
        }
    } else {
        assert(items =~= Seq::<T>::empty());
    }
}

/// Once the first `k` slots are fault-free, the first fault over any longer
/// prefix is decided by the later slots; a fault found at slot `k - 1` is the first.
proof fn lemma_later_faults_kept(s: Seq<Option<ReactorDomainContract>>, k: int)
    requires
        0 < k <= s.len(),
        first_domain_fault(s, k) is Some,
    ensures
        first_domain_fault(s, s.len() as int) == first_domain_fault(s, k),
    decreases s.len() - k,
{
    if k < s.len() {
        lemma_later_faults_kept_step(s, k, s.len() as int);
    }
}

proof fn lemma_later_faults_kept_step(s: Seq<Option<ReactorDomainContract>>, k: int, m: int)
    requires
        0 < k <= m <= s.len(),
        first_domain_fault(s, k) is Some,
    ensures
        first_domain_fault(s, m) == first_domain_fault(s, k),
    decreases m - k,
{
    if m > k {
        lemma_later_faults_kept_step(s, k, m - 1);
    }
}

proof fn lemma_later_duplicate_kept(s: Seq<Option<ReactorDomainContract>>, k: int)
    requires
        0 < k <= s.len(),
        first_duplicate(s, k) is Some,
    ensures
        first_duplicate(s, s.len() as int) == first_duplicate(s, k),
    decreases s.len() - k,
{
    if k < s.len() {
        lemma_later_duplicate_kept_step(s, k, s.len() as int);
    }
}

proof fn lemma_later_duplicate_kept_step(s: Seq<Option<ReactorDomainContract>>, k: int, m: int)
    requires
        0 < k <= m <= s.len(),
        first_duplicate(s, k) is Some,
    ensures
        first_duplicate(s, m) == first_duplicate(s, k),
    decreases m - k,
{
    if m > k {
        lemma_later_duplicate_kept_step(s, k, m - 1);
    }
}

/// A faulty channel at slot `i`, after fault-free earlier slots, decides the verdict.
proof fn lemma_channel_verdict_at(ds: Seq<Option<ReactorDomainContract>>, cs: Seq<Option<ReactorChannelContract>>, i: int)
    requires
        0 <= i < cs.len(),
        cs[i] is Some,
        channel_fault(cs[i].unwrap(), i, ds) is Some,
        forall|p: int| 0 <= p < i && #[trigger] cs[p] is Some ==> channel_fault(cs[p].unwrap(), p, ds) is None,
    ensures
        first_channel_fault(cs, ds, cs.len() as int) == channel_fault(cs[i].unwrap(), i, ds),
{
    lemma_channel_fault_none(cs, ds, i);
    lemma_channel_fault_kept(cs, ds, i + 1, cs.len() as int);
}

proof fn lemma_channel_fault_kept(cs: Seq<Option<ReactorChannelContract>>, ds: Seq<Option<ReactorDomainContract>>, k: int, m: int)
    requires
        0 < k <= m <= cs.len(),
        first_channel_fault(cs, ds, k) is Some,
    ensures
        first_channel_fault(cs, ds, m) == first_channel_fault(cs, ds, k),
    decreases m - k,
{
    if m > k {
        lemma_channel_fault_kept(cs, ds, k, m - 1);
    }
}


// -------------------------------------------------------- runtime binding

/// Concrete bounded core/timer storage of one admitted reactor domain, held
/// by what the binding checks read: the domain id, the capacities, and the
/// identities (addresses) of the core and of the timer queue.
#[derive(Clone, Copy, Debug, PartialEq, Eq, Structural)]
pub struct ReactorRuntimeDomain {
    pub id: u8,
    pub task_slots: usize,
    pub timer_slots: usize,
    pub core_identity: usize,
    pub timer_identity: usize,
}

impl ReactorRuntimeDomain {
    pub fn new(id: u8, task_slots: usize, timer_slots: usize, core_identity: usize, timer_identity: usize) -> (r: Self)
        ensures
            r == (ReactorRuntimeDomain { id, task_slots, timer_slots, core_identity, timer_identity }),
    {
        ReactorRuntimeDomain { id, task_slots, timer_slots, core_identity, timer_identity }
    }

    pub fn id(&self) -> (r: u8)
        ensures
            r == self.id,
    {
        self.id
    }

    pub fn task_slots(&self) -> (r: usize)
        ensures
            r == self.task_slots,
    {
        self.task_slots
    }

    pub fn timer_slots(&self) -> (r: usize)
        ensures
            r == self.timer_slots,
    {
        self.timer_slots
    }

    pub fn core_identity(&self) -> (r: usize)
        ensures
            r == self.core_identity,
    {
        self.core_identity
    }

    pub fn timer_identity(&self) -> (r: usize)
        ensures
            r == self.timer_identity,
    {
        self.timer_identity
    }
}

#[derive(Clone, Copy, Debug, PartialEq, Eq, Structural)]
pub enum ReactorRuntimeError {
    UnknownDomain { domain: u8 },
    DuplicateDomain { domain: u8 },
    DuplicateCore { first_domain: u8, duplicate_domain: u8 },
    DuplicateTimerQueue { first_domain: u8, duplicate_domain: u8 },
    MissingDomain { domain: u8 },
    TaskSlotsMismatch { domain: u8, admitted: u8, runtime: usize },
    TimerSlotsMismatch { domain: u8, admitted: u8, runtime: usize },
    DuplicatePriorityBand { priority_band: u8, first_domain: u8, duplicate_domain: u8 },
    DriverPriorityOrderMismatch { more_urgent_domain: u8, less_urgent_domain: u8 },
    UnknownModule { module: ModuleId },
    CoreMismatch { domain: u8 },
}

/// One admitted domain bound to the kernel module that drives it.
#[derive(Clone, Copy, Debug, PartialEq, Eq, Structural)]
pub struct BoundReactorRuntime {
    pub domain: u8,
    pub fuel_per_cycle: u32,
    pub module: ModuleId,
    pub runtime: ReactorRuntimeDomain,
}

/// The module bound to `domain` at slot `i`, if that slot holds it.
pub open spec fn domain_hit<const D: usize>(
    domains: [Option<BoundReactorRuntime>; D],
    domain: u8,
) -> spec_fn(int) -> Option<ModuleId> {
    |i: int| match domains@[i] {
        Some(b) => if b.domain == domain { Some(b.module) } else { None },
        None => None,
    }
}

/// The binding of `module` at slot `i`, if that slot holds it.
pub open spec fn module_hit<const D: usize>(
    domains: [Option<BoundReactorRuntime>; D],
    module: ModuleId,
) -> spec_fn(int) -> Option<BoundReactorRuntime> {
    |i: int| match domains@[i] {
        Some(b) => if b.module == module { Some(b) } else { None },
        None => None,
    }
}

/// Fixed, module-linked runtime sources for every admitted reactor domain.
pub struct ReactorRuntimeSet<const D: usize> {
    domains: [Option<BoundReactorRuntime>; D],
    len: usize,
}

impl<const D: usize> ReactorRuntimeSet<D> {
    pub closed spec fn bound(self) -> [Option<BoundReactorRuntime>; D] {
        self.domains
    }

    pub closed spec fn spec_len(self) -> usize {
        self.len
    }

    /// The first binding of `module`, in slot order.
    pub open spec fn binding_of(self, module: ModuleId) -> Option<BoundReactorRuntime> {
        first_some(module_hit(self.bound(), module), D as int)
    }

    pub fn from_bound(domains: [Option<BoundReactorRuntime>; D], len: usize) -> (r: Self)
        ensures
            r.bound() == domains,
            r.spec_len() == len,
    {
        ReactorRuntimeSet { domains, len }
    }

    /// Bind an admitted domain contract to its driving module and runtime.
    pub fn bind_domain(domain: ReactorDomainContract, module: ModuleId, runtime: ReactorRuntimeDomain) -> (r:
        BoundReactorRuntime)
        ensures
            r == (BoundReactorRuntime { domain: domain.id, fuel_per_cycle: domain.fuel_per_cycle, module, runtime }),
    {
        BoundReactorRuntime { domain: domain.id, fuel_per_cycle: domain.fuel_per_cycle, module, runtime }
    }

    pub fn len(&self) -> (r: usize)
        ensures
            r == self.spec_len(),
    {
        self.len
    }

    pub fn is_empty(&self) -> (r: bool)
        ensures
            r == (self.spec_len() == 0),
    {
        self.len == 0
    }

    /// The module driving `domain`: the first bound slot with that id.
    pub fn module_for_domain(&self, domain: u8) -> (r: Option<ModuleId>)
        ensures
            r == first_some(domain_hit(self.bound(), domain), D as int),
    {
        let ghost f = domain_hit(self.domains, domain);
        let mut i: usize = 0;
        while i < D
            invariant
                i <= D,
                f == domain_hit(self.domains, domain),
                first_some(f, i as int) is None,
            decreases D - i,
        {
            if let Some(bound) = self.domains[i] {
                if bound.domain == domain {
                    proof { lemma_first_some_hit(f, i as int, D as int); }
                    return Some(bound.module);
                }
            }
            assert(first_some(f, i as int + 1) is None);
            i += 1;
        }
        None
    }

    fn binding_for_module(&self, module: ModuleId) -> (r: Option<BoundReactorRuntime>)
        ensures
            r == self.binding_of(module),
    {
        let ghost f = module_hit(self.domains, module);
        let mut i: usize = 0;
        while i < D
            invariant
                i <= D,
                f == module_hit(self.domains, module),
                first_some(f, i as int) is None,
            decreases D - i,
        {
            if let Some(bound) = self.domains[i] {
                if bound.module == module {
                    proof { lemma_first_some_hit(f, i as int, D as int); }
                    return Some(bound);
                }
            }
            assert(first_some(f, i as int + 1) is None);
            i += 1;
        }
        None
    }

    /// The admitted per-cycle fuel of the domain `module` drives.
    pub fn fuel_for_module(&self, module: ModuleId) -> (r: Option<u32>)
        ensures
            r == match self.binding_of(module) {
                Some(b) => Some(b.fuel_per_cycle),
                None => None::<u32>,
            },
    {
        match self.binding_for_module(module) {
            Some(bound) => Some(bound.fuel_per_cycle),
            None => None,
        }
    }

    /// Run one pass of `module`'s reactor with the domain's admitted fuel.
    /// An unbound module is refused, and so is a reactor on any core other
    /// than the bound one, even of the same capacity; a refused reactor is
    /// left as it was.
    pub fn run_domain<T: ReactorTask, const N: usize>(
        &self,
        module: ModuleId,
        reactor: &mut ReactorExecutor<T, N>,
    ) -> (r: Result<ReactorStats, ReactorRuntimeError>)
        requires
            old(reactor).wf(),
        ensures
            final(reactor).wf(),
            self.binding_of(module) is None ==> r == Err::<ReactorStats, ReactorRuntimeError>(
                ReactorRuntimeError::UnknownModule { module },
            ) && *final(reactor) == *old(reactor),
            self.binding_of(module) matches Some(b) ==> if b.runtime.core_identity != old(reactor).spec_core_identity() {
                r == Err::<ReactorStats, ReactorRuntimeError>(ReactorRuntimeError::CoreMismatch { domain: b.domain })
                    && *final(reactor) == *old(reactor)
            } else {
                r matches Ok(stats) && {
                    &&& stats.polled <= b.fuel_per_cycle
                    &&& stats.completed <= stats.polled
                    &&& stats.live == final(reactor).live_count()
                    &&& final(reactor).live_count() + stats.completed == old(reactor).live_count()
                    &&& stats.fuel_exhausted ==> stats.polled == b.fuel_per_cycle
                }
            },
    {
        match self.binding_for_module(module) {
            None => Err(ReactorRuntimeError::UnknownModule { module }),
            Some(bound) => {
                if bound.runtime.core_identity != reactor.core_identity() {
                    Err(ReactorRuntimeError::CoreMismatch { domain: bound.domain })
                } else {
                    Ok(reactor.run_ready(bound.fuel_per_cycle))
                }
            },
        }
    }
}

// ---------------------------------------------------------------- timers

struct TimerEntry {
    deadline_us: u64,
    waker: Waker,
    fired: bool,
}

/// How many of the first `k` slots hold an unfired timer due at `now_us`.
pub open spec fn due_count(timers: Seq<Option<(u64, bool)>>, now_us: u64, k: int) -> nat
    decreases k,
{
    if k <= 0 {
        0
    } else {
        due_count(timers, now_us, k - 1) + match timers[k - 1] {
            Some((d, f)) => if !f && d <= now_us { 1nat } else { 0nat },
            None => 0nat,
        }
    }
}

/// The earliest unfired deadline among the first `k` slots.
pub open spec fn earliest_unfired(timers: Seq<Option<(u64, bool)>>, k: int) -> Option<u64>
    decreases k,
{
    if k <= 0 {
        None
    } else {
        let rest = earliest_unfired(timers, k - 1);
        match timers[k - 1] {
            Some((d, f)) => if f {
                rest
            } else {
                match rest {
                    Some(e) => if d < e { Some(d) } else { Some(e) },
                    None => Some(d),
                }
            },
            None => rest,
        }
    }
}

/// The timers once every unfired one due at `now_us` has fired.
pub open spec fn fired_by(timers: Seq<Option<(u64, bool)>>, now_us: u64) -> Seq<Option<(u64, bool)>> {
    Seq::new(
        timers.len(),
        |i: int| match timers[i] {
            Some((d, f)) => Some((d, f || d <= now_us)),
            None => None,
        },
    )
}

/// Each timer fires at most once: advancing again to an instant no later
/// than the last one fires nothing.
pub proof fn advance_fires_each_timer_once(timers: Seq<Option<(u64, bool)>>, now_us: u64, later_us: u64, k: int)
    requires
        later_us <= now_us,
        0 <= k <= timers.len(),
    ensures
        due_count(fired_by(timers, now_us), later_us, k) == 0,
    decreases k,
{
    if k > 0 {
        advance_fires_each_timer_once(timers, now_us, later_us, k - 1);
    }
}

/// What one poll of a sleep decided.
#[derive(Clone, Copy, Debug, PartialEq, Eq, Structural)]
pub enum SleepStep {
    /// The sleep resolved: `true` once its timer fired, `false` when no
    /// timer slot was free.
    Ready(bool),
    /// Still waiting on the timer in this slot.
    Pending(usize),
}

/// Fixed-capacity timer service: a sleep claims a slot on its first poll,
/// `advance` fires due timers and wakes their tasks, and a dropped sleep
/// frees its slot.
pub struct TimerQueue<const T: usize> {
    slots: Vec<Option<TimerEntry>>,
}

impl<const T: usize> TimerQueue<T> {
    /// Each slot's deadline and fired mark, if taken.
    pub closed spec fn timers(self) -> Seq<Option<(u64, bool)>> {
        self.slots@.map_values(
            |e: Option<TimerEntry>| match e {
                Some(t) => Some((t.deadline_us, t.fired)),
                None => None,
            },
        )
    }

    pub closed spec fn wf(self) -> bool {
        self.slots@.len() == T
    }

    pub fn new() -> (r: Self)
        ensures
            r.wf(),
            r.timers() == Seq::new(T as nat, |i: int| None::<(u64, bool)>),
    {
        let mut slots: Vec<Option<TimerEntry>> = Vec::new();
        let mut i: usize = 0;
        while i < T
            invariant
                i <= T,
                slots@.len() == i,
                forall|j: int| 0 <= j < i ==> slots@[j] is None,
            decreases T - i,
        {
            slots.push(None);
            i += 1;
        }
        let r = TimerQueue { slots };
        assert(r.timers() =~= Seq::new(T as nat, |i: int| None::<(u64, bool)>));
        r
    }

    /// Fire every unfired timer due at `now_us`, waking its task; returns how
    /// many fired.
    pub fn advance(&mut self, now_us: u64) -> (r: usize)
        requires
            old(self).wf(),
        ensures
            final(self).wf(),
            r == due_count(old(self).timers(), now_us, T as int),
            final(self).timers() == fired_by(old(self).timers(), now_us),
            final(self).timers().len() == T,
            forall|i: int|
                0 <= i < T ==> #[trigger] final(self).timers()[i] == match old(self).timers()[i] {
                    Some((d, f)) => Some((d, f || d <= now_us)),
                    None => None,
                },
    {
        let ghost before = self.timers();
        let mut fired: usize = 0;
        let mut i: usize = 0;
        while i < T
            invariant
                self.wf(),
                i <= T,
                before.len() == T,
                fired == due_count(before, now_us, i as int),
                fired <= i,
                forall|j: int|
                    0 <= j < i ==> #[trigger] self.timers()[j] == match before[j] {
                        Some((d, f)) => Some((d, f || d <= now_us)),
                        None => None,
                    },
                forall|j: int| i <= j < T ==> #[trigger] self.timers()[j] == before[j],
            decreases T - i,
        {
            assert(self.timers()[i as int] == before[i as int]);
            let ghost cur = self.slots@;
            let mut slot: Option<TimerEntry> = None;
            self.slots.set_and_swap(i, &mut slot);
            assert(slot == cur[i as int]);
            match slot {
                Some(entry) => {
                    if !entry.fired && entry.deadline_us <= now_us {
                        waker_wake_by_ref(&entry.waker);
                        fired = fired + 1;
                        self.slots.set(i, Some(TimerEntry { deadline_us: entry.deadline_us, waker: entry.waker, fired: true }));
                    } else {
                        self.slots.set(i, Some(entry));
                    }
                },
                None => {
                    self.slots.set(i, None);
                },
            }
            proof {
                assert(self.slots@ =~= cur.update(i as int, self.slots@[i as int]));
                assert(self.timers()[i as int] == match before[i as int] {
                    Some((d, f)) => Some((d, f || d <= now_us)),
                    None => None,
                });
                assert forall|j: int| 0 <= j < T && j != i implies #[trigger] self.timers()[j] == cur.map_values(
                    |e: Option<TimerEntry>| match e {
                        Some(t) => Some((t.deadline_us, t.fired)),
                        None => None,
                    },
                )[j] by {}
            }
            i += 1;
        }
        fired
    }

    /// The earliest unfired deadline: what an idle core may sleep until.
    pub fn next_deadline_us(&self) -> (r: Option<u64>)
        requires
            self.wf(),
        ensures
            r == earliest_unfired(self.timers(), T as int),
    {
        let mut best: Option<u64> = None;
        let mut i: usize = 0;
        while i < T
            invariant
                self.wf(),
                i <= T,
                best == earliest_unfired(self.timers(), i as int),
            decreases T - i,
        {
            match &self.slots[i] {
                Some(entry) => {
                    if !entry.fired {
                        best = match best {
                            Some(e) => if entry.deadline_us < e { Some(entry.deadline_us) } else { Some(e) },
                            None => Some(entry.deadline_us),
                        };
                    }
                },
                None => {},
            }
            i += 1;
        }
        best
    }

    /// Free slot `index` (a dropped sleep).
    pub fn release(&mut self, index: usize)
        requires
            old(self).wf(),
            index < T,
        ensures
            final(self).wf(),
            final(self).timers() == old(self).timers().update(index as int, None),
    {
        self.slots.set(index, None);
        assert(self.timers() =~= old(self).timers().update(index as int, None));
    }

    /// One poll of a sleep until `deadline_us` that holds `slot`: a held
    /// slot resolves once fired (or found freed) and is given up, else waits
    /// with the waker refreshed; a first poll claims the first free slot, or
    /// resolves `false` when there is none.
    pub fn poll_sleep(&mut self, slot: Option<usize>, deadline_us: u64, waker: &Waker) -> (r: SleepStep)
        requires
            old(self).wf(),
            slot matches Some(index) ==> index < T,
        ensures
            final(self).wf(),
            slot matches Some(index) ==> match old(self).timers()[index as int] {
                Some((d, f)) => if f {
                    r == SleepStep::Ready(true) && final(self).timers() == old(self).timers().update(index as int, None)
                } else {
                    r == SleepStep::Pending(index) && final(self).timers() == old(self).timers()
                },
                None => r == SleepStep::Ready(true) && final(self).timers() == old(self).timers(),
            },
            slot is None ==> match r {
                SleepStep::Pending(i) => {
                    &&& i < T && old(self).timers()[i as int] is None
                    &&& forall|j: int| 0 <= j < i ==> #[trigger] old(self).timers()[j] is Some
                    &&& final(self).timers() == old(self).timers().update(i as int, Some((deadline_us, false)))
                },
                SleepStep::Ready(fired) => {
                    &&& !fired
                    &&& forall|j: int| 0 <= j < T ==> #[trigger] old(self).timers()[j] is Some
                    &&& final(self).timers() == old(self).timers()
                },
            },
    {
        match slot {
            Some(index) => {
                let ghost cur = self.slots@;
                let mut held: Option<TimerEntry> = None;
                self.slots.set_and_swap(index, &mut held);
                assert(held == cur[index as int]);
                match held {
                    Some(entry) => {
                        if entry.fired {
                            assert(self.timers() =~= old(self).timers().update(index as int, None));
                            SleepStep::Ready(true)
                        } else {
                            let w = waker_clone(waker);
                            self.slots.set(index, Some(TimerEntry { deadline_us: entry.deadline_us, waker: w, fired: false }));
                            assert(self.timers() =~= old(self).timers());
                            SleepStep::Pending(index)
                        }
                    },
                    None => {
                        assert(self.timers() =~= old(self).timers());
                        SleepStep::Ready(true)
                    },
                }
            },
            None => {
                let ghost timers = self.timers();
                let mut i: usize = 0;
                while i < T
                    invariant
                        self.wf(),
                        *self == *old(self),
                        slot is None,
                        timers == self.timers(),
                        i <= T,
                        forall|j: int| 0 <= j < i ==> #[trigger] timers[j] is Some,
                    decreases T - i,
                {
                    if self.slots[i].is_none() {
                        let w = waker_clone(waker);
                        self.slots.set(i, Some(TimerEntry { deadline_us, waker: w, fired: false }));
                        assert(self.timers() =~= old(self).timers().update(i as int, Some((deadline_us, false))));
                        return SleepStep::Pending(i);
                    }
                    i += 1;
                }
                SleepStep::Ready(false)
            },
        }
    }
}


// ------------------------------------------------- channel, signal, cancel

/// Wake and clear a parked waker, if there is one.
fn wake_parked(slot: &mut Option<Waker>)
    ensures
        *final(slot) is None,
{
    if let Some(w) = slot.take() {
        waker_wake(w);
    }
}

/// Bounded async channel for one producer task and one consumer task: a
/// FIFO of at most `C` values and one parked waker per side.
pub struct Channel<T, const C: usize> {
    queue: VecDeque<T>,
    rx_waker: Option<Waker>,
    tx_waker: Option<Waker>,
}

impl<T, const C: usize> Channel<T, C> {
    /// The buffered values, oldest first.
    pub closed spec fn items(self) -> Seq<T> {
        self.queue@
    }

    /// A receiver is parked.
    pub closed spec fn rx_parked(self) -> bool {
        self.rx_waker is Some
    }

    /// A sender is parked.
    pub closed spec fn tx_parked(self) -> bool {
        self.tx_waker is Some
    }

    pub closed spec fn wf(self) -> bool {
        self.queue@.len() <= C
    }

    pub fn new() -> (r: Self)
        ensures
            r.wf(),
            r.items().len() == 0,
            !r.rx_parked() && !r.tx_parked(),
    {
        Channel { queue: VecDeque::new(), rx_waker: None, tx_waker: None }
    }

    /// Push without blocking; a full channel hands the value back. A pushed
    /// value wakes the parked receiver.
    pub fn try_send(&mut self, value: T) -> (r: Result<(), T>)
        requires
            old(self).wf(),
        ensures
            final(self).wf(),
            old(self).items().len() >= C ==> r == Err::<(), T>(value) && *final(self) == *old(self),
            old(self).items().len() < C ==> r is Ok && final(self).items() == old(self).items().push(value)
                && !final(self).rx_parked() && final(self).tx_parked() == old(self).tx_parked(),
    {
        if self.queue.len() >= C {
            return Err(value);
        }
        self.queue.push_back(value);
        wake_parked(&mut self.rx_waker);
        Ok(())
    }

    /// Pop without blocking; a taken value wakes the parked sender.
    pub fn try_recv(&mut self) -> (r: Option<T>)
        requires
            old(self).wf(),
        ensures
            final(self).wf(),
            old(self).items().len() == 0 ==> r is None && *final(self) == *old(self),
            old(self).items().len() > 0 ==> r == Some(old(self).items()[0])
                && final(self).items() == old(self).items().drop_first()
                && !final(self).tx_parked() && final(self).rx_parked() == old(self).rx_parked(),
    {
        if self.queue.len() == 0 {
            return None;
        }
        let value = self.queue.pop_front();
        wake_parked(&mut self.tx_waker);
        value
    }

    pub fn len(&self) -> (r: usize)
        ensures
            r == self.items().len(),
    {
        self.queue.len()
    }

    pub fn is_empty(&self) -> (r: bool)
        ensures
            r == (self.items().len() == 0),
    {
        self.queue.len() == 0
    }

    /// One poll of a blocking send: `Ok` once delivered; otherwise the sender
    /// parks and the value comes back for the next poll.
    pub fn poll_send(&mut self, value: T, waker: &Waker) -> (r: Result<(), T>)
        requires
            old(self).wf(),
        ensures
            final(self).wf(),
            old(self).items().len() < C ==> r is Ok && final(self).items() == old(self).items().push(value)
                && !final(self).rx_parked() && final(self).tx_parked() == old(self).tx_parked(),
            old(self).items().len() >= C ==> r == Err::<(), T>(value) && final(self).items() == old(self).items()
                && final(self).tx_parked() && final(self).rx_parked() == old(self).rx_parked(),
    {
        match self.try_send(value) {
            Ok(()) => Ok(()),
            Err(value) => {
                self.tx_waker = Some(waker_clone(waker));
                Err(value)
            },
        }
    }

    /// One poll of a blocking receive: the oldest value, or `None` with the
    /// receiver parked.
    pub fn poll_recv(&mut self, waker: &Waker) -> (r: Option<T>)
        requires
            old(self).wf(),
        ensures
            final(self).wf(),
            old(self).items().len() > 0 ==> r == Some(old(self).items()[0])
                && final(self).items() == old(self).items().drop_first()
                && !final(self).tx_parked() && final(self).rx_parked() == old(self).rx_parked(),
            old(self).items().len() == 0 ==> r is None && final(self).items() == old(self).items()
                && final(self).rx_parked() && final(self).tx_parked() == old(self).tx_parked(),
    {
        match self.try_recv() {
            Some(value) => Some(value),
            None => {
                self.rx_waker = Some(waker_clone(waker));
                None
            },
        }
    }
}

/// Sticky one-shot notification: `notify` wakes the parked waiter, or stays
/// set until the next wait consumes it.
pub struct Signal {
    set: bool,
    waker: Option<Waker>,
}

impl Signal {
    pub closed spec fn spec_set(self) -> bool {
        self.set
    }

    /// A waiter is parked.
    pub closed spec fn parked(self) -> bool {
        self.waker is Some
    }

    pub fn new() -> (r: Self)
        ensures
            !r.spec_set() && !r.parked(),
    {
        Signal { set: false, waker: None }
    }

    pub fn notify(&mut self)
        ensures
            final(self).spec_set() && !final(self).parked(),
    {
        self.set = true;
        wake_parked(&mut self.waker);
    }

    /// One poll of a wait: consumes a pending notification, else parks.
    pub fn poll_wait(&mut self, waker: &Waker) -> (r: bool)
        ensures
            r == old(self).spec_set(),
            !final(self).spec_set(),
            r ==> final(self).parked() == old(self).parked(),
            !r ==> final(self).parked(),
    {
        if self.set {
            self.set = false;
            return true;
        }
        self.waker = Some(waker_clone(waker));
        false
    }
}

/// Cooperative cancellation with sticky, idempotent cancellation.
pub struct CancelToken {
    signal: Signal,
    cancelled: bool,
}

impl CancelToken {
    pub closed spec fn spec_cancelled(self) -> bool {
        self.cancelled
    }

    /// A waiter is parked on the token.
    pub closed spec fn parked(self) -> bool {
        self.signal.parked()
    }

    pub fn new() -> (r: Self)
        ensures
            !r.spec_cancelled() && !r.parked(),
    {
        CancelToken { signal: Signal::new(), cancelled: false }
    }

    /// Cancel, waking the parked waiter; cancelling again changes nothing.
    pub fn cancel(&mut self)
        ensures
            final(self).spec_cancelled() && !final(self).parked(),
    {
        self.cancelled = true;
        self.signal.notify();
    }

    pub fn is_cancelled(&self) -> (r: bool)
        ensures
            r == self.spec_cancelled(),
    {
        self.cancelled
    }

    /// One poll of a cancellation wait: `true` once cancelled, else parks.
    pub fn poll_cancelled(&mut self, waker: &Waker) -> (r: bool)
        ensures
            r == old(self).spec_cancelled(),
            final(self).spec_cancelled() == old(self).spec_cancelled(),
            !r ==> final(self).parked(),
    {
        if self.cancelled {
            return true;
        }
        self.signal.waker = Some(waker_clone(waker));
        false
    }
}

} // verus!
