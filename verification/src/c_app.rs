//! Fixed-capacity task/wire declaration and periodic dispatch for plain
//! callback applications. Registered records are expanded into the same
//! [`AppGraph`] admission used by graph applications; dispatch starts only
//! after that graph passes profile validation.

use vstd::prelude::*;
use vstd::string::StringSliceAdditionalSpecFns;

use crate::graph::{
    default_budget, default_jitter, default_kernel_deadline, default_kernel_memory, expansion_verdict,
    graph_cycle_task, graph_profile_verdict, AppGraph, ChannelDecl, GraphError, TaskDecl,
};
use crate::label::same_label;
use crate::manifest::{CapabilitySet, Criticality, MemoryBudget, SystemProfile};

verus! {

/// Role presets; timing fields can still be overridden explicitly.
#[derive(Clone, Copy, Debug, PartialEq, Eq, Structural)]
pub enum CTaskRole {
    /// Deadline-aware periodic driver work.
    Periodic,
    /// Tighter-jitter hard-real-time control work.
    Control,
    /// Best-effort background work without a deadline contract.
    Service,
}

/// Optional overrides for the defaults selected by [`CTaskRole`]; a zero keeps the preset.
#[derive(Clone, Copy, Debug, PartialEq, Eq, Structural)]
pub struct CTaskOptions {
    pub role: CTaskRole,
    pub budget_us: u32,
    pub deadline_us: u32,
    pub jitter_us: u32,
    pub blocking_us: u32,
}

pub open spec fn default_options() -> CTaskOptions {
    CTaskOptions { role: CTaskRole::Periodic, budget_us: 0, deadline_us: 0, jitter_us: 0, blocking_us: 0 }
}

impl Default for CTaskOptions {
    fn default() -> (r: Self)
        ensures
            r == default_options(),
    {
        CTaskOptions { role: CTaskRole::Periodic, budget_us: 0, deadline_us: 0, jitter_us: 0, blocking_us: 0 }
    }
}

/// One registered task: its label, period, callback, options and next release.
#[derive(Clone, Copy, Debug)]
pub struct CTask<S> {
    pub name: &'static str,
    pub period_us: u32,
    pub step: S,
    pub options: CTaskOptions,
    pub next_release_us: u64,
}

/// One registered wire between two task labels.
#[derive(Clone, Copy, Debug)]
pub struct CWire {
    pub from: &'static str,
    pub to: &'static str,
    pub capacity: u8,
}

#[derive(Clone, Copy, Debug, PartialEq, Eq, Structural)]
pub enum CAppState {
    Configuring,
    Running,
    Faulted,
}

/// Stable failure classes; `status` gives their negative integer codes.
#[derive(Clone, Copy, Debug, PartialEq, Eq)]
pub enum CAppError {
    InvalidState,
    InvalidName,
    InvalidPeriod,
    TaskCapacity,
    WireCapacity,
    UnknownEndpoint,
    DuplicateTask,
    InvalidOptions,
    Admission,
    StepFailed { task: &'static str, code: i32 },
}

impl CAppError {
    pub fn status(self) -> (r: i32)
        ensures
            r == match self {
                CAppError::InvalidState => -1i32,
                CAppError::InvalidName => -2i32,
                CAppError::InvalidPeriod => -3i32,
                CAppError::TaskCapacity => -4i32,
                CAppError::WireCapacity => -5i32,
                CAppError::UnknownEndpoint => -6i32,
                CAppError::DuplicateTask => -7i32,
                CAppError::InvalidOptions => -8i32,
                CAppError::Admission => -9i32,
                CAppError::StepFailed { .. } => -10i32,
            },
    {
        match self {
            CAppError::InvalidState => -1,
            CAppError::InvalidName => -2,
            CAppError::InvalidPeriod => -3,
            CAppError::TaskCapacity => -4,
            CAppError::WireCapacity => -5,
            CAppError::UnknownEndpoint => -6,
            CAppError::DuplicateTask => -7,
            CAppError::InvalidOptions => -8,
            CAppError::Admission => -9,
            CAppError::StepFailed { .. } => -10,
        }
    }
}

/// Result of one bounded dispatch pass.
#[derive(Clone, Copy, Debug, PartialEq, Eq, Structural)]
pub struct CDispatchReport {
    pub ran: u8,
    pub skipped: u32,
    pub next_release_us: Option<u64>,
}

// ------------------------------------------------------------- declarations

/// A byte allowed in a label: lowercase ASCII letter, digit, `_` or `-`.
pub open spec fn label_byte(b: u8) -> bool {
    (0x61 <= b <= 0x7a) || (0x30 <= b <= 0x39) || b == 0x5f || b == 0x2d
}

/// A label of 1 to 48 allowed bytes that starts with a lowercase letter.
pub open spec fn valid_label(bytes: Seq<u8>) -> bool {
    &&& 1 <= bytes.len() <= 48
    &&& 0x61 <= bytes[0] <= 0x7a
    &&& forall|i: int| 0 <= i < bytes.len() ==> #[trigger] label_byte(bytes[i])
}

/// The deadline a task declares: the override, else its period.
pub open spec fn declared_deadline(period_us: u32, o: CTaskOptions) -> u32 {
    if o.deadline_us == 0 { period_us } else { o.deadline_us }
}

/// The budget a task declares: the override, else a tenth of the period (at least 1).
pub open spec fn declared_budget(period_us: u32, o: CTaskOptions) -> u32 {
    if o.budget_us == 0 {
        if period_us / 10 >= 1 { (period_us / 10) as u32 } else { 1 }
    } else {
        o.budget_us
    }
}

/// Timing overrides that cannot hold together.
pub open spec fn options_invalid(period_us: u32, o: CTaskOptions) -> bool {
    let deadline = declared_deadline(period_us, o);
    let budget = declared_budget(period_us, o);
    ||| deadline > period_us
    ||| budget > deadline
    ||| o.blocking_us > (if deadline >= budget { deadline - budget } else { 0 })
    ||| o.jitter_us >= period_us
}

pub open spec fn named<S>(tasks: Seq<CTask<S>>, name: Seq<char>) -> bool {
    exists|i: int| 0 <= i < tasks.len() && #[trigger] tasks[i].name@ == name
}

/// Why a task registration is refused, if it is.
pub open spec fn task_verdict<S>(
    state: CAppState,
    tasks: Seq<CTask<S>>,
    capacity: int,
    name: &'static str,
    period_us: u32,
    options: CTaskOptions,
) -> Option<CAppError> {
    if state != CAppState::Configuring {
        Some(CAppError::InvalidState)
    } else if !valid_label(name.spec_bytes()) {
        Some(CAppError::InvalidName)
    } else if period_us == 0 {
        Some(CAppError::InvalidPeriod)
    } else if named(tasks, name@) {
        Some(CAppError::DuplicateTask)
    } else if tasks.len() >= capacity {
        Some(CAppError::TaskCapacity)
    } else if options_invalid(period_us, options) {
        Some(CAppError::InvalidOptions)
    } else {
        None
    }
}

/// Why a wire registration is refused, if it is.
pub open spec fn wire_verdict<S>(
    state: CAppState,
    tasks: Seq<CTask<S>>,
    wires: Seq<CWire>,
    capacity: int,
    from: &'static str,
    to: &'static str,
    wire_capacity: u8,
) -> Option<CAppError> {
    if state != CAppState::Configuring {
        Some(CAppError::InvalidState)
    } else if !valid_label(from.spec_bytes()) || !valid_label(to.spec_bytes()) {
        Some(CAppError::InvalidName)
    } else if wire_capacity == 0 || wire_capacity > 64 || wires.len() >= capacity {
        Some(CAppError::WireCapacity)
    } else if !named(tasks, from@) || !named(tasks, to@) {
        Some(CAppError::UnknownEndpoint)
    } else if exists|i: int| 0 <= i < wires.len() && #[trigger] wires[i].from@ == from@ && wires[i].to@ == to@ {
        Some(CAppError::WireCapacity)
    } else {
        None
    }
}

pub open spec fn role_criticality(role: CTaskRole) -> Criticality {
    match role {
        CTaskRole::Periodic => Criticality::Driver,
        CTaskRole::Control => Criticality::HardRealtime,
        CTaskRole::Service => Criticality::BestEffort,
    }
}

/// The graph declaration a registered task expands to.
pub open spec fn c_decl<S>(t: CTask<S>) -> TaskDecl {
    let o = t.options;
    TaskDecl {
        name: t.name,
        criticality: role_criticality(o.role),
        phase_us: 0,
        period_us: t.period_us,
        deadline_us: if o.deadline_us != 0 { o.deadline_us } else { t.period_us },
        max_jitter_us: if o.jitter_us != 0 {
            o.jitter_us
        } else if o.role == CTaskRole::Control {
            default_jitter(t.period_us, 200)
        } else {
            default_jitter(t.period_us, 100)
        },
        execution_budget_us: if o.budget_us != 0 { o.budget_us } else { default_budget(t.period_us) },
        blocking_us: o.blocking_us,
        memory: MemoryBudget { flash_bytes: 1024, ram_bytes: 256, pool_slots: 0 },
        required: CapabilitySet::none(),
        owns: CapabilitySet::none(),
        role: None,
        has_deadline: o.role != CTaskRole::Service,
        core_affinity: None,
        reactor_domain: None,
        after: vstd::array::spec_array_fill_for_copy_type::<Option<&'static str>, 4>(None),
    }
}

pub open spec fn c_decls<S>(tasks: Seq<CTask<S>>) -> Seq<TaskDecl> {
    tasks.map_values(|t: CTask<S>| c_decl(t))
}

pub open spec fn c_channels(wires: Seq<CWire>) -> Seq<ChannelDecl> {
    wires.map_values(|w: CWire| ChannelDecl { from: w.from, to: w.to })
}

/// How a graph refusal is reported.
pub open spec fn c_graph_error(e: GraphError) -> CAppError {
    match e {
        GraphError::DuplicateName(_) => CAppError::DuplicateTask,
        GraphError::ChannelEndpointUnknown { .. } => CAppError::UnknownEndpoint,
        GraphError::TooManyTasks { .. } => CAppError::TaskCapacity,
        GraphError::TooManyChannels => CAppError::WireCapacity,
        _ => CAppError::Admission,
    }
}

/// Why starting the declared application is refused, if it is: more wires
/// than the graph holds channels, else the graph's own admission verdict.
pub open spec fn run_verdict<S>(
    tasks: Seq<CTask<S>>,
    wires: Seq<CWire>,
    task_capacity: int,
    module_capacity: int,
    profile: SystemProfile,
) -> Option<CAppError> {
    let decls = c_decls(tasks);
    let channels = c_channels(wires);
    if wires.len() > task_capacity {
        Some(CAppError::WireCapacity)
    } else {
        match expansion_verdict(decls, channels, task_capacity, module_capacity) {
            Some(e) => Some(c_graph_error(e)),
            None => match graph_cycle_task(decls) {
                Some(_) => Some(CAppError::Admission),
                None => match graph_profile_verdict(decls, default_kernel_memory(), default_kernel_deadline(), profile) {
                    Ok(()) => None,
                    Err(_) => Some(CAppError::Admission),
                },
            },
        }
    }
}

// ------------------------------------------------------------- dispatch

pub open spec fn is_due<S>(t: CTask<S>, now_us: u64) -> bool {
    now_us >= t.next_release_us
}

/// Whole periods a due task is late by, saturated to `u32`.
pub open spec fn late_periods<S>(t: CTask<S>, now_us: u64) -> u32 {
    let q = (now_us - t.next_release_us) / (t.period_us as int);
    if q > u32::MAX { u32::MAX } else { q as u32 }
}

pub open spec fn sat_u64(x: int) -> u64 {
    if x > u64::MAX { u64::MAX } else { x as u64 }
}

/// A task after a dispatch pass at `now_us`: a due task's next release moves
/// past every elapsed release, keeping its phase.
pub open spec fn stepped<S>(t: CTask<S>, now_us: u64) -> CTask<S> {
    if is_due(t, now_us) {
        let advance = sat_u64(t.period_us * sat_u64(late_periods(t, now_us) + 1));
        CTask { next_release_us: sat_u64(t.next_release_us + advance), ..t }
    } else {
        t
    }
}

/// The tasks after the first `k` have been dispatched.
pub open spec fn dispatched<S>(tasks: Seq<CTask<S>>, now_us: u64, k: int) -> Seq<CTask<S>> {
    Seq::new(tasks.len(), |j: int| if j < k { stepped(tasks[j], now_us) } else { tasks[j] })
}

/// Releases skipped by the due tasks among the first `k`.
pub open spec fn skipped_sum<S>(tasks: Seq<CTask<S>>, now_us: u64, k: int) -> nat
    decreases k,
{
    if k <= 0 {
        0
    } else {
        skipped_sum(tasks, now_us, k - 1) + if is_due(tasks[k - 1], now_us) { late_periods(tasks[k - 1], now_us) as nat } else { 0nat }
    }
}

/// Due tasks among the first `k`.
pub open spec fn due_count<S>(tasks: Seq<CTask<S>>, now_us: u64, k: int) -> nat
    decreases k,
{
    if k <= 0 {
        0
    } else {
        due_count(tasks, now_us, k - 1) + if is_due(tasks[k - 1], now_us) { 1nat } else { 0nat }
    }
}

/// Earliest next release among the first `k` tasks.
pub open spec fn earliest<S>(tasks: Seq<CTask<S>>, k: int) -> Option<u64>
    decreases k,
{
    if k <= 0 {
        None
    } else {
        let t = tasks[k - 1].next_release_us;
        match earliest(tasks, k - 1) {
            Some(m) => Some(if m <= t { m } else { t }),
            None => Some(t),
        }
    }
}

pub open spec fn sat_u32(x: int) -> u32 {
    if x > u32::MAX { u32::MAX } else { x as u32 }
}

pub open spec fn sat_u8(x: nat) -> u8 {
    if x > u8::MAX { u8::MAX } else { x as u8 }
}

/// Dispatch moves only release times: labels and periods stay, so every
/// wire still joins registered labels.
proof fn lemma_dispatched_wf<S>(now: Seq<CTask<S>>, tasks: Seq<CTask<S>>, now_us: u64, k: int, wires: Seq<CWire>)
    requires
        now == dispatched(tasks, now_us, k),
        forall|i: int, j: int| 0 <= i < j < tasks.len() ==> #[trigger] tasks[i].name@ != #[trigger] tasks[j].name@,
        forall|i: int| 0 <= i < tasks.len() ==> #[trigger] tasks[i].period_us > 0,
        forall|i: int| 0 <= i < wires.len() ==> named(tasks, #[trigger] wires[i].from@) && named(tasks, wires[i].to@),
    ensures
        forall|i: int, j: int| 0 <= i < j < now.len() ==> #[trigger] now[i].name@ != #[trigger] now[j].name@,
        forall|i: int| 0 <= i < now.len() ==> #[trigger] now[i].period_us > 0,
        forall|i: int| 0 <= i < wires.len() ==> named(now, #[trigger] wires[i].from@) && named(now, wires[i].to@),
{
    assert forall|i: int| 0 <= i < now.len() implies #[trigger] now[i].name == tasks[i].name && now[i].period_us == tasks[i].period_us by {
    }
    assert forall|i: int, j: int| 0 <= i < j < now.len() implies #[trigger] now[i].name@ != #[trigger] now[j].name@ by {
        assert(now[i].name == tasks[i].name && now[j].name == tasks[j].name);
    }
    assert forall|i: int| 0 <= i < now.len() implies #[trigger] now[i].period_us > 0 by {
        assert(now[i].period_us == tasks[i].period_us);
    }
    assert forall|i: int| 0 <= i < wires.len() implies named(now, #[trigger] wires[i].from@) && named(now, wires[i].to@) by {
        let a = choose|j: int| 0 <= j < tasks.len() && #[trigger] tasks[j].name@ == wires[i].from@;
        let b = choose|j: int| 0 <= j < tasks.len() && #[trigger] tasks[j].name@ == wires[i].to@;
        assert(now[a].name == tasks[a].name);
        assert(now[b].name == tasks[b].name);
    }
}

/// A due task keeps its phase through dispatch: its next release moves by
/// whole periods to the first release after `now_us`, so late polling skips
/// missed releases instead of replaying them, and counts them (when the count
/// fits in 32 bits and the new release time in 64).
pub proof fn dispatch_keeps_phase<S>(t: CTask<S>, now_us: u64)
    requires
        t.period_us > 0,
        is_due(t, now_us),
        (now_us - t.next_release_us) / (t.period_us as int) <= u32::MAX,
        t.next_release_us + ((now_us - t.next_release_us) / (t.period_us as int) + 1) * t.period_us <= u64::MAX,
    ensures
        ({
            let old = t.next_release_us as int;
            let p = t.period_us as int;
            let n = stepped(t, now_us).next_release_us as int;
            &&& (n - old) % p == 0
            &&& n - p <= now_us < n
            &&& (n - old) / p - 1 == late_periods(t, now_us)
        }),
{
    let old = t.next_release_us as int;
    let p = t.period_us as int;
    let d = now_us - old;
    let q = d / p;
    assert(d == p * q + d % p && 0 <= d % p < p) by {
        vstd::arithmetic::div_mod::lemma_fundamental_div_mod(d, p);
        vstd::arithmetic::div_mod::lemma_mod_bound(d, p);
    }
    assert(0 <= q) by {
        vstd::arithmetic::div_mod::lemma_div_pos_is_pos(d, p);
    }
    assert((q + 1) * p == p * q + p) by (nonlinear_arith);
    assert(((q + 1) * p) % p == 0) by {
        vstd::arithmetic::div_mod::lemma_mod_multiples_basic(q + 1, p);
    }
    assert((p * (q + 1)) / p == q + 1) by {
        vstd::arithmetic::div_mod::lemma_div_multiples_vanish(q + 1, p);
    }
    assert(p * (q + 1) == (q + 1) * p) by (nonlinear_arith);
    let n = stepped(t, now_us).next_release_us as int;
    assert(n == old + (q + 1) * p);
}

/// Fixed-capacity callback application: `TASKS` tasks, `WIRES` wires,
/// callbacks of type `S`. Registration never allocates beyond the capacities.
pub struct CApp<const TASKS: usize, const WIRES: usize, S = fn() -> i32> {
    tasks: Vec<CTask<S>>,
    wires: Vec<CWire>,
    state: CAppState,
    skipped_releases: u32,
}

impl<const TASKS: usize, const WIRES: usize, S: Fn() -> i32 + Copy> CApp<TASKS, WIRES, S> {
    pub closed spec fn spec_tasks(self) -> Seq<CTask<S>> {
        self.tasks@
    }

    pub closed spec fn spec_wires(self) -> Seq<CWire> {
        self.wires@
    }

    pub closed spec fn spec_state(self) -> CAppState {
        self.state
    }

    pub closed spec fn spec_skipped(self) -> u32 {
        self.skipped_releases
    }

    /// Registered tasks have distinct labels and positive periods; wires join
    /// registered labels, at most once per pair; capacities hold.
    pub closed spec fn wf(self) -> bool {
        &&& self.tasks@.len() <= TASKS
        &&& self.wires@.len() <= WIRES
        &&& forall|i: int, j: int| 0 <= i < j < self.tasks@.len() ==> #[trigger] self.tasks@[i].name@ != #[trigger] self.tasks@[j].name@
        &&& forall|i: int| 0 <= i < self.tasks@.len() ==> #[trigger] self.tasks@[i].period_us > 0
        &&& forall|i: int| 0 <= i < self.wires@.len() ==> named(self.tasks@, #[trigger] self.wires@[i].from@) && named(self.tasks@, self.wires@[i].to@)
    }

    pub fn new() -> (r: Self)
        ensures
            r.wf(),
            r.spec_tasks().len() == 0,
            r.spec_wires().len() == 0,
            r.spec_state() == CAppState::Configuring,
            r.spec_skipped() == 0,
    {
        CApp { tasks: Vec::new(), wires: Vec::new(), state: CAppState::Configuring, skipped_releases: 0 }
    }

    fn valid_name(name: &str) -> (r: bool)
        ensures
            r == valid_label(name.spec_bytes()),
    {
        let bytes = name.as_bytes();
        if bytes.len() == 0 || bytes.len() > 48 {
            return false;
        }
        if !(0x61 <= bytes[0] && bytes[0] <= 0x7a) {
            return false;
        }
        let mut i: usize = 0;
        while i < bytes.len()
            invariant
                bytes@ == name.spec_bytes(),
                i <= bytes@.len(),
                forall|k: int| 0 <= k < i ==> #[trigger] label_byte(bytes@[k]),
            decreases bytes.len() - i,
        {
            let b = bytes[i];
            if !((0x61 <= b && b <= 0x7a) || (0x30 <= b && b <= 0x39) || b == 0x5f || b == 0x2d) {
                assert(!label_byte(bytes@[i as int]));
                return false;
            }
            i += 1;
        }
        true
    }

    fn has_task(&self, name: &str) -> (r: bool)
        ensures
            r == named(self.tasks@, name@),
    {
        let mut i: usize = 0;
        while i < self.tasks.len()
            invariant
                i <= self.tasks@.len(),
                forall|k: int| 0 <= k < i ==> #[trigger] self.tasks@[k].name@ != name@,
            decreases self.tasks.len() - i,
        {
            if same_label(self.tasks[i].name, name) {
                return true;
            }
            i += 1;
        }
        false
    }

    /// Register a periodic task; refused outside configuration, on a bad
    /// label, a zero period, a repeated label, a full table, or timing
    /// overrides that cannot hold together.
    pub fn task(&mut self, name: &'static str, period_us: u32, step: S, options: CTaskOptions) -> (r: Result<(), CAppError>)
        requires
            old(self).wf(),
        ensures
            final(self).wf(),
            task_verdict(old(self).spec_state(), old(self).spec_tasks(), TASKS as int, name, period_us, options) matches Some(e)
                ==> r == Err::<(), CAppError>(e) && *final(self) == *old(self),
            task_verdict(old(self).spec_state(), old(self).spec_tasks(), TASKS as int, name, period_us, options) is None ==> {
                &&& r is Ok
                &&& final(self).spec_tasks() == old(self).spec_tasks().push(
                    CTask { name, period_us, step, options, next_release_us: 0 },
                )
                &&& final(self).spec_wires() == old(self).spec_wires()
                &&& final(self).spec_state() == old(self).spec_state()
                &&& final(self).spec_skipped() == old(self).spec_skipped()
            },
    {
        if self.state != CAppState::Configuring {
            return Err(CAppError::InvalidState);
        }
        if !Self::valid_name(name) {
            return Err(CAppError::InvalidName);
        }
        if period_us == 0 {
            return Err(CAppError::InvalidPeriod);
        }
        if self.has_task(name) {
            return Err(CAppError::DuplicateTask);
        }
        if self.tasks.len() >= TASKS {
            return Err(CAppError::TaskCapacity);
        }
        let deadline_us = if options.deadline_us == 0 { period_us } else { options.deadline_us };
        let budget_us = if options.budget_us == 0 {
            if period_us / 10 >= 1 { period_us / 10 } else { 1 }
        } else {
            options.budget_us
        };
        let slack = if deadline_us >= budget_us { deadline_us - budget_us } else { 0 };
        if deadline_us > period_us || budget_us > deadline_us || options.blocking_us > slack || options.jitter_us >= period_us {
            return Err(CAppError::InvalidOptions);
        }
        let ghost before = self.tasks@;
        self.tasks.push(CTask { name, period_us, step, options, next_release_us: 0 });
        proof {
            let n = before.len() as int;
            assert forall|i: int, j: int| 0 <= i < j < self.tasks@.len() implies #[trigger] self.tasks@[i].name@ != #[trigger] self.tasks@[j].name@ by {
                if j == n {
                    assert(self.tasks@[i] == before[i]);
                    if before[i].name@ == name@ {
                        assert(named(before, name@));
                    }
                } else {
                    assert(self.tasks@[i] == before[i] && self.tasks@[j] == before[j]);
                }
            }
            assert forall|i: int| 0 <= i < self.tasks@.len() implies #[trigger] self.tasks@[i].period_us > 0 by {
                if i < n {
                    assert(self.tasks@[i] == before[i]);
                }
            }
            assert forall|i: int| 0 <= i < self.wires@.len() implies named(self.tasks@, #[trigger] self.wires@[i].from@) && named(self.tasks@, self.wires@[i].to@) by {
                let a = choose|j: int| 0 <= j < before.len() && #[trigger] before[j].name@ == self.wires@[i].from@;
                let b = choose|j: int| 0 <= j < before.len() && #[trigger] before[j].name@ == self.wires@[i].to@;
                assert(self.tasks@[a] == before[a]);
                assert(self.tasks@[b] == before[b]);
            }
        }
        Ok(())
    }

    /// Register a wire between two registered tasks.
    pub fn wire(&mut self, from: &'static str, to: &'static str, capacity: u8) -> (r: Result<(), CAppError>)
        requires
            old(self).wf(),
        ensures
            final(self).wf(),
            wire_verdict(old(self).spec_state(), old(self).spec_tasks(), old(self).spec_wires(), WIRES as int, from, to, capacity) matches Some(e)
                ==> r == Err::<(), CAppError>(e) && *final(self) == *old(self),
            wire_verdict(old(self).spec_state(), old(self).spec_tasks(), old(self).spec_wires(), WIRES as int, from, to, capacity) is None ==> {
                &&& r is Ok
                &&& final(self).spec_wires() == old(self).spec_wires().push(CWire { from, to, capacity })
                &&& final(self).spec_tasks() == old(self).spec_tasks()
                &&& final(self).spec_state() == old(self).spec_state()
                &&& final(self).spec_skipped() == old(self).spec_skipped()
            },
    {
        if self.state != CAppState::Configuring {
            return Err(CAppError::InvalidState);
        }
        if !Self::valid_name(from) || !Self::valid_name(to) {
            return Err(CAppError::InvalidName);
        }
        if capacity == 0 || capacity > 64 || self.wires.len() >= WIRES {
            return Err(CAppError::WireCapacity);
        }
        if !self.has_task(from) || !self.has_task(to) {
            return Err(CAppError::UnknownEndpoint);
        }
        let mut i: usize = 0;
        while i < self.wires.len()
            invariant
                self.wf(),
                *self == *old(self),
                old(self).state == CAppState::Configuring,
                valid_label(from.spec_bytes()) && valid_label(to.spec_bytes()),
                !(capacity == 0 || capacity > 64 || old(self).wires@.len() >= WIRES),
                named(old(self).tasks@, from@) && named(old(self).tasks@, to@),
                i <= self.wires@.len(),
                forall|k: int| 0 <= k < i ==> !(#[trigger] self.wires@[k].from@ == from@ && self.wires@[k].to@ == to@),
            decreases self.wires.len() - i,
        {
            if same_label(self.wires[i].from, from) && same_label(self.wires[i].to, to) {
                assert(self.wires@[i as int].from@ == from@ && self.wires@[i as int].to@ == to@);
                return Err(CAppError::WireCapacity);
            }
            i += 1;
        }
        self.wires.push(CWire { from, to, capacity });
        proof {
            let n = self.wires@.len() - 1;
            assert(self.wires@[n].from@ == from@);
        }
        Ok(())
    }

    fn declaration(task: CTask<S>) -> (r: TaskDecl)
        ensures
            r == c_decl(task),
    {
        let mut declaration = match task.options.role {
            CTaskRole::Periodic => TaskDecl::periodic(task.name, task.period_us),
            CTaskRole::Control => TaskDecl::control(task.name, task.period_us),
            CTaskRole::Service => TaskDecl::service(task.name, task.period_us),
        };
        proof {
            CapabilitySet::lemma_empty_is_none(declaration.required);
            CapabilitySet::lemma_empty_is_none(declaration.owns);
            let fill = vstd::array::spec_array_fill_for_copy_type::<Option<&'static str>, 4>(None);
            assert(declaration.after =~= fill);
        }
        if task.options.budget_us != 0 {
            declaration = declaration.budget_us(task.options.budget_us);
        }
        if task.options.deadline_us != 0 {
            declaration = declaration.deadline_us(task.options.deadline_us);
        }
        if task.options.jitter_us != 0 {
            declaration = declaration.jitter_us(task.options.jitter_us);
        }
        let criticality = match task.options.role {
            CTaskRole::Periodic => Criticality::Driver,
            CTaskRole::Control => Criticality::HardRealtime,
            CTaskRole::Service => Criticality::BestEffort,
        };
        declaration.blocking_us(task.options.blocking_us).criticality(criticality)
    }

    fn graph_error(error: GraphError) -> (r: CAppError)
        ensures
            r == c_graph_error(error),
    {
        match error {
            GraphError::DuplicateName(_) => CAppError::DuplicateTask,
            GraphError::ChannelEndpointUnknown { .. } => CAppError::UnknownEndpoint,
            GraphError::TooManyTasks { .. } => CAppError::TaskCapacity,
            GraphError::TooManyChannels => CAppError::WireCapacity,
            _ => CAppError::Admission,
        }
    }

    /// Expand the declaration through graph admission against `profile` and
    /// start dispatch with every task first released at `now_us`.
    pub fn run<const MODULES: usize>(&mut self, profile: SystemProfile, now_us: u64) -> (r: Result<(), CAppError>)
        requires
            old(self).wf(),
            MODULES <= 32,
        ensures
            final(self).wf(),
            old(self).spec_state() != CAppState::Configuring || old(self).spec_tasks().len() == 0
                ==> r == Err::<(), CAppError>(CAppError::InvalidState) && *final(self) == *old(self),
            old(self).spec_state() == CAppState::Configuring && old(self).spec_tasks().len() > 0 ==> {
                match run_verdict(old(self).spec_tasks(), old(self).spec_wires(), TASKS as int, MODULES as int, profile) {
                    Some(e) => r == Err::<(), CAppError>(e) && *final(self) == *old(self),
                    None => {
                        &&& r is Ok
                        &&& final(self).spec_state() == CAppState::Running
                        &&& final(self).spec_tasks() == old(self).spec_tasks().map_values(
                            |t: CTask<S>| CTask { next_release_us: now_us, ..t },
                        )
                        &&& final(self).spec_wires() == old(self).spec_wires()
                        &&& final(self).spec_skipped() == old(self).spec_skipped()
                    },
                }
            },
    {
        if self.state != CAppState::Configuring || self.tasks.len() == 0 {
            return Err(CAppError::InvalidState);
        }
        let ghost decls = c_decls(self.tasks@);
        let ghost channels = c_channels(self.wires@);
        let mut graph = AppGraph::<TASKS>::new();
        let mut i: usize = 0;
        while i < self.tasks.len()
            invariant
                self.wf(),
                *self == *old(self),
                old(self).state == CAppState::Configuring,
                old(self).tasks@.len() > 0,
                decls == c_decls(self.tasks@),
                i <= self.tasks@.len(),
                graph.decls() == decls.take(i as int),
                graph.channel_decls().len() == 0,
                graph.spec_kernel_memory() == default_kernel_memory(),
                graph.spec_kernel_deadline() == default_kernel_deadline(),
            decreases self.tasks.len() - i,
        {
            let decl = Self::declaration(self.tasks[i]);
            proof {
                if crate::graph::declared(graph.decls(), decl.name@) {
                    let j = choose|j: int| 0 <= j < graph.decls().len() && #[trigger] graph.decls()[j].name@ == decl.name@;
                    assert(graph.decls()[j] == decls[j]);
                    assert(self.tasks@[j].name@ == self.tasks@[i as int].name@);
                }
                if crate::graph::overflowed(decl) {
                    let k = choose|k: int| 0 <= k < 4 && (#[trigger] decl.after@[k] matches Some(s) && s@ == crate::graph::overflow_marker());
                    assert(decl.after@[k] is None);
                }
            }
            match graph.task(decl) {
                Ok(g) => {
                    graph = g;
                },
                Err(e) => {
                    return Err(Self::graph_error(e));
                },
            }
            assert(decls.take(i + 1) =~= decls.take(i as int).push(decl));
            i += 1;
        }
        assert(decls.take(i as int) =~= decls);
        let mut w: usize = 0;
        while w < self.wires.len()
            invariant
                self.wf(),
                *self == *old(self),
                old(self).state == CAppState::Configuring,
                old(self).tasks@.len() > 0,
                decls == c_decls(self.tasks@),
                channels == c_channels(self.wires@),
                w <= self.wires@.len(),
                w <= TASKS,
                graph.decls() == decls,
                graph.channel_decls() == channels.take(w as int),
                graph.spec_kernel_memory() == default_kernel_memory(),
                graph.spec_kernel_deadline() == default_kernel_deadline(),
            decreases self.wires.len() - w,
        {
            let wire = self.wires[w];
            proof {
                let a = choose|j: int| 0 <= j < self.tasks@.len() && #[trigger] self.tasks@[j].name@ == self.wires@[w as int].from@;
                let b = choose|j: int| 0 <= j < self.tasks@.len() && #[trigger] self.tasks@[j].name@ == self.wires@[w as int].to@;
                assert(decls[a].name@ == wire.from@);
                assert(decls[b].name@ == wire.to@);
            }
            match graph.channel(wire.from, wire.to) {
                Ok(g) => {
                    graph = g;
                },
                Err(e) => {
                    return Err(Self::graph_error(e));
                },
            }
            assert(channels.take(w + 1) =~= channels.take(w as int).push(ChannelDecl { from: wire.from, to: wire.to }));
            w += 1;
        }
        assert(channels.take(w as int) =~= channels);
        match graph.build_for::<MODULES>(profile) {
            Ok(_) => {},
            Err(e) => {
                return Err(Self::graph_error(e));
            },
        }
        let ghost before = self.tasks@;
        let mut k: usize = 0;
        while k < self.tasks.len()
            invariant
                k <= self.tasks@.len(),
                self.tasks@.len() == before.len(),
                forall|j: int| 0 <= j < self.tasks@.len() ==> #[trigger] self.tasks@[j] == if j < k {
                    CTask { next_release_us: now_us, ..before[j] }
                } else {
                    before[j]
                },
                self.wires == old(self).wires,
                self.state == old(self).state,
                self.skipped_releases == old(self).skipped_releases,
            decreases self.tasks@.len() - k,
        {
            let mut t = self.tasks[k];
            t.next_release_us = now_us;
            self.tasks.set(k, t);
            k += 1;
        }
        self.state = CAppState::Running;
        proof {
            assert(self.tasks@ =~= before.map_values(|t: CTask<S>| CTask { next_release_us: now_us, ..t }));
            assert forall|i: int, j: int| 0 <= i < j < self.tasks@.len() implies #[trigger] self.tasks@[i].name@ != #[trigger] self.tasks@[j].name@ by {
                assert(before[i].name@ != before[j].name@);
            }
            assert forall|i: int| 0 <= i < self.tasks@.len() implies #[trigger] self.tasks@[i].period_us > 0 by {
                assert(before[i].period_us > 0);
            }
            assert forall|i: int| 0 <= i < self.wires@.len() implies named(self.tasks@, #[trigger] self.wires@[i].from@) && named(self.tasks@, self.wires@[i].to@) by {
                let a = choose|j: int| 0 <= j < before.len() && #[trigger] before[j].name@ == self.wires@[i].from@;
                let b = choose|j: int| 0 <= j < before.len() && #[trigger] before[j].name@ == self.wires@[i].to@;
                assert(self.tasks@[a].name == before[a].name);
                assert(self.tasks@[b].name == before[b].name);
            }
        }
        Ok(())
    }

    /// Run each due callback at most once, keeping every task's phase: when
    /// polling is late by several periods, the missed releases are counted as
    /// skipped rather than replayed. A negative callback result faults the
    /// application and ends the pass.
    pub fn poll_at(&mut self, now_us: u64) -> (r: Result<CDispatchReport, CAppError>)
        requires
            old(self).wf(),
            forall|i: int| 0 <= i < old(self).spec_tasks().len() ==> call_requires(#[trigger] old(self).spec_tasks()[i].step, ()),
        ensures
            final(self).wf(),
            old(self).spec_state() != CAppState::Running ==> r == Err::<CDispatchReport, CAppError>(CAppError::InvalidState)
                && *final(self) == *old(self),
            old(self).spec_state() == CAppState::Running ==> {
                let tasks = old(self).spec_tasks();
                let n = tasks.len() as int;
                &&& final(self).spec_wires() == old(self).spec_wires()
                &&& r matches Ok(report) ==> {
                    &&& final(self).spec_tasks() == dispatched(tasks, now_us, n)
                    &&& final(self).spec_state() == CAppState::Running
                    &&& report == CDispatchReport {
                        ran: sat_u8(due_count(tasks, now_us, n)),
                        skipped: sat_u32(skipped_sum(tasks, now_us, n) as int),
                        next_release_us: earliest(dispatched(tasks, now_us, n), n),
                    }
                    &&& final(self).spec_skipped() == sat_u32(old(self).spec_skipped() + skipped_sum(tasks, now_us, n))
                }
                &&& r matches Err(e) ==> exists|k: int| {
                    &&& 0 <= k < n
                    &&& is_due(#[trigger] tasks[k], now_us)
                    &&& e matches CAppError::StepFailed { task, code } && task == tasks[k].name && code < 0
                        && call_ensures(tasks[k].step, (), code)
                    &&& final(self).spec_tasks() == dispatched(tasks, now_us, k + 1)
                    &&& final(self).spec_state() == CAppState::Faulted
                    &&& final(self).spec_skipped() == sat_u32(old(self).spec_skipped() + skipped_sum(tasks, now_us, k + 1))
                }
            },
    {
        if self.state != CAppState::Running {
            return Err(CAppError::InvalidState);
        }
        let ghost tasks0 = self.tasks@;
        let ghost skipped0 = self.skipped_releases;
        let mut ran: u8 = 0;
        let mut skipped: u32 = 0;
        let mut next_release: Option<u64> = None;
        let mut i: usize = 0;
        while i < self.tasks.len()
            invariant
                old(self).wf(),
                old(self).state == CAppState::Running,
                tasks0 == old(self).tasks@,
                skipped0 == old(self).skipped_releases,
                forall|j: int| 0 <= j < tasks0.len() ==> call_requires(#[trigger] tasks0[j].step, ()),
                i <= self.tasks@.len() == tasks0.len(),
                self.tasks@ == dispatched(tasks0, now_us, i as int),
                self.wires == old(self).wires,
                self.state == CAppState::Running,
                ran == sat_u8(due_count(tasks0, now_us, i as int)),
                skipped == sat_u32(skipped_sum(tasks0, now_us, i as int) as int),
                self.skipped_releases == sat_u32(skipped0 + skipped_sum(tasks0, now_us, i as int)),
                next_release == earliest(dispatched(tasks0, now_us, tasks0.len() as int), i as int),
            decreases self.tasks@.len() - i,
        {
            let mut task = self.tasks[i];
            assert(task == tasks0[i as int]);
            assert(task.period_us > 0);
            if now_us >= task.next_release_us {
                let q = (now_us - task.next_release_us) / (task.period_us as u64);
                let late: u32 = if q > u32::MAX as u64 { u32::MAX } else { q as u32 };
                skipped = skipped.saturating_add(late);
                self.skipped_releases = self.skipped_releases.saturating_add(late);
                let advance = match (task.period_us as u64).checked_mul((late as u64) + 1) {
                    Some(a) => a,
                    None => u64::MAX,
                };
                task.next_release_us = task.next_release_us.saturating_add(advance);
                self.tasks.set(i, task);
                let step = task.step;
                let result = step();
                if result < 0 {
                    self.state = CAppState::Faulted;
                    proof {
                        assert(self.tasks@ =~= dispatched(tasks0, now_us, i + 1));
                        assert(is_due(tasks0[i as int], now_us));
                        lemma_dispatched_wf(self.tasks@, tasks0, now_us, i + 1, self.wires@);
                    }
                    return Err(CAppError::StepFailed { task: task.name, code: result });
                }
                ran = ran.saturating_add(1);
            }
            proof {
                assert(self.tasks@ =~= dispatched(tasks0, now_us, i + 1));
                assert(dispatched(tasks0, now_us, tasks0.len() as int)[i as int] == self.tasks@[i as int]);
            }
            next_release = Some(match next_release {
                Some(current) => if current <= task.next_release_us { current } else { task.next_release_us },
                None => task.next_release_us,
            });
            i += 1;
        }
        proof {
            lemma_dispatched_wf(self.tasks@, tasks0, now_us, tasks0.len() as int, self.wires@);
        }
        Ok(CDispatchReport { ran, skipped, next_release_us: next_release })
    }

    pub fn skipped_releases(&self) -> (r: u32)
        ensures
            r == self.spec_skipped(),
    {
        self.skipped_releases
    }
}

impl<const TASKS: usize, const WIRES: usize, S: Fn() -> i32 + Copy> Default for CApp<TASKS, WIRES, S> {
    fn default() -> (r: Self)
        ensures
            r.wf(),
            r.spec_tasks().len() == 0,
            r.spec_wires().len() == 0,
            r.spec_state() == CAppState::Configuring,
            r.spec_skipped() == 0,
    {
        Self::new()
    }
}

} // verus!
