//! Application graph: tasks, channels, and dependencies are declared once, by
//! name, and every kernel input (manifest, startup nodes, task metas, labels)
//! is derived from that one declaration.
//!
//! Tasks get opaque identities `ModuleId::App(n)` in declaration order unless
//! they opt into a readable role. Every failure is one diagnostic naming the
//! offending label.

use vstd::prelude::*;

use crate::async_rt::{
    admit_reactor_domains, known_domain, reactor_verdict, somes, ReactorAdmissionError,
    ReactorAdmissionPlan, ReactorChannelContract, ReactorDomainContract,
};
use crate::executor::TaskMeta;
use crate::health::{FaultThresholds, ModuleId};
use crate::label::same_label;
use crate::manifest::{
    kernel_capability_bits, kernel_owned_capabilities, Capability, CapabilitySet, Criticality,
    DeadlineContract, ManifestError, MemoryBudget, ModuleSpec, SystemManifest, SystemProfile,
};
use crate::scan::{first_some, lemma_first_some_hit, lemma_first_some_none_all};
use crate::startup::{DependencySet, StartupNode};

verus! {

/// Dependency slots per task.
pub const MAX_DEPS: usize = 4;

/// The marker a full dependency list records in its last slot; the build
/// reports it as too many dependencies for that task.
pub open spec fn overflow_marker() -> Seq<char> {
    "\0too-many"@
}

pub open spec fn clamp_nonzero_spec(value: u32, upper: u32) -> u32 {
    let v = if value < 1 { 1u32 } else { value };
    if v > upper { upper } else { v }
}

fn clamp_nonzero(value: u32, upper: u32) -> (r: u32)
    ensures
        r == clamp_nonzero_spec(value, upper),
{
    let value = if value < 1 { 1 } else { value };
    if value > upper { upper } else { value }
}

/// Default jitter: `period / divisor`, at least 1 µs and below the period;
/// zero for periods of at most 1 µs.
pub open spec fn default_jitter(period_us: u32, divisor: u32) -> u32 {
    if period_us <= 1 {
        0
    } else {
        clamp_nonzero_spec(period_us / divisor, (period_us - 1) as u32)
    }
}

/// Default execution budget: a tenth of the period, between 1 µs and the
/// period; 1 µs for a zero period.
pub open spec fn default_budget(period_us: u32) -> u32 {
    if period_us == 0 {
        1
    } else {
        clamp_nonzero_spec(period_us / 10, period_us)
    }
}

/// One task declaration; construct through the typed builders.
#[derive(Clone, Copy, Debug)]
pub struct TaskDecl {
    pub name: &'static str,
    pub criticality: Criticality,
    /// Offset of the first release from the executor epoch.
    pub phase_us: u32,
    pub period_us: u32,
    /// Relative deadline from each release.
    pub deadline_us: u32,
    pub max_jitter_us: u32,
    pub execution_budget_us: u32,
    pub blocking_us: u32,
    pub memory: MemoryBudget,
    pub required: CapabilitySet,
    pub owns: CapabilitySet,
    /// Optional readable well-known role instead of an opaque `App(n)` slot.
    pub role: Option<ModuleId>,
    /// Deadline contract participation (services opt out).
    pub has_deadline: bool,
    /// Optional explicit core placement.
    pub core_affinity: Option<u8>,
    /// The async reactor domain the task drives, if any.
    pub reactor_domain: Option<u8>,
    pub after: [Option<&'static str>; 4],
}

/// The fields every builder starts from.
pub open spec fn base_decl(name: &'static str, criticality: Criticality, period_us: u32, d: TaskDecl) -> bool {
    &&& d.name == name
    &&& d.criticality == criticality
    &&& d.phase_us == 0
    &&& d.period_us == period_us
    &&& d.deadline_us == period_us
    &&& d.max_jitter_us == default_jitter(period_us, 100)
    &&& d.execution_budget_us == default_budget(period_us)
    &&& d.blocking_us == 0
    &&& d.memory == (MemoryBudget { flash_bytes: 1024, ram_bytes: 256, pool_slots: 0 })
    &&& d.required@ == 0
    &&& d.owns@ == 0
    &&& d.role is None
    &&& d.has_deadline
    &&& d.core_affinity is None
    &&& d.reactor_domain is None
    &&& forall|k: int| 0 <= k < 4 ==> #[trigger] d.after@[k] is None
}

/// The first free dependency slot.
pub open spec fn free_slots(a: Seq<Option<&'static str>>) -> spec_fn(int) -> Option<int> {
    |k: int| if a[k] is None { Some(k) } else { None }
}

impl TaskDecl {
    fn base(name: &'static str, criticality: Criticality, period_us: u32) -> (r: Self)
        ensures
            base_decl(name, criticality, period_us, r),
    {
        let max_jitter_us = if period_us <= 1 {
            0
        } else {
            clamp_nonzero(period_us / 100, period_us - 1)
        };
        let execution_budget_us = if period_us == 0 {
            1
        } else {
            clamp_nonzero(period_us / 10, period_us)
        };
        TaskDecl {
            name,
            criticality,
            phase_us: 0,
            period_us,
            deadline_us: period_us,
            max_jitter_us,
            execution_budget_us,
            blocking_us: 0,
            memory: MemoryBudget::new(1024, 256, 0),
            required: CapabilitySet::empty(),
            owns: CapabilitySet::empty(),
            role: None,
            has_deadline: true,
            core_affinity: None,
            reactor_domain: None,
            after: [None; 4],
        }
    }

    /// A periodic worker with safe defaults: driver criticality, jitter a
    /// hundredth of the period, budget a tenth, 1 KiB flash and 256 B RAM.
    pub fn periodic(name: &'static str, period_us: u32) -> (r: Self)
        ensures
            base_decl(name, Criticality::Driver, period_us, r),
    {
        Self::base(name, Criticality::Driver, period_us)
    }

    /// A hard-real-time control task: jitter a two-hundredth of the period.
    pub fn control(name: &'static str, period_us: u32) -> (r: Self)
        ensures
            base_decl(name, Criticality::HardRealtime, period_us, TaskDecl { max_jitter_us: default_jitter(period_us, 100), ..r }),
            r.max_jitter_us == default_jitter(period_us, 200),
    {
        let mut decl = Self::base(name, Criticality::HardRealtime, period_us);
        decl.max_jitter_us = if period_us <= 1 {
            0
        } else {
            clamp_nonzero(period_us / 200, period_us - 1)
        };
        decl
    }

    /// A best-effort background service polled every `poll_us`; no deadline contract.
    pub fn service(name: &'static str, poll_us: u32) -> (r: Self)
        ensures
            base_decl(name, Criticality::BestEffort, poll_us, TaskDecl { has_deadline: true, ..r }),
            !r.has_deadline,
    {
        let mut decl = Self::base(name, Criticality::BestEffort, poll_us);
        decl.has_deadline = false;
        decl
    }

    pub fn criticality(self, criticality: Criticality) -> (r: Self)
        ensures
            r == (TaskDecl { criticality, ..self }),
    {
        TaskDecl { criticality, ..self }
    }

    pub fn jitter_us(self, max_jitter_us: u32) -> (r: Self)
        ensures
            r == (TaskDecl { max_jitter_us, ..self }),
    {
        TaskDecl { max_jitter_us, ..self }
    }

    /// Offset the first release.
    pub fn phase_us(self, phase_us: u32) -> (r: Self)
        ensures
            r == (TaskDecl { phase_us, ..self }),
    {
        TaskDecl { phase_us, ..self }
    }

    /// A constrained relative deadline; the default is the period.
    pub fn deadline_us(self, deadline_us: u32) -> (r: Self)
        ensures
            r == (TaskDecl { deadline_us, ..self }),
    {
        TaskDecl { deadline_us, ..self }
    }

    pub fn budget_us(self, execution_budget_us: u32) -> (r: Self)
        ensures
            r == (TaskDecl { execution_budget_us, ..self }),
    {
        TaskDecl { execution_budget_us, ..self }
    }

    /// Measured non-preemptible blocking bound.
    pub fn blocking_us(self, blocking_us: u32) -> (r: Self)
        ensures
            r == (TaskDecl { blocking_us, ..self }),
    {
        TaskDecl { blocking_us, ..self }
    }

    pub fn memory(self, memory: MemoryBudget) -> (r: Self)
        ensures
            r == (TaskDecl { memory, ..self }),
    {
        TaskDecl { memory, ..self }
    }

    /// The capabilities the task needs.
    pub fn require(self, capabilities: CapabilitySet) -> (r: Self)
        ensures
            r == (TaskDecl { required: capabilities, ..self }),
    {
        TaskDecl { required: capabilities, ..self }
    }

    pub fn owns(self, capabilities: CapabilitySet) -> (r: Self)
        ensures
            r == (TaskDecl { owns: capabilities, ..self }),
    {
        TaskDecl { owns: capabilities, ..self }
    }

    /// Use a readable well-known role instead of an opaque slot.
    pub fn role(self, role: ModuleId) -> (r: Self)
        ensures
            r == (TaskDecl { role: Some(role), ..self }),
    {
        TaskDecl { role: Some(role), ..self }
    }

    /// Pin the task to a core.
    pub fn pin_core(self, core_index: u8) -> (r: Self)
        ensures
            r == (TaskDecl { core_affinity: Some(core_index), ..self }),
    {
        TaskDecl { core_affinity: Some(core_index), ..self }
    }

    /// Make the task the driver of one async reactor domain.
    pub fn reactor_domain(self, domain: u8) -> (r: Self)
        ensures
            r == (TaskDecl { reactor_domain: Some(domain), ..self }),
    {
        TaskDecl { reactor_domain: Some(domain), ..self }
    }

    /// Start the task after `name`: the first free slot takes it; with
    /// every slot taken the last one records the overflow marker.
    pub fn after(self, name: &'static str) -> (r: Self)
        ensures
            r == (TaskDecl { after: r.after, ..self }),
            first_some(free_slots(self.after@), 4) matches Some(k) ==> r.after@ == self.after@.update(k, Some(name)),
            first_some(free_slots(self.after@), 4) is None ==> (r.after@.subrange(0, 3) == self.after@.subrange(0, 3)
                && (r.after@[3] matches Some(m) && m@ == overflow_marker())),
    {
        let mut decl = self;
        let mut index: usize = 0;
        while index < MAX_DEPS
            invariant
                index <= 4,
                decl == self,
                first_some(free_slots(self.after@), index as int) is None,
            decreases 4 - index,
        {
            if decl.after[index].is_none() {
                proof { lemma_first_some_hit(free_slots(self.after@), index as int, 4); }
                decl.after[index] = Some(name);
                return decl;
            }
            index += 1;
        }
        let marker = "\0too-many";
        decl.after[MAX_DEPS - 1] = Some(marker);
        proof {
            assert(decl.after@.subrange(0, 3) =~= self.after@.subrange(0, 3));
        }
        decl
    }
}

/// One named graph channel.
#[derive(Clone, Copy, Debug, PartialEq, Eq)]
pub struct ChannelDecl {
    pub from: &'static str,
    pub to: &'static str,
}

impl ChannelDecl {
    pub fn new(from: &'static str, to: &'static str) -> (r: Self)
        ensures
            r == (ChannelDecl { from, to }),
    {
        ChannelDecl { from, to }
    }
}

#[derive(Clone, Copy, Debug, PartialEq, Eq)]
pub enum GraphError {
    DuplicateName(&'static str),
    UnknownDependency { task: &'static str, depends_on: &'static str },
    TooManyTasks { capacity: usize },
    TooManyDependencies { task: &'static str },
    DuplicateRole { task: &'static str },
    /// The startup order has a cycle reachable from the named task.
    Cycle { task: &'static str },
    ChannelEndpointUnknown { endpoint: &'static str },
    TooManyChannels,
    InvalidBlocking { task: &'static str, budget_us: u32, blocking_us: u32, period_us: u32 },
    /// The derived manifest was refused; the offending task is named.
    Manifest { task: &'static str, error: ManifestError },
}

#[derive(Clone, Copy, Debug, PartialEq, Eq)]
pub struct ReactorTaskBinding {
    pub task: &'static str,
    pub module: ModuleId,
    pub domain: u8,
}

#[derive(Clone, Copy, Debug, PartialEq, Eq)]
pub enum GraphReactorError {
    ReactorAdmission(ReactorAdmissionError),
    UnknownDomain { task: &'static str, domain: u8 },
    DuplicateDomainDriver { domain: u8, first_task: &'static str, duplicate_task: &'static str },
    MissingDomainDriver { domain: u8 },
}

// ------------------------------------------------------------- name lookups

/// The first declaration index whose label is `name`.
pub open spec fn name_hits(ts: Seq<TaskDecl>, name: Seq<char>) -> spec_fn(int) -> Option<int> {
    |i: int| if ts[i].name@ == name { Some(i) } else { None }
}

pub open spec fn index_of(ts: Seq<TaskDecl>, name: Seq<char>) -> Option<int> {
    first_some(name_hits(ts, name), ts.len() as int)
}

fn decl_index_in(tasks: &[TaskDecl], name: &str) -> (r: Option<usize>)
    ensures
        r matches Some(i) ==> index_of(tasks@, name@) == Some(i as int),
        r is None ==> index_of(tasks@, name@) is None,
{
    let mut i: usize = 0;
    while i < tasks.len()
        invariant
            i <= tasks@.len(),
            first_some(name_hits(tasks@, name@), i as int) is None,
        decreases tasks.len() - i,
    {
        if same_label(tasks[i].name, name) {
            proof { lemma_first_some_hit(name_hits(tasks@, name@), i as int, tasks@.len() as int); }
            return Some(i);
        }
        i += 1;
    }
    None
}

/// Number of role-less declarations before `k`.
pub open spec fn app_count(ts: Seq<TaskDecl>, k: int) -> nat
    decreases k,
{
    if k <= 0 {
        0
    } else {
        app_count(ts, k - 1) + if ts[k - 1].role is None { 1nat } else { 0nat }
    }
}

/// The identity of declaration `i`: its role, else the next opaque `App` slot.
pub open spec fn module_at(ts: Seq<TaskDecl>, i: int) -> ModuleId {
    match ts[i].role {
        Some(role) => role,
        None => ModuleId::App(app_count(ts, i) as u8),
    }
}

fn module_for_index(tasks: &[TaskDecl], index: usize) -> (r: ModuleId)
    requires
        index < tasks@.len(),
    ensures
        r == module_at(tasks@, index as int),
{
    if let Some(role) = tasks[index].role {
        return role;
    }
    let mut app: usize = 0;
    let mut i: usize = 0;
    while i < index
        invariant
            i <= index < tasks@.len(),
            app == app_count(tasks@, i as int),
            app <= i,
        decreases index - i,
    {
        if tasks[i].role.is_none() {
            app += 1;
        }
        i += 1;
    }
    ModuleId::App(app as u8)
}


// ------------------------------------------------------------- validation

/// The declaration's last dependency slot holds the overflow marker.
pub open spec fn overflowed(d: TaskDecl) -> bool {
    exists|k: int| 0 <= k < 4 && (#[trigger] d.after@[k] matches Some(s) && s@ == overflow_marker())
}

/// An earlier declaration carries the same label.
pub open spec fn name_repeated(ts: Seq<TaskDecl>, i: int) -> bool {
    exists|j: int| 0 <= j < i && #[trigger] ts[j].name@ == ts[i].name@
}

/// The declaration's role is the identity of an earlier declaration.
pub open spec fn role_taken(ts: Seq<TaskDecl>, i: int) -> bool {
    ts[i].role matches Some(role) && exists|j: int| 0 <= j < i && #[trigger] module_at(ts, j) == role
}

/// What is wrong with one declaration on its own or against earlier ones.
pub open spec fn decl_faults(ts: Seq<TaskDecl>) -> spec_fn(int) -> Option<GraphError> {
    |i: int|
        if overflowed(ts[i]) {
            Some(GraphError::TooManyDependencies { task: ts[i].name })
        } else if name_repeated(ts, i) {
            Some(GraphError::DuplicateName(ts[i].name))
        } else if role_taken(ts, i) {
            Some(GraphError::DuplicateRole { task: ts[i].name })
        } else {
            None
        }
}

/// A channel endpoint that names no declaration, `from` before `to`.
pub open spec fn channel_faults(ts: Seq<TaskDecl>, cs: Seq<ChannelDecl>) -> spec_fn(int) -> Option<GraphError> {
    |c: int|
        if index_of(ts, cs[c].from@) is None {
            Some(GraphError::ChannelEndpointUnknown { endpoint: cs[c].from })
        } else if index_of(ts, cs[c].to@) is None {
            Some(GraphError::ChannelEndpointUnknown { endpoint: cs[c].to })
        } else {
            None
        }
}

/// Declaration `i` is an endpoint of some channel.
pub open spec fn mailbox_user(ts: Seq<TaskDecl>, cs: Seq<ChannelDecl>, i: int) -> bool {
    exists|c: int| 0 <= c < cs.len() && (index_of(ts, #[trigger] cs[c].from@) == Some(i) || index_of(ts, cs[c].to@) == Some(i))
}

pub open spec fn sat_sub(a: u32, b: u32) -> u32 {
    if a >= b { (a - b) as u32 } else { 0 }
}

/// The identity of declaration `i` is already taken by the kernel or an
/// earlier declaration.
pub open spec fn module_taken(ts: Seq<TaskDecl>, i: int) -> bool {
    module_at(ts, i) == ModuleId::Kernel || exists|j: int| 0 <= j < i && #[trigger] module_at(ts, j) == module_at(ts, i)
}

/// A dependency slot of declaration `i` naming no declaration.
pub open spec fn dep_faults(ts: Seq<TaskDecl>, i: int) -> spec_fn(int) -> Option<GraphError> {
    |k: int| match ts[i].after@[k] {
        Some(dep) => if index_of(ts, dep@) is None {
            Some(GraphError::UnknownDependency { task: ts[i].name, depends_on: dep })
        } else {
            None
        },
        None => None,
    }
}

/// The per-task expansion faults: a blocking bound beside the budget that
/// does not fit the deadline, a taken identity, then an unknown dependency.
pub open spec fn task_faults(ts: Seq<TaskDecl>) -> spec_fn(int) -> Option<GraphError> {
    |i: int|
        if ts[i].blocking_us > sat_sub(ts[i].deadline_us, ts[i].execution_budget_us) {
            Some(GraphError::InvalidBlocking {
                task: ts[i].name,
                budget_us: ts[i].execution_budget_us,
                blocking_us: ts[i].blocking_us,
                period_us: ts[i].period_us,
            })
        } else if module_taken(ts, i) {
            Some(GraphError::Manifest { task: ts[i].name, error: ManifestError::DuplicateModule(module_at(ts, i)) })
        } else {
            first_some(dep_faults(ts, i), 4)
        }
}

/// The expansion verdict before the startup order is checked for cycles.
pub open spec fn expansion_verdict(ts: Seq<TaskDecl>, cs: Seq<ChannelDecl>, tasks_cap: int, modules_cap: int) -> Option<GraphError> {
    if ts.len() > tasks_cap {
        Some(GraphError::TooManyTasks { capacity: tasks_cap as usize })
    } else if ts.len() + 1 > modules_cap {
        Some(GraphError::TooManyTasks { capacity: modules_cap as usize })
    } else if cs.len() > tasks_cap {
        Some(GraphError::TooManyChannels)
    } else {
        match first_some(decl_faults(ts), ts.len() as int) {
            Some(e) => Some(e),
            None => match first_some(channel_faults(ts, cs), cs.len() as int) {
                Some(e) => Some(e),
                None => first_some(task_faults(ts), ts.len() as int),
            },
        }
    }
}

/// The deadline contract a declaration expands to.
pub open spec fn contract_of(d: TaskDecl) -> DeadlineContract {
    DeadlineContract {
        period_us: d.period_us,
        max_jitter_us: d.max_jitter_us,
        phase_us: d.phase_us,
        deadline_us: d.deadline_us,
        execution_budget_us: d.execution_budget_us,
        blocking_us: d.blocking_us,
    }
}

pub open spec fn default_thresholds() -> FaultThresholds {
    FaultThresholds { notify_after: 3, reboot_after: 8 }
}

/// The manifest entry of declaration `i`.
pub open spec fn task_spec_matches(s: ModuleSpec, ts: Seq<TaskDecl>, cs: Seq<ChannelDecl>, i: int) -> bool {
    &&& s.id == module_at(ts, i)
    &&& s.criticality == ts[i].criticality
    &&& s.required@ == (if mailbox_user(ts, cs, i) { ts[i].required@ | Capability::Mailbox.mask() } else { ts[i].required@ })
    &&& s.owns == ts[i].owns
    &&& s.memory == ts[i].memory
    &&& s.deadline == (if ts[i].has_deadline { Some(contract_of(ts[i])) } else { None })
    &&& s.fault_thresholds == default_thresholds()
}

/// The kernel's manifest entry: its usual capabilities, plus the mailbox when
/// any channel exists.
pub open spec fn kernel_spec_matches(s: ModuleSpec, cs: Seq<ChannelDecl>, memory: MemoryBudget, deadline: DeadlineContract) -> bool {
    &&& s.id == ModuleId::Kernel
    &&& s.criticality == Criticality::HardRealtime
    &&& s.required@ == 0
    &&& s.owns@ == (if cs.len() > 0 { kernel_capability_bits() | Capability::Mailbox.mask() } else { kernel_capability_bits() })
    &&& s.memory == memory
    &&& s.deadline == Some(deadline)
    &&& s.fault_thresholds == default_thresholds()
}

/// Startup node `i + 1` (node 0 is the kernel): the module of declaration
/// `i`, waiting on the kernel and on the node of every named dependency.
pub open spec fn task_node_matches(n: StartupNode, ts: Seq<TaskDecl>, i: int) -> bool {
    &&& n.module == module_at(ts, i)
    &&& forall|j: int| #[trigger] n.depends_on.has(j) == (j == 0 || exists|k: int|
        0 <= k < 4 && (#[trigger] ts[i].after@[k] matches Some(dep) && index_of(ts, dep@) == Some(j - 1)))
}

pub open spec fn kernel_node_matches(n: StartupNode) -> bool {
    n.module == ModuleId::Kernel && forall|j: int| !#[trigger] n.depends_on.has(j)
}

// ------------------------------------------------------------- cycles

/// The node waits on a node that is still waiting.
pub open spec fn waits_on_remaining(node: StartupNode, rem: Seq<bool>) -> bool {
    exists|j: int| 0 <= j < rem.len() && #[trigger] node.depends_on.has(j) && rem[j]
}

/// One in-order elimination sweep over the first `k` nodes: a remaining node
/// whose dependencies have all left leaves too. Also reports progress.
pub open spec fn sweep(nodes: Seq<StartupNode>, rem: Seq<bool>, k: int) -> (Seq<bool>, bool)
    decreases k,
{
    if k <= 0 {
        (rem, false)
    } else {
        let (r, p) = sweep(nodes, rem, k - 1);
        if r[k - 1] && !waits_on_remaining(nodes[k - 1], r) {
            (r.update(k - 1, false), true)
        } else {
            (r, p)
        }
    }
}

pub open spec fn count_true(s: Seq<bool>) -> nat
    decreases s.len(),
{
    if s.len() == 0 {
        0
    } else {
        count_true(s.drop_last()) + if s.last() { 1nat } else { 0nat }
    }
}

/// The nodes left after sweeping until a sweep makes no progress: exactly
/// the nodes that can never start.
pub open spec fn residue(nodes: Seq<StartupNode>, rem: Seq<bool>) -> Seq<bool>
    decreases count_true(rem),
{
    let (r, p) = sweep(nodes, rem, rem.len() as int);
    if p && count_true(r) < count_true(rem) {
        residue(nodes, r)
    } else {
        r
    }
}

pub open spec fn all_true(n: int) -> Seq<bool> {
    Seq::new(n as nat, |i: int| true)
}

pub open spec fn true_hits(s: Seq<bool>) -> spec_fn(int) -> Option<int> {
    |i: int| if s[i] { Some(i) } else { None }
}

/// The declaration attributed to a startup cycle: the lowest node that can
/// never start (node 0, the kernel, has no declaration).
pub open spec fn cycle_task(ts: Seq<TaskDecl>, nodes: Seq<StartupNode>) -> Option<&'static str> {
    let r = residue(nodes, all_true(nodes.len() as int));
    match first_some(true_hits(r), r.len() as int) {
        Some(i) => if i >= 1 { Some(ts[i - 1].name) } else { None },
        None => None,
    }
}

proof fn lemma_count_update(s: Seq<bool>, i: int)
    requires
        0 <= i < s.len(),
        s[i],
    ensures
        count_true(s.update(i, false)) + 1 == count_true(s),
    decreases s.len(),
{
    let u = s.update(i, false);
    if i == s.len() - 1 {
        assert(u.drop_last() =~= s.drop_last());
    } else {
        lemma_count_update(s.drop_last(), i);
        assert(u.drop_last() =~= s.drop_last().update(i, false));
    }
}

proof fn lemma_sweep(nodes: Seq<StartupNode>, rem: Seq<bool>, k: int)
    requires
        0 <= k <= rem.len(),
    ensures
        sweep(nodes, rem, k).0.len() == rem.len(),
        count_true(sweep(nodes, rem, k).0) <= count_true(rem),
        sweep(nodes, rem, k).1 ==> count_true(sweep(nodes, rem, k).0) < count_true(rem),
        forall|j: int| k <= j < rem.len() ==> #[trigger] sweep(nodes, rem, k).0[j] == rem[j],
    decreases k,
{
    if k > 0 {
        lemma_sweep(nodes, rem, k - 1);
        let (r, p) = sweep(nodes, rem, k - 1);
        if r[k - 1] && !waits_on_remaining(nodes[k - 1], r) {
            lemma_count_update(r, k - 1);
        }
    }
}

/// After a sweep without progress, every remaining node waits on another
/// remaining node.
proof fn lemma_stuck(nodes: Seq<StartupNode>, rem: Seq<bool>, k: int)
    requires
        0 <= k <= rem.len(),
        !sweep(nodes, rem, k).1,
    ensures
        sweep(nodes, rem, k).0 == rem,
        forall|i: int| 0 <= i < k && rem[i] ==> waits_on_remaining(#[trigger] nodes[i], rem),
    decreases k,
{
    if k > 0 {
        lemma_stuck(nodes, rem, k - 1);
    }
}

fn waits_on(node: StartupNode, remaining: &Vec<bool>) -> (r: bool)
    ensures
        r == waits_on_remaining(node, remaining@),
{
    let mut j: usize = 0;
    while j < remaining.len()
        invariant
            j <= remaining@.len(),
            forall|q: int| 0 <= q < j ==> !(#[trigger] node.depends_on.has(q) && remaining@[q]),
        decreases remaining.len() - j,
    {
        if node.depends_on.contains(j) && remaining[j] {
            return true;
        }
        j += 1;
    }
    false
}

/// Kahn-style elimination over the startup nodes; the lowest node left on
/// a cycle names the reported task.
fn first_task_in_cycle_for(tasks: &[TaskDecl], nodes: &[StartupNode]) -> (r: Option<&'static str>)
    requires
        nodes@.len() <= tasks@.len() + 1,
    ensures
        r == cycle_task(tasks@, nodes@),
{
    let n = nodes.len();
    let mut remaining: Vec<bool> = Vec::new();
    while remaining.len() < n
        invariant
            remaining@.len() <= n,
            forall|q: int| 0 <= q < remaining@.len() ==> #[trigger] remaining@[q],
        decreases n - remaining.len(),
    {
        remaining.push(true);
    }
    assert(remaining@ =~= all_true(n as int));
    loop
        invariant
            n == nodes@.len(),
            nodes@.len() <= tasks@.len() + 1,
            remaining@.len() == n,
            residue(nodes@, remaining@) == residue(nodes@, all_true(n as int)),
        decreases count_true(remaining@),
    {
        let ghost start = remaining@;
        let mut progressed = false;
        let mut index: usize = 0;
        while index < n
            invariant
                n == nodes@.len(),
                start.len() == n,
                index <= n,
                (remaining@, progressed) == sweep(nodes@, start, index as int),
            decreases n - index,
        {
            proof { lemma_sweep(nodes@, start, index as int); }
            if remaining[index] && !waits_on(nodes[index], &remaining) {
                remaining.set(index, false);
                progressed = true;
            }
            index += 1;
        }
        proof { lemma_sweep(nodes@, start, n as int); }
        let mut lowest: usize = 0;
        while lowest < n && !remaining[lowest]
            invariant
                lowest <= n,
                remaining@.len() == n,
                first_some(true_hits(remaining@), lowest as int) is None,
            decreases n - lowest,
        {
            lowest += 1;
        }
        if lowest == n {
            proof {
                lemma_first_some_none_all(true_hits(remaining@), n as int);
                let r = remaining@;
                assert forall|i: int| 0 <= i < n implies !(#[trigger] r[i]) by {
                    assert(true_hits(r)(i) is None);
                }
                lemma_sweep_idle(nodes@, r, n as int);
                assert(residue(nodes@, r) == r);
                assert(residue(nodes@, start) == r);
            }
            return None;
        }
        if !progressed {
            proof {
                lemma_first_some_hit(true_hits(remaining@), lowest as int, n as int);
                lemma_stuck(nodes@, start, n as int);
            }
            if lowest == 0 {
                return None;
            }
            return Some(tasks[lowest - 1].name);
        }
    }
}

/// With nothing remaining, a sweep changes nothing.
proof fn lemma_sweep_idle(nodes: Seq<StartupNode>, rem: Seq<bool>, k: int)
    requires
        0 <= k <= rem.len(),
        forall|i: int| 0 <= i < rem.len() ==> !(#[trigger] rem[i]),
    ensures
        sweep(nodes, rem, k) == (rem, false),
    decreases k,
{
    if k > 0 {
        lemma_sweep_idle(nodes, rem, k - 1);
    }
}


/// The startup nodes of a declaration set: the kernel first, then one node
/// per declaration.
pub open spec fn startup_nodes_match(nodes: Seq<StartupNode>, ts: Seq<TaskDecl>) -> bool {
    &&& nodes.len() == ts.len() + 1
    &&& kernel_node_matches(nodes[0])
    &&& forall|i: int| 0 <= i < ts.len() ==> task_node_matches(#[trigger] nodes[i + 1], ts, i)
}

/// The task a startup cycle of the declarations is attributed to.
pub open spec fn graph_cycle_task(ts: Seq<TaskDecl>) -> Option<&'static str> {
    cycle_task(ts, choose|nodes: Seq<StartupNode>| startup_nodes_match(nodes, ts))
}

/// Nodes with the same dependencies sweep alike.
proof fn lemma_sweep_congruent(a: Seq<StartupNode>, b: Seq<StartupNode>, rem: Seq<bool>, k: int)
    requires
        0 <= k <= rem.len() <= a.len(),
        a.len() == b.len(),
        forall|i: int, j: int| 0 <= i < a.len() ==> #[trigger] a[i].depends_on.has(j) == b[i].depends_on.has(j),
    ensures
        sweep(a, rem, k) == sweep(b, rem, k),
    decreases k,
{
    if k > 0 {
        lemma_sweep_congruent(a, b, rem, k - 1);
        let r = sweep(a, rem, k - 1).0;
        assert(waits_on_remaining(a[k - 1], r) == waits_on_remaining(b[k - 1], r)) by {
            if waits_on_remaining(a[k - 1], r) {
                let j = choose|j: int| 0 <= j < r.len() && #[trigger] a[k - 1].depends_on.has(j) && r[j];
                assert(b[k - 1].depends_on.has(j));
            }
            if waits_on_remaining(b[k - 1], r) {
                let j = choose|j: int| 0 <= j < r.len() && #[trigger] b[k - 1].depends_on.has(j) && r[j];
                assert(a[k - 1].depends_on.has(j));
            }
        }
    }
}

proof fn lemma_residue_congruent(a: Seq<StartupNode>, b: Seq<StartupNode>, rem: Seq<bool>)
    requires
        rem.len() <= a.len(),
        a.len() == b.len(),
        forall|i: int, j: int| 0 <= i < a.len() ==> #[trigger] a[i].depends_on.has(j) == b[i].depends_on.has(j),
    ensures
        residue(a, rem) == residue(b, rem),
    decreases count_true(rem),
{
    lemma_sweep_congruent(a, b, rem, rem.len() as int);
    lemma_sweep(a, rem, rem.len() as int);
    let (r, p) = sweep(a, rem, rem.len() as int);
    if p && count_true(r) < count_true(rem) {
        lemma_residue_congruent(a, b, r);
    }
}

/// Any startup nodes of the declarations report the same cycle task.
proof fn lemma_graph_cycle_task(nodes: Seq<StartupNode>, ts: Seq<TaskDecl>)
    requires
        startup_nodes_match(nodes, ts),
    ensures
        cycle_task(ts, nodes) == graph_cycle_task(ts),
{
    let other = choose|n2: Seq<StartupNode>| startup_nodes_match(n2, ts);
    assert(startup_nodes_match(other, ts));
    assert forall|i: int, j: int| 0 <= i < nodes.len() implies #[trigger] nodes[i].depends_on.has(j) == other[i].depends_on.has(j) by {
        if i == 0 {
        } else {
            assert(task_node_matches(nodes[(i - 1) + 1], ts, i - 1));
            assert(task_node_matches(other[(i - 1) + 1], ts, i - 1));
        }
    }
    lemma_residue_congruent(nodes, other, all_true(nodes.len() as int));
}

// ------------------------------------------------------------- expansion

fn is_overflowed(decl: &TaskDecl) -> (r: bool)
    ensures
        r == overflowed(*decl),
{
    let marker = "\0too-many";
    let mut k: usize = 0;
    while k < MAX_DEPS
        invariant
            k <= 4,
            marker@ == overflow_marker(),
            forall|q: int| 0 <= q < k ==> !(#[trigger] decl.after@[q] matches Some(s) && s@ == overflow_marker()),
        decreases 4 - k,
    {
        if let Some(dep) = decl.after[k] {
            if same_label(dep, marker) {
                return true;
            }
        }
        k += 1;
    }
    false
}

fn decl_scan(tasks: &[TaskDecl]) -> (r: Option<GraphError>)
    ensures
        r == first_some(decl_faults(tasks@), tasks@.len() as int),
{
    let ghost f = decl_faults(tasks@);
    let mut index: usize = 0;
    while index < tasks.len()
        invariant
            index <= tasks@.len(),
            f == decl_faults(tasks@),
            first_some(f, index as int) is None,
        decreases tasks.len() - index,
    {
        let task = tasks[index];
        let over = is_overflowed(&task);
        let mut repeated = false;
        let mut j: usize = 0;
        while j < index
            invariant
                j <= index < tasks@.len(),
                task == tasks@[index as int],
                repeated == exists|q: int| 0 <= q < j && #[trigger] tasks@[q].name@ == task.name@,
            decreases index - j,
        {
            if same_label(tasks[j].name, task.name) {
                repeated = true;
            }
            j += 1;
        }
        let mut taken = false;
        if let Some(role) = task.role {
            let mut j: usize = 0;
            while j < index
                invariant
                    j <= index < tasks@.len(),
                    task == tasks@[index as int],
                    task.role == Some(role),
                    taken == exists|q: int| 0 <= q < j && #[trigger] module_at(tasks@, q) == role,
                decreases index - j,
            {
                if module_for_index(tasks, j) == role {
                    taken = true;
                }
                j += 1;
            }
        }
        assert(f(index as int) == decl_faults(tasks@)(index as int));
        let fault = if over {
            Some(GraphError::TooManyDependencies { task: task.name })
        } else if repeated {
            Some(GraphError::DuplicateName(task.name))
        } else if taken {
            Some(GraphError::DuplicateRole { task: task.name })
        } else {
            None
        };
        if fault.is_some() {
            proof { lemma_first_some_hit(f, index as int, tasks@.len() as int); }
            return fault;
        }
        index += 1;
    }
    None
}

fn channel_scan(tasks: &[TaskDecl], channels: &[ChannelDecl]) -> (r: Option<GraphError>)
    ensures
        r == first_some(channel_faults(tasks@, channels@), channels@.len() as int),
{
    let ghost f = channel_faults(tasks@, channels@);
    let mut c: usize = 0;
    while c < channels.len()
        invariant
            c <= channels@.len(),
            f == channel_faults(tasks@, channels@),
            first_some(f, c as int) is None,
        decreases channels.len() - c,
    {
        let channel = channels[c];
        assert(f(c as int) == channel_faults(tasks@, channels@)(c as int));
        let fault = if decl_index_in(tasks, channel.from).is_none() {
            Some(GraphError::ChannelEndpointUnknown { endpoint: channel.from })
        } else if decl_index_in(tasks, channel.to).is_none() {
            Some(GraphError::ChannelEndpointUnknown { endpoint: channel.to })
        } else {
            None
        };
        if fault.is_some() {
            proof { lemma_first_some_hit(f, c as int, channels@.len() as int); }
            return fault;
        }
        c += 1;
    }
    None
}

/// Which declarations are channel endpoints.
fn mailbox_users(tasks: &[TaskDecl], channels: &[ChannelDecl]) -> (r: Vec<bool>)
    ensures
        r@.len() == tasks@.len(),
        forall|i: int| 0 <= i < tasks@.len() ==> #[trigger] r@[i] == mailbox_user(tasks@, channels@, i),
{
    let mut users: Vec<bool> = Vec::new();
    let mut i: usize = 0;
    while i < tasks.len()
        invariant
            i <= tasks@.len(),
            users@.len() == i,
            forall|q: int| 0 <= q < i ==> !#[trigger] users@[q],
        decreases tasks.len() - i,
    {
        users.push(false);
        i += 1;
    }
    let mut c: usize = 0;
    while c < channels.len()
        invariant
            c <= channels@.len(),
            users@.len() == tasks@.len(),
            forall|q: int| 0 <= q < tasks@.len() ==> #[trigger] users@[q] == exists|d: int|
                0 <= d < c && (index_of(tasks@, #[trigger] channels@[d].from@) == Some(q) || index_of(tasks@, channels@[d].to@) == Some(q)),
        decreases channels.len() - c,
    {
        let channel = channels[c];
        let ghost before = users@;
        if let Some(x) = decl_index_in(tasks, channel.from) {
            proof { lemma_index_in_range(tasks@, channel.from@); }
            users.set(x, true);
        }
        if let Some(y) = decl_index_in(tasks, channel.to) {
            proof { lemma_index_in_range(tasks@, channel.to@); }
            users.set(y, true);
        }
        assert forall|q: int| 0 <= q < tasks@.len() implies #[trigger] users@[q] == exists|d: int|
            0 <= d < c + 1 && (index_of(tasks@, #[trigger] channels@[d].from@) == Some(q) || index_of(tasks@, channels@[d].to@) == Some(q)) by {
            if users@[q] && !before[q] {
                assert(channels@[c as int].from@ == channel.from@);
            }
            if exists|d: int| 0 <= d < c + 1 && (index_of(tasks@, #[trigger] channels@[d].from@) == Some(q) || index_of(tasks@, channels@[d].to@) == Some(q)) {
                let d = choose|d: int| 0 <= d < c + 1 && (index_of(tasks@, #[trigger] channels@[d].from@) == Some(q) || index_of(tasks@, channels@[d].to@) == Some(q));
                if d < c {
                    assert(before[q]);
                }
            }
        }
        c += 1;
    }
    users
}

proof fn lemma_index_in_range(ts: Seq<TaskDecl>, name: Seq<char>)
    ensures
        index_of(ts, name) matches Some(i) ==> 0 <= i < ts.len() && ts[i].name@ == name,
{
    if index_of(ts, name) is Some {
        let i = crate::scan::lemma_first_some_witness(name_hits(ts, name), ts.len() as int);
    }
}

/// The dependency set of declaration `index`: the kernel plus every named
/// dependency's node.
fn deps_of(tasks: &[TaskDecl], index: usize) -> (r: Result<DependencySet, GraphError>)
    requires
        index < tasks@.len(),
        tasks@.len() < 32,
    ensures
        first_some(dep_faults(tasks@, index as int), 4) matches Some(e) ==> r == Err::<DependencySet, GraphError>(e),
        first_some(dep_faults(tasks@, index as int), 4) is None ==> (r matches Ok(set) && forall|j: int| #[trigger] set.has(j) == (j == 0 || exists|k: int|
            0 <= k < 4 && (#[trigger] tasks@[index as int].after@[k] matches Some(dep) && index_of(tasks@, dep@) == Some(j - 1)))),
{
    let decl = tasks[index];
    let ghost f = dep_faults(tasks@, index as int);
    let mut depends = DependencySet::empty().with_index(0);
    let mut k: usize = 0;
    while k < MAX_DEPS
        invariant
            k <= 4,
            index < tasks@.len() < 32,
            decl == tasks@[index as int],
            f == dep_faults(tasks@, index as int),
            first_some(f, k as int) is None,
            forall|j: int| #[trigger] depends.has(j) == (j == 0 || exists|q: int|
                0 <= q < k && (#[trigger] decl.after@[q] matches Some(dep) && index_of(tasks@, dep@) == Some(j - 1))),
        decreases 4 - k,
    {
        assert(f(k as int) == dep_faults(tasks@, index as int)(k as int));
        if let Some(dep_name) = decl.after[k] {
            match decl_index_in(tasks, dep_name) {
                None => {
                    proof { lemma_first_some_hit(f, k as int, 4); }
                    return Err(GraphError::UnknownDependency { task: decl.name, depends_on: dep_name });
                },
                Some(dep_index) => {
                    proof { lemma_index_in_range(tasks@, dep_name@); }
                    let ghost old_depends = depends;
                    depends = depends.with_index(dep_index + 1);
                    assert forall|j: int| #[trigger] depends.has(j) == (j == 0 || exists|q: int|
                        0 <= q < k + 1 && (#[trigger] decl.after@[q] matches Some(dep) && index_of(tasks@, dep@) == Some(j - 1))) by {
                        if exists|q: int| 0 <= q < k + 1 && (#[trigger] decl.after@[q] matches Some(dep) && index_of(tasks@, dep@) == Some(j - 1)) {
                            let q = choose|q: int| 0 <= q < k + 1 && (#[trigger] decl.after@[q] matches Some(dep) && index_of(tasks@, dep@) == Some(j - 1));
                            if q < k {
                                assert(old_depends.has(j));
                            }
                        }
                    }
                },
            }
        } else {
            assert forall|j: int| #[trigger] depends.has(j) == (j == 0 || exists|q: int|
                0 <= q < k + 1 && (#[trigger] decl.after@[q] matches Some(dep) && index_of(tasks@, dep@) == Some(j - 1))) by {
                if exists|q: int| 0 <= q < k + 1 && (#[trigger] decl.after@[q] matches Some(dep) && index_of(tasks@, dep@) == Some(j - 1)) {
                    let q = choose|q: int| 0 <= q < k + 1 && (#[trigger] decl.after@[q] matches Some(dep) && index_of(tasks@, dep@) == Some(j - 1));
                    assert(q < k);
                }
            }
        }
        k += 1;
    }
    Ok(depends)
}

/// Whether declaration `index`'s identity is already taken.
fn identity_taken(tasks: &[TaskDecl], index: usize) -> (r: bool)
    requires
        index < tasks@.len(),
    ensures
        r == module_taken(tasks@, index as int),
{
    let module = module_for_index(tasks, index);
    if module == ModuleId::Kernel {
        return true;
    }
    let mut j: usize = 0;
    while j < index
        invariant
            j <= index < tasks@.len(),
            module == module_at(tasks@, index as int),
            forall|q: int| 0 <= q < j ==> #[trigger] module_at(tasks@, q) != module,
        decreases index - j,
    {
        if module_for_index(tasks, j) == module {
            return true;
        }
        j += 1;
    }
    false
}

/// The manifest entry of one declaration.
fn task_spec(tasks: &[TaskDecl], channels: &[ChannelDecl], index: usize, mailbox: bool) -> (r: ModuleSpec)
    requires
        index < tasks@.len(),
        mailbox == mailbox_user(tasks@, channels@, index as int),
    ensures
        task_spec_matches(r, tasks@, channels@, index as int),
{
    let decl = tasks[index];
    let module = module_for_index(tasks, index);
    let mut required = decl.required;
    if mailbox {
        required = required.with(Capability::Mailbox);
    }
    let mut spec = ModuleSpec::new(module, decl.criticality).require(required).owns(decl.owns).memory(decl.memory);
    if decl.has_deadline {
        spec = spec.deadline(
            DeadlineContract::new(decl.period_us, decl.max_jitter_us)
                .phase_us(decl.phase_us)
                .relative_deadline_us(decl.deadline_us)
                .execution_budget(decl.execution_budget_us)
                .blocking(decl.blocking_us),
        );
    }
    spec
}

/// Expand declarations into a fresh manifest and startup nodes; the result
/// is the number of startup nodes (the kernel plus one per task).
pub fn build_core_into<const TASKS: usize, const MODULES: usize>(
    tasks: &[TaskDecl],
    channels: &[ChannelDecl],
    kernel_memory: MemoryBudget,
    kernel_deadline: DeadlineContract,
    manifest: &mut SystemManifest<MODULES>,
    startup: &mut [StartupNode; MODULES],
) -> (r: Result<usize, GraphError>)
    requires
        old(manifest).wf(),
        old(manifest).view().len() == 0,
        MODULES <= 32,
    ensures
        final(manifest).wf(),
        expansion_verdict(tasks@, channels@, TASKS as int, MODULES as int) matches Some(e) ==> r == Err::<usize, GraphError>(e),
        expansion_verdict(tasks@, channels@, TASKS as int, MODULES as int) is None ==> {
            let n = tasks@.len() + 1;
            let nodes = final(startup)@.subrange(0, n as int);
            &&& kernel_node_matches(nodes[0])
            &&& forall|i: int| 0 <= i < tasks@.len() ==> task_node_matches(#[trigger] nodes[i + 1], tasks@, i)
            &&& final(manifest).view().len() == n
            &&& kernel_spec_matches(final(manifest).view()[0], channels@, kernel_memory, kernel_deadline)
            &&& forall|i: int| 0 <= i < tasks@.len() ==> task_spec_matches(#[trigger] final(manifest).view()[i + 1], tasks@, channels@, i)
            &&& r == match graph_cycle_task(tasks@) {
                Some(task) => Err::<usize, GraphError>(GraphError::Cycle { task }),
                None => Ok::<usize, GraphError>(n as usize),
            }
        },
{
    if tasks.len() > TASKS {
        return Err(GraphError::TooManyTasks { capacity: TASKS });
    }
    if tasks.len() >= MODULES {
        return Err(GraphError::TooManyTasks { capacity: MODULES });
    }
    if channels.len() > TASKS {
        return Err(GraphError::TooManyChannels);
    }
    if let Some(e) = decl_scan(tasks) {
        return Err(e);
    }
    if let Some(e) = channel_scan(tasks, channels) {
        return Err(e);
    }
    let users = mailbox_users(tasks, channels);
    let mut kernel_owns = kernel_owned_capabilities();
    if channels.len() > 0 {
        kernel_owns = kernel_owns.with(Capability::Mailbox);
    }
    let kernel_spec = ModuleSpec::new(ModuleId::Kernel, Criticality::HardRealtime).owns(kernel_owns).memory(
        kernel_memory,
    ).deadline(kernel_deadline);
    let added = manifest.add(kernel_spec);
    if let Err(error) = added {
        return Err(GraphError::Manifest { task: "kernel", error });
    }
    startup[0] = StartupNode::new(ModuleId::Kernel, DependencySet::empty());
    let ghost tf = task_faults(tasks@);
    let mut index: usize = 0;
    while index < tasks.len()
        invariant
            index <= tasks@.len(),
            tasks@.len() + 1 <= MODULES <= 32,
            users@.len() == tasks@.len(),
            forall|i: int| 0 <= i < tasks@.len() ==> #[trigger] users@[i] == mailbox_user(tasks@, channels@, i),
            tf == task_faults(tasks@),
            first_some(tf, index as int) is None,
            manifest.wf(),
            manifest.view().len() == index + 1,
            kernel_spec_matches(manifest.view()[0], channels@, kernel_memory, kernel_deadline),
            forall|i: int| 0 <= i < index ==> task_spec_matches(#[trigger] manifest.view()[i + 1], tasks@, channels@, i),
            forall|i: int| 1 <= i <= index ==> #[trigger] manifest.view()[i].id == module_at(tasks@, i - 1),
            tasks@.len() <= TASKS,
            channels@.len() <= TASKS,
            first_some(decl_faults(tasks@), tasks@.len() as int) is None,
            first_some(channel_faults(tasks@, channels@), channels@.len() as int) is None,
            kernel_node_matches(startup@[0]),
            forall|i: int| 0 <= i < index ==> task_node_matches(#[trigger] startup@[i + 1], tasks@, i),
        decreases tasks.len() - index,
    {
        let decl = tasks[index];
        assert(tf(index as int) == task_faults(tasks@)(index as int));
        let slack = if decl.deadline_us >= decl.execution_budget_us { decl.deadline_us - decl.execution_budget_us } else { 0 };
        if decl.blocking_us > slack {
            proof { lemma_first_some_hit(tf, index as int, tasks@.len() as int); }
            return Err(GraphError::InvalidBlocking {
                task: decl.name,
                budget_us: decl.execution_budget_us,
                blocking_us: decl.blocking_us,
                period_us: decl.period_us,
            });
        }
        let spec = task_spec(tasks, channels, index, users[index]);
        let taken = identity_taken(tasks, index);
        let ghost before = manifest.view();
        proof {
            if !taken {
                assert forall|q: int| 0 <= q < before.len() implies before[q].id != spec.id by {
                    if q > 0 {
                        assert(before[q].id == module_at(tasks@, q - 1));
                        assert(q - 1 < index);
                    }
                }
            } else {
                if module_at(tasks@, index as int) != ModuleId::Kernel {
                    let j = choose|j: int| 0 <= j < index && #[trigger] module_at(tasks@, j) == module_at(tasks@, index as int);
                    assert(before[j + 1].id == module_at(tasks@, j));
                }
            }
        }
        let added = manifest.add(spec);
        if let Err(error) = added {
            proof { lemma_first_some_hit(tf, index as int, tasks@.len() as int); }
            return Err(GraphError::Manifest { task: decl.name, error });
        }
        let depends = deps_of(tasks, index);
        match depends {
            Err(e) => {
                proof { lemma_first_some_hit(tf, index as int, tasks@.len() as int); }
                return Err(e);
            },
            Ok(set) => {
                startup[index + 1] = StartupNode::new(spec.id, set);
            },
        }
        index += 1;
    }
    let n = tasks.len() + 1;
    let nodes = startup_prefix(startup, n);
    proof {
        assert(nodes@ =~= startup@.subrange(0, n as int));
        assert(startup_nodes_match(nodes@, tasks@));
        lemma_graph_cycle_task(nodes@, tasks@);
    }
    match first_task_in_cycle_for(tasks, nodes.as_slice()) {
        Some(task) => Err(GraphError::Cycle { task }),
        None => Ok(n),
    }
}

fn startup_prefix<const MODULES: usize>(startup: &[StartupNode; MODULES], n: usize) -> (r: Vec<StartupNode>)
    requires
        n <= MODULES,
    ensures
        r@ == startup@.subrange(0, n as int),
{
    let mut out: Vec<StartupNode> = Vec::new();
    let mut i: usize = 0;
    while i < n
        invariant
            i <= n <= MODULES,
            out@ == startup@.subrange(0, i as int),
        decreases n - i,
    {
        out.push(startup[i]);
        i += 1;
    }
    out
}


// ------------------------------------------------------------- built graph

/// The task metadata of declaration `i`.
pub open spec fn meta_of(ts: Seq<TaskDecl>, i: int) -> TaskMeta {
    TaskMeta {
        module: module_at(ts, i),
        criticality: ts[i].criticality,
        phase_us: ts[i].phase_us,
        period_us: ts[i].period_us,
        deadline_us: ts[i].deadline_us,
        budget_us: ts[i].execution_budget_us,
        blocking_us: ts[i].blocking_us,
    }
}

/// The reactor bindings of the first `k` declarations, in declaration order.
pub open spec fn reactor_list(ts: Seq<TaskDecl>, k: int) -> Seq<ReactorTaskBinding>
    decreases k,
{
    if k <= 0 {
        Seq::empty()
    } else {
        let prev = reactor_list(ts, k - 1);
        match ts[k - 1].reactor_domain {
            Some(domain) => prev.push(ReactorTaskBinding { task: ts[k - 1].name, module: module_at(ts, k - 1), domain }),
            None => prev,
        }
    }
}

/// Everything the kernel needs, derived from one declaration set.
pub struct BuiltGraph<const MODULES: usize, const TASKS: usize> {
    pub manifest: SystemManifest<MODULES>,
    pub startup: [StartupNode; MODULES],
    pub startup_len: usize,
    pub tasks: [Option<TaskMeta>; TASKS],
    pub task_len: usize,
    pub labels: [Option<(&'static str, ModuleId)>; TASKS],
    pub reactor_bindings: [Option<ReactorTaskBinding>; TASKS],
    pub reactor_binding_len: usize,
}

pub open spec fn label_hits(labels: Seq<Option<(&'static str, ModuleId)>>, name: Seq<char>) -> spec_fn(int) -> Option<ModuleId> {
    |i: int| match labels[i] {
        Some((label, module)) => if label@ == name { Some(module) } else { None },
        None => None,
    }
}

pub open spec fn owner_hits(labels: Seq<Option<(&'static str, ModuleId)>>, module: ModuleId) -> spec_fn(int) -> Option<&'static str> {
    |i: int| match labels[i] {
        Some((label, owner)) => if owner == module { Some(label) } else { None },
        None => None,
    }
}

pub open spec fn binding_task_hits(bs: Seq<ReactorTaskBinding>, task: Seq<char>) -> spec_fn(int) -> Option<u8> {
    |i: int| if bs[i].task@ == task { Some(bs[i].domain) } else { None }
}

/// `b` holds exactly what the declarations expand to.
pub open spec fn built_from<const MODULES: usize, const TASKS: usize>(
    b: BuiltGraph<MODULES, TASKS>,
    ts: Seq<TaskDecl>,
    cs: Seq<ChannelDecl>,
    memory: MemoryBudget,
    deadline: DeadlineContract,
) -> bool {
    let n = ts.len() + 1;
    &&& b.manifest.wf()
    &&& b.manifest.view().len() == n
    &&& kernel_spec_matches(b.manifest.view()[0], cs, memory, deadline)
    &&& forall|i: int| 0 <= i < ts.len() ==> task_spec_matches(#[trigger] b.manifest.view()[i + 1], ts, cs, i)
    &&& b.startup_len == n
    &&& kernel_node_matches(b.startup@[0])
    &&& forall|i: int| 0 <= i < ts.len() ==> task_node_matches(#[trigger] b.startup@[i + 1], ts, i)
    &&& b.task_len == ts.len()
    &&& forall|i: int| 0 <= i < TASKS ==> #[trigger] b.tasks@[i] == if i < ts.len() { Some(meta_of(ts, i)) } else { None }
    &&& forall|i: int| 0 <= i < TASKS ==> #[trigger] b.label_seq()[i] == if i < ts.len() { Some((ts[i].name, module_at(ts, i))) } else { None }
    &&& b.wf()
    &&& b.binding_list() == reactor_list(ts, ts.len() as int)
}

impl<const MODULES: usize, const TASKS: usize> BuiltGraph<MODULES, TASKS> {
    pub open spec fn label_seq(self) -> Seq<Option<(&'static str, ModuleId)>> {
        self.labels@
    }

    pub open spec fn binding_seq(self) -> Seq<Option<ReactorTaskBinding>> {
        self.reactor_bindings@
    }

    /// The reactor bindings, in declaration order.
    pub open spec fn binding_list(self) -> Seq<ReactorTaskBinding> {
        somes(self.binding_seq())
    }

    pub open spec fn wf(self) -> bool {
        &&& self.startup_len <= MODULES
        &&& self.reactor_binding_len <= TASKS
        &&& self.reactor_binding_len == somes(self.reactor_bindings@).len()
    }

    /// A graph with nothing derived yet.
    pub fn empty() -> (r: Self)
        ensures
            r.manifest.wf(),
            r.manifest.view().len() == 0,
            r.startup_len == 0,
            r.task_len == 0,
            r.wf(),
            r.binding_list().len() == 0,
            forall|i: int| 0 <= i < TASKS ==> #[trigger] r.tasks@[i] is None,
            forall|i: int| 0 <= i < TASKS ==> #[trigger] r.labels@[i] is None,
            forall|i: int| 0 <= i < TASKS ==> #[trigger] r.reactor_bindings@[i] is None,
    {
        let r = BuiltGraph {
            manifest: SystemManifest::new(),
            startup: [StartupNode::empty(); MODULES],
            startup_len: 0,
            tasks: [None; TASKS],
            task_len: 0,
            labels: [None; TASKS],
            reactor_bindings: [None; TASKS],
            reactor_binding_len: 0,
        };
        proof { lemma_somes_all_none(r.reactor_bindings@); }
        r
    }

    /// The startup nodes in use.
    pub fn startup_nodes(&self) -> (r: Vec<StartupNode>)
        requires
            self.wf(),
        ensures
            r@ == self.startup@.subrange(0, self.startup_len as int),
    {
        startup_prefix(&self.startup, self.startup_len)
    }

    /// The identity of the first task labelled `name`.
    pub fn module_of(&self, name: &str) -> (r: Option<ModuleId>)
        ensures
            r == first_some(label_hits(self.label_seq(), name@), TASKS as int),
    {
        let ghost f = label_hits(self.label_seq(), name@);
        let mut i: usize = 0;
        while i < TASKS
            invariant
                i <= TASKS,
                f == label_hits(self.label_seq(), name@),
                first_some(f, i as int) is None,
            decreases TASKS - i,
        {
            assert(f(i as int) == label_hits(self.label_seq(), name@)(i as int));
            if let Some((label, module)) = self.labels[i] {
                if same_label(label, name) {
                    proof { lemma_first_some_hit(f, i as int, TASKS as int); }
                    return Some(module);
                }
            }
            i += 1;
        }
        None
    }

    /// The label of the first task with identity `module`.
    pub fn label_of(&self, module: ModuleId) -> (r: Option<&'static str>)
        ensures
            r == first_some(owner_hits(self.label_seq(), module), TASKS as int),
    {
        let ghost f = owner_hits(self.label_seq(), module);
        let mut i: usize = 0;
        while i < TASKS
            invariant
                i <= TASKS,
                f == owner_hits(self.label_seq(), module),
                first_some(f, i as int) is None,
            decreases TASKS - i,
        {
            assert(f(i as int) == owner_hits(self.label_seq(), module)(i as int));
            if let Some((label, owner)) = self.labels[i] {
                if owner == module {
                    proof { lemma_first_some_hit(f, i as int, TASKS as int); }
                    return Some(label);
                }
            }
            i += 1;
        }
        None
    }

    pub fn reactor_bindings(&self) -> (r: Vec<ReactorTaskBinding>)
        ensures
            r@ == self.binding_list(),
    {
        crate::async_rt::collect_somes(&self.reactor_bindings)
    }

    /// The reactor domain driven by the first binding for `task`.
    pub fn reactor_domain_of(&self, task: &str) -> (r: Option<u8>)
        ensures
            r == first_some(binding_task_hits(self.binding_list(), task@), self.binding_list().len() as int),
    {
        let bs = self.reactor_bindings();
        let ghost f = binding_task_hits(bs@, task@);
        let mut i: usize = 0;
        while i < bs.len()
            invariant
                i <= bs@.len(),
                bs@ == self.binding_list(),
                f == binding_task_hits(bs@, task@),
                first_some(f, i as int) is None,
            decreases bs.len() - i,
        {
            assert(f(i as int) == binding_task_hits(bs@, task@)(i as int));
            if same_label(bs[i].task, task) {
                assert(f(i as int) == Some(bs@[i as int].domain));
                proof { lemma_first_some_hit(f, i as int, bs@.len() as int); }
                return Some(bs[i].domain);
            }
            i += 1;
        }
        None
    }
}

proof fn lemma_somes_all_none<T>(s: Seq<Option<T>>)
    requires
        forall|i: int| 0 <= i < s.len() ==> #[trigger] s[i] is None,
    ensures
        somes(s).len() == 0,
    decreases s.len(),
{
    if s.len() > 0 {
        lemma_somes_all_none(s.drop_last());
    }
}

/// Appending a present entry after a prefix of present entries extends the
/// present list by that entry.
proof fn lemma_somes_set_next<T>(s: Seq<Option<T>>, n: int, v: T)
    requires
        0 <= n < s.len(),
        somes(s).len() == n,
        forall|i: int| n <= i < s.len() ==> #[trigger] s[i] is None,
    ensures
        somes(s.update(n, Some(v))) == somes(s).push(v),
        forall|i: int| n + 1 <= i < s.len() ==> #[trigger] s.update(n, Some(v))[i] is None,
    decreases s.len(),
{
    let u = s.update(n, Some(v));
    if s.len() - 1 == n {
        assert(u.drop_last() =~= s.drop_last());
        assert(somes(s) == somes(s.drop_last()));
    } else {
        lemma_somes_set_next(s.drop_last(), n, v);
        assert(u.drop_last() =~= s.drop_last().update(n, Some(v)));
        lemma_somes_drop_none(s);
        lemma_somes_drop_none(u);
    }
}

proof fn lemma_somes_drop_none<T>(s: Seq<Option<T>>)
    requires
        s.len() > 0,
        s.last() is None,
    ensures
        somes(s) == somes(s.drop_last()),
{
}

proof fn lemma_somes_len_bound<T>(s: Seq<Option<T>>)
    ensures
        somes(s).len() <= s.len(),
    decreases s.len(),
{
    if s.len() > 0 {
        lemma_somes_len_bound(s.drop_last());
    }
}

fn build_parts<const MODULES: usize, const TASKS: usize>(
    tasks: &[TaskDecl],
    channels: &[ChannelDecl],
    kernel_memory: MemoryBudget,
    kernel_deadline: DeadlineContract,
) -> (r: Result<BuiltGraph<MODULES, TASKS>, GraphError>)
    requires
        MODULES <= 32,
    ensures
        expansion_verdict(tasks@, channels@, TASKS as int, MODULES as int) matches Some(e) ==> r == Err::<BuiltGraph<MODULES, TASKS>, GraphError>(e),
        expansion_verdict(tasks@, channels@, TASKS as int, MODULES as int) is None ==> match graph_cycle_task(tasks@) {
            Some(task) => r == Err::<BuiltGraph<MODULES, TASKS>, GraphError>(GraphError::Cycle { task }),
            None => r matches Ok(b) && built_from(b, tasks@, channels@, kernel_memory, kernel_deadline),
        },
{
    let mut built: BuiltGraph<MODULES, TASKS> = BuiltGraph::empty();
    let core = build_core_into::<TASKS, MODULES>(
        tasks,
        channels,
        kernel_memory,
        kernel_deadline,
        &mut built.manifest,
        &mut built.startup,
    );
    let startup_len = match core {
        Ok(n) => n,
        Err(e) => {
            return Err(e);
        },
    };
    let ghost m = built.manifest;
    let ghost st = built.startup;
    let mut reactor_binding_len: usize = 0;
    let mut index: usize = 0;
    while index < tasks.len()
        invariant
            index <= tasks@.len() <= TASKS,
            built.manifest == m,
            built.startup == st,
            reactor_binding_len <= index,
            forall|i: int| 0 <= i < TASKS ==> #[trigger] built.tasks@[i] == if i < index { Some(meta_of(tasks@, i)) } else { None },
            forall|i: int| 0 <= i < TASKS ==> #[trigger] built.labels@[i] == if i < index { Some((tasks@[i].name, module_at(tasks@, i))) } else { None },
            somes(built.reactor_bindings@) == reactor_list(tasks@, index as int),
            reactor_binding_len == reactor_list(tasks@, index as int).len(),
            forall|i: int| reactor_binding_len <= i < TASKS ==> #[trigger] built.reactor_bindings@[i] is None,
        decreases tasks.len() - index,
    {
        let decl = tasks[index];
        let module = module_for_index(tasks, index);
        built.labels[index] = Some((decl.name, module));
        built.tasks[index] = Some(
            TaskMeta::new(module, decl.criticality, decl.period_us, decl.execution_budget_us)
                .with_phase_us(decl.phase_us)
                .with_deadline_us(decl.deadline_us)
                .with_blocking_us(decl.blocking_us),
        );
        if let Some(domain) = decl.reactor_domain {
            let binding = ReactorTaskBinding { task: decl.name, module, domain };
            proof { lemma_somes_set_next(built.reactor_bindings@, reactor_binding_len as int, binding); }
            built.reactor_bindings[reactor_binding_len] = Some(binding);
            reactor_binding_len += 1;
        }
        index += 1;
    }
    built.startup_len = startup_len;
    built.task_len = tasks.len();
    built.reactor_binding_len = reactor_binding_len;
    proof {
        lemma_somes_len_bound(built.reactor_bindings@);
        assert(built.startup@.subrange(0, startup_len as int) == st@.subrange(0, startup_len as int));
        let ts = tasks@;
        let b = built;
        assert(b.manifest.wf());
        assert(b.manifest.view().len() == ts.len() + 1);
        assert(kernel_spec_matches(b.manifest.view()[0], channels@, kernel_memory, kernel_deadline));
        assert(b.startup_len == ts.len() + 1);
        assert(kernel_node_matches(b.startup@[0]));
        assert(b.wf());
        assert(b.binding_list() == reactor_list(ts, ts.len() as int));
        assert(b.task_len == ts.len());
        assert(forall|i: int| 0 <= i < TASKS ==> #[trigger] b.tasks@[i] == if i < ts.len() { Some(meta_of(ts, i)) } else { None });
        assert(forall|i: int| 0 <= i < TASKS ==> #[trigger] b.label_seq()[i] == if i < ts.len() { Some((ts[i].name, module_at(ts, i))) } else { None });
        assert(forall|i: int| 0 <= i < ts.len() ==> task_spec_matches(#[trigger] b.manifest.view()[i + 1], ts, channels@, i));
        let nodes = st@.subrange(0, ts.len() + 1 as int);
        assert forall|i: int| 0 <= i < ts.len() implies task_node_matches(#[trigger] b.startup@[i + 1], ts, i) by {
            assert(nodes[i + 1] == st@[i + 1]);
        }
    }
    Ok(built)
}


/// Memory budget of startup node `k` (the kernel first).
pub open spec fn node_memory(ts: Seq<TaskDecl>, memory: MemoryBudget, k: int) -> MemoryBudget {
    if k == 0 { memory } else { ts[k - 1].memory }
}

/// Utilization of startup node `k` (services contribute nothing).
pub open spec fn node_util(ts: Seq<TaskDecl>, deadline: DeadlineContract, k: int) -> u64 {
    if k == 0 {
        deadline.spec_utilization()
    } else if ts[k - 1].has_deadline {
        contract_of(ts[k - 1]).spec_utilization()
    } else {
        0
    }
}

pub open spec fn decl_budget_sum(ts: Seq<TaskDecl>, memory: MemoryBudget, k: int) -> crate::manifest::SystemBudget
    decreases k,
{
    if k <= 0 {
        crate::manifest::SystemBudget { flash_bytes: 0, ram_bytes: 0, pool_slots: 0 }
    } else {
        let prev = decl_budget_sum(ts, memory, k - 1);
        let m = node_memory(ts, memory, k - 1);
        crate::manifest::SystemBudget {
            flash_bytes: prev.flash_bytes.saturating_add(m.flash_bytes),
            ram_bytes: prev.ram_bytes.saturating_add(m.ram_bytes),
            pool_slots: prev.pool_slots.saturating_add(m.pool_slots),
        }
    }
}

pub open spec fn decl_util_sum(ts: Seq<TaskDecl>, deadline: DeadlineContract, k: int) -> u64
    decreases k,
{
    if k <= 0 {
        0
    } else {
        decl_util_sum(ts, deadline, k - 1).saturating_add(node_util(ts, deadline, k - 1))
    }
}

/// The platform-profile verdict on the expanded declarations: module count,
/// summed memory, then summed utilization.
pub open spec fn graph_profile_verdict(ts: Seq<TaskDecl>, memory: MemoryBudget, deadline: DeadlineContract, profile: SystemProfile) -> Result<(), ManifestError> {
    let n: int = ts.len() + 1 as int;
    if n > profile.max_modules {
        Err(ManifestError::TooManyModules)
    } else if !decl_budget_sum(ts, memory, n).within(profile.limit()) {
        Err(ManifestError::BudgetExceeded)
    } else if decl_util_sum(ts, deadline, n) > 10_000 {
        Err(ManifestError::Overloaded)
    } else {
        Ok(())
    }
}

proof fn lemma_sums_of_built<const MODULES: usize, const TASKS: usize>(
    b: BuiltGraph<MODULES, TASKS>,
    ts: Seq<TaskDecl>,
    cs: Seq<ChannelDecl>,
    memory: MemoryBudget,
    deadline: DeadlineContract,
    k: int,
)
    requires
        built_from(b, ts, cs, memory, deadline),
        0 <= k <= ts.len() + 1,
    ensures
        crate::manifest::budget_sum(b.manifest.view().take(k)) == decl_budget_sum(ts, memory, k),
        crate::admission_analysis::util_sum(b.manifest.view().take(k)) == decl_util_sum(ts, deadline, k),
    decreases k,
{
    if k > 0 {
        lemma_sums_of_built(b, ts, cs, memory, deadline, k - 1);
        let v = b.manifest.view();
        assert(v.take(k).drop_last() =~= v.take(k - 1));
        assert(v.take(k).last() == v[k - 1]);
        if k > 1 {
            assert(task_spec_matches(v[(k - 2) + 1], ts, cs, k - 2));
        }
    }
}

proof fn lemma_profile_of_built<const MODULES: usize, const TASKS: usize>(
    b: BuiltGraph<MODULES, TASKS>,
    ts: Seq<TaskDecl>,
    cs: Seq<ChannelDecl>,
    memory: MemoryBudget,
    deadline: DeadlineContract,
    profile: SystemProfile,
)
    requires
        built_from(b, ts, cs, memory, deadline),
    ensures
        crate::manifest::profile_verdict(b.manifest.view(), profile) == graph_profile_verdict(ts, memory, deadline, profile),
{
    let v = b.manifest.view();
    lemma_sums_of_built(b, ts, cs, memory, deadline, ts.len() + 1 as int);
    assert(v.take(ts.len() + 1 as int) =~= v);
}

// ------------------------------------------------------------- reactor linkage

#[derive(Clone, Copy, Debug, PartialEq, Eq)]
pub struct GraphReactorAdmission<const TASKS: usize, const DOMAINS: usize, const CHANNELS: usize> {
    pub reactor: ReactorAdmissionPlan<DOMAINS, CHANNELS>,
    pub bindings: [Option<ReactorTaskBinding>; TASKS],
    pub binding_len: usize,
}

pub open spec fn unknown_driver_faults(bs: Seq<ReactorTaskBinding>, domains: Seq<Option<ReactorDomainContract>>) -> spec_fn(int) -> Option<GraphReactorError> {
    |i: int| if !known_domain(domains, bs[i].domain) {
        Some(GraphReactorError::UnknownDomain { task: bs[i].task, domain: bs[i].domain })
    } else {
        None
    }
}

pub open spec fn driver_pair_faults_at(bs: Seq<ReactorTaskBinding>, i: int) -> spec_fn(int) -> Option<GraphReactorError> {
    |j: int| if bs[j].domain == bs[i].domain {
        Some(GraphReactorError::DuplicateDomainDriver { domain: bs[i].domain, first_task: bs[j].task, duplicate_task: bs[i].task })
    } else {
        None
    }
}

pub open spec fn driver_rows(bs: Seq<ReactorTaskBinding>) -> spec_fn(int) -> Option<GraphReactorError> {
    |i: int| first_some(driver_pair_faults_at(bs, i), i)
}

pub open spec fn driven(bs: Seq<ReactorTaskBinding>, id: u8) -> bool {
    exists|i: int| 0 <= i < bs.len() && #[trigger] bs[i].domain == id
}

pub open spec fn missing_driver_faults(ds: Seq<ReactorDomainContract>, bs: Seq<ReactorTaskBinding>) -> spec_fn(int) -> Option<GraphReactorError> {
    |k: int| if !driven(bs, ds[k].id) { Some(GraphReactorError::MissingDomainDriver { domain: ds[k].id }) } else { None }
}

/// What linking refuses first: unknown domains, then domains driven twice, then
/// domains nobody drives, each in order.
pub open spec fn link_verdict(bs: Seq<ReactorTaskBinding>, domains: Seq<Option<ReactorDomainContract>>) -> Option<GraphReactorError> {
    match first_some(unknown_driver_faults(bs, domains), bs.len() as int) {
        Some(e) => Some(e),
        None => match first_some(driver_rows(bs), bs.len() as int) {
            Some(e) => Some(e),
            None => first_some(missing_driver_faults(somes(domains), bs), somes(domains).len() as int),
        },
    }
}

impl<const MODULES: usize, const TASKS: usize> BuiltGraph<MODULES, TASKS> {
    /// Link an admitted reactor plan to this graph: every binding names an
    /// admitted domain, no domain has two drivers, and every domain has one.
    pub fn link_reactor_plan<const DOMAINS: usize, const CHANNELS: usize>(
        &self,
        reactor: ReactorAdmissionPlan<DOMAINS, CHANNELS>,
    ) -> (r: Result<GraphReactorAdmission<TASKS, DOMAINS, CHANNELS>, GraphReactorError>)
        ensures
            link_verdict(self.binding_list(), reactor.domains@) matches Some(e)
                ==> r == Err::<GraphReactorAdmission<TASKS, DOMAINS, CHANNELS>, GraphReactorError>(e),
            link_verdict(self.binding_list(), reactor.domains@) is None ==> r == Ok::<GraphReactorAdmission<TASKS, DOMAINS, CHANNELS>, GraphReactorError>(
                GraphReactorAdmission { reactor, bindings: self.reactor_bindings, binding_len: self.reactor_binding_len },
            ),
    {
        let bs = self.reactor_bindings();
        let ghost dom = reactor.domains@;
        let ghost f = unknown_driver_faults(bs@, dom);
        let mut i: usize = 0;
        while i < bs.len()
            invariant
                i <= bs@.len(),
                bs@ == self.binding_list(),
                dom == reactor.domains@,
                f == unknown_driver_faults(bs@, dom),
                first_some(f, i as int) is None,
            decreases bs.len() - i,
        {
            let b = bs[i];
            assert(f(i as int) == unknown_driver_faults(bs@, dom)(i as int));
            if reactor.domain(b.domain).is_none() {
                proof { lemma_first_some_hit(f, i as int, bs@.len() as int); }
                return Err(GraphReactorError::UnknownDomain { task: b.task, domain: b.domain });
            }
            i += 1;
        }
        let ghost rows = driver_rows(bs@);
        let mut i: usize = 0;
        while i < bs.len()
            invariant
                i <= bs@.len(),
                bs@ == self.binding_list(),
                dom == reactor.domains@,
                first_some(unknown_driver_faults(bs@, dom), bs@.len() as int) is None,
                rows == driver_rows(bs@),
                first_some(rows, i as int) is None,
            decreases bs.len() - i,
        {
            let ghost g = driver_pair_faults_at(bs@, i as int);
            assert(rows(i as int) == first_some(g, i as int));
            let mut j: usize = 0;
            while j < i
                invariant
                    j <= i < bs@.len(),
                    bs@ == self.binding_list(),
                    dom == reactor.domains@,
                    first_some(unknown_driver_faults(bs@, dom), bs@.len() as int) is None,
                    g == driver_pair_faults_at(bs@, i as int),
                    first_some(g, j as int) is None,
                    rows == driver_rows(bs@),
                    first_some(rows, i as int) is None,
                decreases i - j,
            {
                assert(g(j as int) == driver_pair_faults_at(bs@, i as int)(j as int));
                if bs[j].domain == bs[i].domain {
                    proof {
                        lemma_first_some_hit(g, j as int, i as int);
                        lemma_first_some_hit(rows, i as int, bs@.len() as int);
                    }
                    return Err(GraphReactorError::DuplicateDomainDriver {
                        domain: bs[i].domain,
                        first_task: bs[j].task,
                        duplicate_task: bs[i].task,
                    });
                }
                j += 1;
            }
            i += 1;
        }
        let ds = reactor.domains();
        let ghost h = missing_driver_faults(ds@, bs@);
        let mut k: usize = 0;
        while k < ds.len()
            invariant
                k <= ds@.len(),
                ds@ == somes(dom),
                bs@ == self.binding_list(),
                dom == reactor.domains@,
                first_some(unknown_driver_faults(bs@, dom), bs@.len() as int) is None,
                first_some(driver_rows(bs@), bs@.len() as int) is None,
                h == missing_driver_faults(ds@, bs@),
                first_some(h, k as int) is None,
            decreases ds.len() - k,
        {
            let id = ds[k].id;
            assert(h(k as int) == missing_driver_faults(ds@, bs@)(k as int));
            let mut found = false;
            let mut i: usize = 0;
            while i < bs.len()
                invariant
                    i <= bs@.len(),
                    found == exists|q: int| 0 <= q < i && #[trigger] bs@[q].domain == id,
                decreases bs.len() - i,
            {
                if bs[i].domain == id {
                    found = true;
                }
                i += 1;
            }
            if !found {
                proof { lemma_first_some_hit(h, k as int, ds@.len() as int); }
                return Err(GraphReactorError::MissingDomainDriver { domain: id });
            }
            k += 1;
        }
        Ok(GraphReactorAdmission { reactor, bindings: self.reactor_bindings, binding_len: self.reactor_binding_len })
    }

    /// Admit reactor-domain contracts, then link them to this graph.
    pub fn admit_reactor_domains<const DOMAINS: usize, const CHANNELS: usize>(
        &self,
        domains: [Option<ReactorDomainContract>; DOMAINS],
        channels: [Option<ReactorChannelContract>; CHANNELS],
    ) -> (r: Result<GraphReactorAdmission<TASKS, DOMAINS, CHANNELS>, GraphReactorError>)
        ensures
            reactor_verdict(domains@, channels@) matches Err(e)
                ==> r == Err::<GraphReactorAdmission<TASKS, DOMAINS, CHANNELS>, GraphReactorError>(GraphReactorError::ReactorAdmission(e)),
            reactor_verdict(domains@, channels@) is Ok ==> (link_verdict(self.binding_list(), domains@) matches Some(e)
                ==> r == Err::<GraphReactorAdmission<TASKS, DOMAINS, CHANNELS>, GraphReactorError>(e)),
            reactor_verdict(domains@, channels@) is Ok && link_verdict(self.binding_list(), domains@) is None
                ==> (r matches Ok(a) && a.reactor.domains@ == domains@ && a.reactor.channels@ == channels@
                    && a.bindings == self.reactor_bindings && a.binding_len == self.reactor_binding_len),
    {
        match admit_reactor_domains(domains, channels) {
            Err(e) => Err(GraphReactorError::ReactorAdmission(e)),
            Ok(reactor) => self.link_reactor_plan(reactor),
        }
    }
}

// ------------------------------------------------------------- builders

/// Tasks and channels declared by name, with the kernel's own budgets.
pub struct AppGraph<const TASKS: usize> {
    tasks: Vec<TaskDecl>,
    channels: Vec<ChannelDecl>,
    kernel_memory: MemoryBudget,
    kernel_deadline: DeadlineContract,
}

pub open spec fn default_kernel_memory() -> MemoryBudget {
    MemoryBudget { flash_bytes: 8192, ram_bytes: 2048, pool_slots: 1 }
}

pub open spec fn default_kernel_deadline() -> DeadlineContract {
    DeadlineContract {
        period_us: 20_000,
        max_jitter_us: 100,
        phase_us: 0,
        deadline_us: 20_000,
        execution_budget_us: 0,
        blocking_us: 0,
    }
}

/// Whether any declaration carries `name`.
pub open spec fn declared(ts: Seq<TaskDecl>, name: Seq<char>) -> bool {
    exists|j: int| 0 <= j < ts.len() && #[trigger] ts[j].name@ == name
}

proof fn lemma_index_of_declared(ts: Seq<TaskDecl>, name: Seq<char>)
    ensures
        index_of(ts, name) is Some <==> declared(ts, name),
{
    lemma_index_in_range(ts, name);
    if declared(ts, name) {
        let j = choose|j: int| 0 <= j < ts.len() && #[trigger] ts[j].name@ == name;
        if index_of(ts, name) is None {
            lemma_first_some_none_all(name_hits(ts, name), ts.len() as int);
            assert(name_hits(ts, name)(j) is None);
        }
    }
}

impl<const TASKS: usize> AppGraph<TASKS> {
    pub closed spec fn decls(self) -> Seq<TaskDecl> {
        self.tasks@
    }

    pub closed spec fn channel_decls(self) -> Seq<ChannelDecl> {
        self.channels@
    }

    pub closed spec fn spec_kernel_memory(self) -> MemoryBudget {
        self.kernel_memory
    }

    pub closed spec fn spec_kernel_deadline(self) -> DeadlineContract {
        self.kernel_deadline
    }

    pub fn new() -> (r: Self)
        ensures
            r.decls().len() == 0,
            r.channel_decls().len() == 0,
            r.spec_kernel_memory() == default_kernel_memory(),
            r.spec_kernel_deadline() == default_kernel_deadline(),
    {
        AppGraph {
            tasks: Vec::new(),
            channels: Vec::new(),
            kernel_memory: MemoryBudget::new(8 * 1024, 2 * 1024, 1),
            kernel_deadline: DeadlineContract::new(20_000, 100),
        }
    }

    /// Replace the kernel's own memory budget and deadline contract.
    pub fn kernel(self, memory: MemoryBudget, deadline: DeadlineContract) -> (r: Self)
        ensures
            r.decls() == self.decls(),
            r.channel_decls() == self.channel_decls(),
            r.spec_kernel_memory() == memory,
            r.spec_kernel_deadline() == deadline,
    {
        AppGraph { tasks: self.tasks, channels: self.channels, kernel_memory: memory, kernel_deadline: deadline }
    }

    /// The declared tasks.
    pub fn task_decls(&self) -> (r: &[TaskDecl])
        ensures
            r@ == self.decls(),
    {
        self.tasks.as_slice()
    }

    /// The declared channels as `(from, to)` label pairs.
    pub fn channel_pairs(&self) -> (r: Vec<(&'static str, &'static str)>)
        ensures
            r@.len() == self.channel_decls().len(),
            forall|i: int| 0 <= i < r@.len() ==> #[trigger] r@[i] == (self.channel_decls()[i].from, self.channel_decls()[i].to),
    {
        let mut out: Vec<(&'static str, &'static str)> = Vec::new();
        let mut i: usize = 0;
        while i < self.channels.len()
            invariant
                i <= self.channels@.len(),
                out@.len() == i,
                forall|q: int| 0 <= q < i ==> #[trigger] out@[q] == (self.channels@[q].from, self.channels@[q].to),
            decreases self.channels.len() - i,
        {
            out.push((self.channels[i].from, self.channels[i].to));
            i += 1;
        }
        out
    }

    /// Declare one more task: refused on a repeated label, too many
    /// dependencies, or a full graph.
    pub fn task(self, decl: TaskDecl) -> (r: Result<Self, GraphError>)
        ensures
            declared(self.decls(), decl.name@) ==> r == Err::<Self, GraphError>(GraphError::DuplicateName(decl.name)),
            !declared(self.decls(), decl.name@) && overflowed(decl)
                ==> r == Err::<Self, GraphError>(GraphError::TooManyDependencies { task: decl.name }),
            !declared(self.decls(), decl.name@) && !overflowed(decl) && self.decls().len() >= TASKS
                ==> r == Err::<Self, GraphError>(GraphError::TooManyTasks { capacity: TASKS }),
            r is Ok <==> (!declared(self.decls(), decl.name@) && !overflowed(decl) && self.decls().len() < TASKS),
            r matches Ok(g) ==> g.decls() == self.decls().push(decl) && g.channel_decls() == self.channel_decls()
                && g.spec_kernel_memory() == self.spec_kernel_memory() && g.spec_kernel_deadline() == self.spec_kernel_deadline(),
    {
        let mut graph = self;
        let mut i: usize = 0;
        while i < graph.tasks.len()
            invariant
                graph == self,
                i <= graph.tasks@.len(),
                forall|q: int| 0 <= q < i ==> #[trigger] graph.tasks@[q].name@ != decl.name@,
            decreases graph.tasks.len() - i,
        {
            if same_label(graph.tasks[i].name, decl.name) {
                return Err(GraphError::DuplicateName(decl.name));
            }
            i += 1;
        }
        if is_overflowed(&decl) {
            return Err(GraphError::TooManyDependencies { task: decl.name });
        }
        if graph.tasks.len() >= TASKS {
            return Err(GraphError::TooManyTasks { capacity: TASKS });
        }
        graph.tasks.push(decl);
        Ok(graph)
    }

    /// A message channel between two declared tasks; both endpoints will
    /// require the mailbox capability and the kernel will own it.
    pub fn channel(self, from: &'static str, to: &'static str) -> (r: Result<Self, GraphError>)
        ensures
            !declared(self.decls(), from@) ==> r == Err::<Self, GraphError>(GraphError::ChannelEndpointUnknown { endpoint: from }),
            declared(self.decls(), from@) && !declared(self.decls(), to@)
                ==> r == Err::<Self, GraphError>(GraphError::ChannelEndpointUnknown { endpoint: to }),
            declared(self.decls(), from@) && declared(self.decls(), to@) && self.channel_decls().len() >= TASKS
                ==> r == Err::<Self, GraphError>(GraphError::TooManyChannels),
            r is Ok <==> (declared(self.decls(), from@) && declared(self.decls(), to@) && self.channel_decls().len() < TASKS),
            r matches Ok(g) ==> g.channel_decls() == self.channel_decls().push(ChannelDecl { from, to }) && g.decls() == self.decls()
                && g.spec_kernel_memory() == self.spec_kernel_memory() && g.spec_kernel_deadline() == self.spec_kernel_deadline(),
    {
        let mut graph = self;
        proof {
            lemma_index_of_declared(self.tasks@, from@);
            lemma_index_of_declared(self.tasks@, to@);
        }
        if decl_index_in(graph.tasks.as_slice(), from).is_none() {
            return Err(GraphError::ChannelEndpointUnknown { endpoint: from });
        }
        if decl_index_in(graph.tasks.as_slice(), to).is_none() {
            return Err(GraphError::ChannelEndpointUnknown { endpoint: to });
        }
        if graph.channels.len() >= TASKS {
            return Err(GraphError::TooManyChannels);
        }
        graph.channels.push(ChannelDecl::new(from, to));
        Ok(graph)
    }

    /// Expand the declarations into the validated contract set.
    pub fn build<const MODULES: usize>(&self) -> (r: Result<BuiltGraph<MODULES, TASKS>, GraphError>)
        requires
            MODULES <= 32,
        ensures
            expansion_verdict(self.decls(), self.channel_decls(), TASKS as int, MODULES as int) matches Some(e)
                ==> r == Err::<BuiltGraph<MODULES, TASKS>, GraphError>(e),
            expansion_verdict(self.decls(), self.channel_decls(), TASKS as int, MODULES as int) is None ==> match graph_cycle_task(self.decls()) {
                Some(task) => r == Err::<BuiltGraph<MODULES, TASKS>, GraphError>(GraphError::Cycle { task }),
                None => r matches Ok(b) && built_from(b, self.decls(), self.channel_decls(), self.spec_kernel_memory(), self.spec_kernel_deadline()),
            },
    {
        build_parts(self.tasks.as_slice(), self.channels.as_slice(), self.kernel_memory, self.kernel_deadline)
    }

    /// Expand into caller-provided storage; on failure the storage is left as it was.
    pub fn build_into<const MODULES: usize>(&self, destination: &mut BuiltGraph<MODULES, TASKS>) -> (r: Result<(), GraphError>)
        requires
            MODULES <= 32,
        ensures
            expansion_verdict(self.decls(), self.channel_decls(), TASKS as int, MODULES as int) matches Some(e)
                ==> r == Err::<(), GraphError>(e) && *final(destination) == *old(destination),
            expansion_verdict(self.decls(), self.channel_decls(), TASKS as int, MODULES as int) is None ==> match graph_cycle_task(self.decls()) {
                Some(task) => r == Err::<(), GraphError>(GraphError::Cycle { task }) && *final(destination) == *old(destination),
                None => r is Ok && built_from(*final(destination), self.decls(), self.channel_decls(), self.spec_kernel_memory(), self.spec_kernel_deadline()),
            },
    {
        match self.build::<MODULES>() {
            Ok(built) => {
                *destination = built;
                Ok(())
            },
            Err(e) => Err(e),
        }
    }

    /// Expand, then check the manifest against a platform profile.
    pub fn build_for<const MODULES: usize>(&self, profile: SystemProfile) -> (r: Result<BuiltGraph<MODULES, TASKS>, GraphError>)
        requires
            MODULES <= 32,
        ensures
            expansion_verdict(self.decls(), self.channel_decls(), TASKS as int, MODULES as int) matches Some(e)
                ==> r == Err::<BuiltGraph<MODULES, TASKS>, GraphError>(e),
            expansion_verdict(self.decls(), self.channel_decls(), TASKS as int, MODULES as int) is None ==> match graph_cycle_task(self.decls()) {
                Some(task) => r == Err::<BuiltGraph<MODULES, TASKS>, GraphError>(GraphError::Cycle { task }),
                None => match graph_profile_verdict(self.decls(), self.spec_kernel_memory(), self.spec_kernel_deadline(), profile) {
                    Ok(()) => r matches Ok(b) && built_from(b, self.decls(), self.channel_decls(), self.spec_kernel_memory(), self.spec_kernel_deadline()),
                    Err(error) => r == Err::<BuiltGraph<MODULES, TASKS>, GraphError>(GraphError::Manifest { task: "<profile>", error }),
                },
            },
    {
        let built = match self.build::<MODULES>() {
            Ok(b) => b,
            Err(e) => {
                return Err(e);
            },
        };
        proof { lemma_profile_of_built(built, self.decls(), self.channel_decls(), self.spec_kernel_memory(), self.spec_kernel_deadline(), profile); }
        match built.manifest.validate_profile(profile) {
            Ok(()) => Ok(built),
            Err(error) => Err(GraphError::Manifest { task: "<profile>", error }),
        }
    }

    /// Profile-checked expansion into caller-provided storage.
    pub fn build_for_into<const MODULES: usize>(
        &self,
        profile: SystemProfile,
        destination: &mut BuiltGraph<MODULES, TASKS>,
    ) -> (r: Result<(), GraphError>)
        requires
            MODULES <= 32,
        ensures
            r is Ok <==> self.build_for_ok::<MODULES>(profile),
            r is Ok ==> built_from(*final(destination), self.decls(), self.channel_decls(), self.spec_kernel_memory(), self.spec_kernel_deadline()),
            r is Err ==> *final(destination) == *old(destination),
            r matches Err(e) ==> e == self.build_for_error::<MODULES>(profile),
    {
        match self.build_for::<MODULES>(profile) {
            Ok(built) => {
                *destination = built;
                Ok(())
            },
            Err(e) => Err(e),
        }
    }

    /// The profile-checked expansion succeeds.
    pub open spec fn build_for_ok<const MODULES: usize>(self, profile: SystemProfile) -> bool {
        &&& expansion_verdict(self.decls(), self.channel_decls(), TASKS as int, MODULES as int) is None
        &&& graph_cycle_task(self.decls()) is None
        &&& graph_profile_verdict(self.decls(), self.spec_kernel_memory(), self.spec_kernel_deadline(), profile) is Ok
    }

    /// The error of a failing profile-checked expansion.
    pub open spec fn build_for_error<const MODULES: usize>(self, profile: SystemProfile) -> GraphError {
        match expansion_verdict(self.decls(), self.channel_decls(), TASKS as int, MODULES as int) {
            Some(e) => e,
            None => match graph_cycle_task(self.decls()) {
                Some(task) => GraphError::Cycle { task },
                None => match graph_profile_verdict(self.decls(), self.spec_kernel_memory(), self.spec_kernel_deadline(), profile) {
                    Err(error) => GraphError::Manifest { task: "<profile>", error },
                    Ok(()) => GraphError::TooManyChannels,
                },
            },
        }
    }
}


/// A borrowed declaration set, for firmware that keeps its task and channel
/// arrays in constant storage.
#[derive(Clone, Copy, Debug)]
pub struct GraphSpec<'a> {
    tasks: &'a [TaskDecl],
    channels: &'a [ChannelDecl],
    kernel_memory: MemoryBudget,
    kernel_deadline: DeadlineContract,
}

/// Label lookup that gives up once the opaque `App` numbering would pass 255.
pub open spec fn spec_module_hits(ts: Seq<TaskDecl>, name: Seq<char>) -> spec_fn(int) -> Option<Option<ModuleId>> {
    |i: int|
        if ts[i].role is None && app_count(ts, i) >= 255 {
            Some(None)
        } else if ts[i].name@ == name {
            Some(Some(module_at(ts, i)))
        } else {
            None
        }
}

impl<'a> GraphSpec<'a> {
    pub closed spec fn task_seq(self) -> Seq<TaskDecl> {
        self.tasks@
    }

    pub closed spec fn channel_seq(self) -> Seq<ChannelDecl> {
        self.channels@
    }

    pub closed spec fn spec_kernel_memory(self) -> MemoryBudget {
        self.kernel_memory
    }

    pub closed spec fn spec_kernel_deadline(self) -> DeadlineContract {
        self.kernel_deadline
    }

    pub fn new(tasks: &'a [TaskDecl], channels: &'a [ChannelDecl]) -> (r: Self)
        ensures
            r.task_seq() == tasks@,
            r.channel_seq() == channels@,
            r.spec_kernel_memory() == default_kernel_memory(),
            r.spec_kernel_deadline() == default_kernel_deadline(),
    {
        GraphSpec {
            tasks,
            channels,
            kernel_memory: MemoryBudget::new(8 * 1024, 2 * 1024, 1),
            kernel_deadline: DeadlineContract::new(20_000, 100),
        }
    }

    pub fn kernel(self, memory: MemoryBudget, deadline: DeadlineContract) -> (r: Self)
        ensures
            r.task_seq() == self.task_seq(),
            r.channel_seq() == self.channel_seq(),
            r.spec_kernel_memory() == memory,
            r.spec_kernel_deadline() == deadline,
    {
        GraphSpec { tasks: self.tasks, channels: self.channels, kernel_memory: memory, kernel_deadline: deadline }
    }

    pub fn task_decls(&self) -> (r: &'a [TaskDecl])
        ensures
            r@ == self.task_seq(),
    {
        self.tasks
    }

    pub fn channel_decls(&self) -> (r: &'a [ChannelDecl])
        ensures
            r@ == self.channel_seq(),
    {
        self.channels
    }

    /// The identity a build assigns to the task labelled `name`.
    pub fn module_of(&self, name: &str) -> (r: Option<ModuleId>)
        ensures
            r == match first_some(spec_module_hits(self.task_seq(), name@), self.task_seq().len() as int) {
                Some(found) => found,
                None => None,
            },
    {
        let ghost f = spec_module_hits(self.tasks@, name@);
        let mut next_app: u8 = 0;
        let mut i: usize = 0;
        while i < self.tasks.len()
            invariant
                i <= self.tasks@.len(),
                f == spec_module_hits(self.tasks@, name@),
                first_some(f, i as int) is None,
                next_app == app_count(self.tasks@, i as int),
            decreases self.tasks.len() - i,
        {
            let task = self.tasks[i];
            assert(f(i as int) == spec_module_hits(self.tasks@, name@)(i as int));
            let module = match task.role {
                Some(role) => role,
                None => {
                    if next_app == 255 {
                        proof { lemma_first_some_hit(f, i as int, self.tasks@.len() as int); }
                        return None;
                    }
                    let module = ModuleId::App(next_app);
                    next_app = next_app + 1;
                    module
                },
            };
            if same_label(task.name, name) {
                proof { lemma_first_some_hit(f, i as int, self.tasks@.len() as int); }
                return Some(module);
            }
            i += 1;
        }
        None
    }

    /// Expand into caller-provided storage; on failure the storage is left as it was.
    pub fn build_into<const MODULES: usize, const TASKS: usize>(&self, destination: &mut BuiltGraph<MODULES, TASKS>) -> (r: Result<(), GraphError>)
        requires
            MODULES <= 32,
        ensures
            expansion_verdict(self.task_seq(), self.channel_seq(), TASKS as int, MODULES as int) matches Some(e)
                ==> r == Err::<(), GraphError>(e) && *final(destination) == *old(destination),
            expansion_verdict(self.task_seq(), self.channel_seq(), TASKS as int, MODULES as int) is None ==> match graph_cycle_task(self.task_seq()) {
                Some(task) => r == Err::<(), GraphError>(GraphError::Cycle { task }) && *final(destination) == *old(destination),
                None => r is Ok && built_from(*final(destination), self.task_seq(), self.channel_seq(), self.spec_kernel_memory(), self.spec_kernel_deadline()),
            },
    {
        match build_parts::<MODULES, TASKS>(self.tasks, self.channels, self.kernel_memory, self.kernel_deadline) {
            Ok(built) => {
                *destination = built;
                Ok(())
            },
            Err(e) => Err(e),
        }
    }

    /// Profile-checked expansion into caller-provided storage.
    pub fn build_for_into<const MODULES: usize, const TASKS: usize>(
        &self,
        profile: SystemProfile,
        destination: &mut BuiltGraph<MODULES, TASKS>,
    ) -> (r: Result<(), GraphError>)
        requires
            MODULES <= 32,
        ensures
            expansion_verdict(self.task_seq(), self.channel_seq(), TASKS as int, MODULES as int) matches Some(e)
                ==> r == Err::<(), GraphError>(e) && *final(destination) == *old(destination),
            expansion_verdict(self.task_seq(), self.channel_seq(), TASKS as int, MODULES as int) is None ==> match graph_cycle_task(self.task_seq()) {
                Some(task) => r == Err::<(), GraphError>(GraphError::Cycle { task }) && *final(destination) == *old(destination),
                None => match graph_profile_verdict(self.task_seq(), self.spec_kernel_memory(), self.spec_kernel_deadline(), profile) {
                    Ok(()) => r is Ok && built_from(*final(destination), self.task_seq(), self.channel_seq(), self.spec_kernel_memory(), self.spec_kernel_deadline()),
                    Err(error) => r == Err::<(), GraphError>(GraphError::Manifest { task: "<profile>", error }) && *final(destination) == *old(destination),
                },
            },
    {
        match build_parts::<MODULES, TASKS>(self.tasks, self.channels, self.kernel_memory, self.kernel_deadline) {
            Ok(built) => {
                proof { lemma_profile_of_built(built, self.tasks@, self.channels@, self.kernel_memory, self.kernel_deadline, profile); }
                match built.manifest.validate_profile(profile) {
                    Ok(()) => {
                        *destination = built;
                        Ok(())
                    },
                    Err(error) => Err(GraphError::Manifest { task: "<profile>", error }),
                }
            },
            Err(e) => Err(e),
        }
    }
}

} // verus!
