//! Static system contract vocabulary: capabilities, criticality, memory and
//! deadline budgets, module specifications, and the bounded manifest that
//! collects them.

use vstd::prelude::*;

use crate::health::{same_module, FaultThresholds, ModuleId};
use crate::scan::{first_some, lemma_first_some_hit};

verus! {

/// Safety class of a module, from least to most critical.
#[derive(Clone, Copy, Debug, PartialEq, Eq, Structural, PartialOrd, Ord, Hash)]
pub enum Criticality {
    BestEffort,
    User,
    Driver,
    System,
    HardRealtime,
}

impl Criticality {
    pub open spec fn level(self) -> u8 {
        match self {
            Criticality::BestEffort => 0,
            Criticality::User => 1,
            Criticality::Driver => 2,
            Criticality::System => 3,
            Criticality::HardRealtime => 4,
        }
    }

    /// Position in the criticality order (`BestEffort` is 0).
    pub fn rank(self) -> (r: u8)
        ensures
            r == self.level(),
    {
        match self {
            Criticality::BestEffort => 0,
            Criticality::User => 1,
            Criticality::Driver => 2,
            Criticality::System => 3,
            Criticality::HardRealtime => 4,
        }
    }
}

/// A protected resource class a module may require or own.
#[derive(Clone, Copy, Debug, PartialEq, Eq, Structural, Hash)]
pub enum Capability {
    Bus0,
    Bus1,
    Radio,
    SamplePool,
    Timebase,
    Storage,
    Crypto,
    Mailbox,
    HostReport,
    AiInference,
    Actuator,
    Power,
}

impl Capability {
    pub open spec fn position(self) -> u32 {
        match self {
            Capability::Bus0 => 0,
            Capability::Bus1 => 1,
            Capability::Radio => 2,
            Capability::SamplePool => 3,
            Capability::Timebase => 4,
            Capability::Storage => 5,
            Capability::Crypto => 6,
            Capability::Mailbox => 7,
            Capability::HostReport => 8,
            Capability::AiInference => 9,
            Capability::Actuator => 10,
            Capability::Power => 11,
        }
    }

    pub open spec fn mask(self) -> u32 {
        1u32 << self.position()
    }

    /// The capability's single bit in a [`CapabilitySet`].
    pub fn bit(self) -> (r: u32)
        ensures
            r == self.mask(),
            r != 0,
    {
        let position: u32 = match self {
            Capability::Bus0 => 0,
            Capability::Bus1 => 1,
            Capability::Radio => 2,
            Capability::SamplePool => 3,
            Capability::Timebase => 4,
            Capability::Storage => 5,
            Capability::Crypto => 6,
            Capability::Mailbox => 7,
            Capability::HostReport => 8,
            Capability::AiInference => 9,
            Capability::Actuator => 10,
            Capability::Power => 11,
        };
        assert(position < 32 ==> (1u32 << position) != 0) by (bit_vector);
        1u32 << position
    }
}

/// A set of capabilities, one bit per [`Capability`].
#[derive(Clone, Copy, Debug, PartialEq, Eq, Structural, Hash)]
pub struct CapabilitySet {
    bits: u32,
}

impl View for CapabilitySet {
    type V = u32;

    closed spec fn view(&self) -> u32 {
        self.bits
    }
}

impl CapabilitySet {
    /// Membership of one capability.
    pub open spec fn has(self, capability: Capability) -> bool {
        self@ & capability.mask() != 0
    }

    /// The empty set.
    pub closed spec fn none() -> CapabilitySet {
        CapabilitySet { bits: 0 }
    }

    /// A set without members is the empty set.
    pub proof fn lemma_empty_is_none(c: CapabilitySet)
        requires
            c@ == 0,
        ensures
            c == CapabilitySet::none(),
    {
    }

    pub fn empty() -> (r: Self)
        ensures
            r@ == 0,
            r == CapabilitySet::none(),
    {
        CapabilitySet { bits: 0 }
    }

    pub fn from_bits(bits: u32) -> (r: Self)
        ensures
            r@ == bits,
    {
        CapabilitySet { bits }
    }

    pub fn bits(self) -> (r: u32)
        ensures
            r == self@,
    {
        self.bits
    }

    pub fn with(self, capability: Capability) -> (r: Self)
        ensures
            r@ == self@ | capability.mask(),
    {
        CapabilitySet { bits: self.bits | capability.bit() }
    }

    pub fn union(self, other: Self) -> (r: Self)
        ensures
            r@ == self@ | other@,
    {
        CapabilitySet { bits: self.bits | other.bits }
    }

    pub fn contains(self, capability: Capability) -> (r: bool)
        ensures
            r == self.has(capability),
    {
        self.bits & capability.bit() != 0
    }
}

/// Capabilities the kernel module owns in every system.
pub open spec fn kernel_capability_bits() -> u32 {
    0x918
}

/// The kernel's own capabilities: timebase, sample pool, host report, and power.
pub fn kernel_owned_capabilities() -> (r: CapabilitySet)
    ensures
        r@ == kernel_capability_bits(),
{
    let set = CapabilitySet::empty().with(Capability::Timebase).with(Capability::SamplePool).with(
        Capability::HostReport,
    ).with(Capability::Power);
    assert(0u32 | (1u32 << 4u32) | (1u32 << 3u32) | (1u32 << 8u32) | (1u32 << 11u32) == 0x918u32) by (bit_vector);
    set
}

#[derive(Clone, Copy, Debug, PartialEq, Eq, Structural)]
pub struct MemoryBudget {
    pub flash_bytes: u32,
    pub ram_bytes: u32,
    pub pool_slots: u16,
}

impl MemoryBudget {
    pub fn new(flash_bytes: u32, ram_bytes: u32, pool_slots: u16) -> (r: Self)
        ensures
            r == (MemoryBudget { flash_bytes, ram_bytes, pool_slots }),
    {
        MemoryBudget { flash_bytes, ram_bytes, pool_slots }
    }

    pub fn zero() -> (r: Self)
        ensures
            r == (MemoryBudget { flash_bytes: 0, ram_bytes: 0, pool_slots: 0 }),
    {
        MemoryBudget { flash_bytes: 0, ram_bytes: 0, pool_slots: 0 }
    }
}

#[derive(Clone, Copy, Debug, PartialEq, Eq, Structural)]
pub struct SystemBudget {
    pub flash_bytes: u32,
    pub ram_bytes: u32,
    pub pool_slots: u16,
}

impl SystemBudget {
    /// Every component stays within the limit.
    pub open spec fn within(self, limit: SystemBudget) -> bool {
        &&& self.flash_bytes <= limit.flash_bytes
        &&& self.ram_bytes <= limit.ram_bytes
        &&& self.pool_slots <= limit.pool_slots
    }

    pub fn new(flash_bytes: u32, ram_bytes: u32, pool_slots: u16) -> (r: Self)
        ensures
            r == (SystemBudget { flash_bytes, ram_bytes, pool_slots }),
    {
        SystemBudget { flash_bytes, ram_bytes, pool_slots }
    }

    pub fn fits_within(self, limit: SystemBudget) -> (r: bool)
        ensures
            r == self.within(limit),
    {
        self.flash_bytes <= limit.flash_bytes && self.ram_bytes <= limit.ram_bytes
            && self.pool_slots <= limit.pool_slots
    }
}

/// Platform limits a module set must fit.
#[derive(Clone, Copy, Debug, PartialEq, Eq, Structural)]
pub struct SystemProfile {
    pub flash_limit_bytes: u32,
    pub ram_limit_bytes: u32,
    pub pool_slot_limit: u16,
    pub max_modules: usize,
    pub wake_latency_us: u32,
}

impl SystemProfile {
    pub open spec fn limit(self) -> SystemBudget {
        SystemBudget {
            flash_bytes: self.flash_limit_bytes,
            ram_bytes: self.ram_limit_bytes,
            pool_slots: self.pool_slot_limit,
        }
    }

    pub fn new(flash_limit_bytes: u32, ram_limit_bytes: u32, pool_slot_limit: u16, max_modules: usize) -> (r: Self)
        ensures
            r == (SystemProfile {
                flash_limit_bytes,
                ram_limit_bytes,
                pool_slot_limit,
                max_modules,
                wake_latency_us: 0,
            }),
    {
        SystemProfile { flash_limit_bytes, ram_limit_bytes, pool_slot_limit, max_modules, wake_latency_us: 0 }
    }

    pub fn budget(self) -> (r: SystemBudget)
        ensures
            r == self.limit(),
    {
        SystemBudget::new(self.flash_limit_bytes, self.ram_limit_bytes, self.pool_slot_limit)
    }
}

/// Periodic timing contract of one module.
#[derive(Clone, Copy, Debug, PartialEq, Eq, Structural)]
pub struct DeadlineContract {
    pub period_us: u32,
    pub max_jitter_us: u32,
    pub phase_us: u32,
    pub deadline_us: u32,
    pub execution_budget_us: u32,
    pub blocking_us: u32,
}

/// CPU share of a budget over a period, in parts per ten thousand.
pub open spec fn permyriad(budget_us: u32, period_us: u32) -> u64 {
    if period_us == 0 {
        0
    } else {
        ((budget_us as int * 10_000) / (period_us as int)) as u64
    }
}

impl DeadlineContract {
    pub open spec fn spec_utilization(self) -> u64 {
        permyriad(self.execution_budget_us, self.period_us)
    }

    pub fn new(period_us: u32, max_jitter_us: u32) -> (r: Self)
        ensures
            r == (DeadlineContract {
                period_us,
                max_jitter_us,
                phase_us: 0,
                deadline_us: period_us,
                execution_budget_us: 0,
                blocking_us: 0,
            }),
    {
        DeadlineContract {
            period_us,
            max_jitter_us,
            phase_us: 0,
            deadline_us: period_us,
            execution_budget_us: 0,
            blocking_us: 0,
        }
    }

    pub fn phase_us(self, phase_us: u32) -> (r: Self)
        ensures
            r == (DeadlineContract { phase_us, ..self }),
    {
        DeadlineContract { phase_us, ..self }
    }

    pub fn relative_deadline_us(self, deadline_us: u32) -> (r: Self)
        ensures
            r == (DeadlineContract { deadline_us, ..self }),
    {
        DeadlineContract { deadline_us, ..self }
    }

    pub fn execution_budget(self, execution_budget_us: u32) -> (r: Self)
        ensures
            r == (DeadlineContract { execution_budget_us, ..self }),
    {
        DeadlineContract { execution_budget_us, ..self }
    }

    pub fn blocking(self, blocking_us: u32) -> (r: Self)
        ensures
            r == (DeadlineContract { blocking_us, ..self }),
    {
        DeadlineContract { blocking_us, ..self }
    }

    /// Declared execution budget over the period, in parts per ten thousand
    /// (zero for a zero period).
    pub fn utilization_permyriad(self) -> (r: u64)
        ensures
            r == self.spec_utilization(),
    {
        if self.period_us == 0 {
            0
        } else {
            assert(self.execution_budget_us as u64 * 10_000u64 <= 0xffff_ffffu64 * 10_000u64) by (nonlinear_arith);
            (self.execution_budget_us as u64) * 10_000 / (self.period_us as u64)
        }
    }
}

/// One module's declared identity, rights, and budgets.
#[derive(Clone, Copy, Debug, PartialEq, Eq, Structural)]
pub struct ModuleSpec {
    pub id: ModuleId,
    pub criticality: Criticality,
    pub required: CapabilitySet,
    pub owns: CapabilitySet,
    pub memory: MemoryBudget,
    pub deadline: Option<DeadlineContract>,
    pub fault_thresholds: FaultThresholds,
}

impl ModuleSpec {
    pub fn new(id: ModuleId, criticality: Criticality) -> (r: Self)
        ensures
            r.id == id,
            r.criticality == criticality,
            r.required@ == 0,
            r.owns@ == 0,
            r.memory == (MemoryBudget { flash_bytes: 0, ram_bytes: 0, pool_slots: 0 }),
            r.deadline is None,
            r.fault_thresholds == (FaultThresholds { notify_after: 3, reboot_after: 8 }),
    {
        ModuleSpec {
            id,
            criticality,
            required: CapabilitySet::empty(),
            owns: CapabilitySet::empty(),
            memory: MemoryBudget::zero(),
            deadline: None,
            fault_thresholds: FaultThresholds::default(),
        }
    }

    pub fn require(self, required: CapabilitySet) -> (r: Self)
        ensures
            r == (ModuleSpec { required, ..self }),
    {
        ModuleSpec { required, ..self }
    }

    pub fn owns(self, owns: CapabilitySet) -> (r: Self)
        ensures
            r == (ModuleSpec { owns, ..self }),
    {
        ModuleSpec { owns, ..self }
    }

    pub fn memory(self, memory: MemoryBudget) -> (r: Self)
        ensures
            r == (ModuleSpec { memory, ..self }),
    {
        ModuleSpec { memory, ..self }
    }

    pub fn deadline(self, deadline: DeadlineContract) -> (r: Self)
        ensures
            r == (ModuleSpec { deadline: Some(deadline), ..self }),
    {
        ModuleSpec { deadline: Some(deadline), ..self }
    }

    pub fn fault_thresholds(self, fault_thresholds: FaultThresholds) -> (r: Self)
        ensures
            r == (ModuleSpec { fault_thresholds, ..self }),
    {
        ModuleSpec { fault_thresholds, ..self }
    }
}

#[derive(Clone, Copy, Debug, PartialEq, Eq, Structural)]
pub enum ManifestError {
    TooManyModules,
    DuplicateModule(ModuleId),
    /// The summed memory budgets exceed the profile's limits.
    BudgetExceeded,
    /// The summed deadline utilization exceeds the whole processor.
    Overloaded,
}

/// What a profile refuses first: module count, then memory, then utilization.
pub open spec fn profile_verdict(specs: Seq<ModuleSpec>, profile: SystemProfile) -> Result<(), ManifestError> {
    if specs.len() > profile.max_modules {
        Err(ManifestError::TooManyModules)
    } else if !budget_sum(specs).within(profile.limit()) {
        Err(ManifestError::BudgetExceeded)
    } else if crate::admission_analysis::util_sum(specs) > 10_000 {
        Err(ManifestError::Overloaded)
    } else {
        Ok(())
    }
}

/// Saturating component-wise sum of the memory budgets of `specs`.
pub open spec fn budget_sum(specs: Seq<ModuleSpec>) -> SystemBudget
    decreases specs.len(),
{
    if specs.len() == 0 {
        SystemBudget { flash_bytes: 0, ram_bytes: 0, pool_slots: 0 }
    } else {
        let prev = budget_sum(specs.drop_last());
        let m = specs.last().memory;
        SystemBudget {
            flash_bytes: prev.flash_bytes.saturating_add(m.flash_bytes),
            ram_bytes: prev.ram_bytes.saturating_add(m.ram_bytes),
            pool_slots: prev.pool_slots.saturating_add(m.pool_slots),
        }
    }
}

/// What adding the `i`-th of `specs` to a manifest of `m` places refuses:
/// an identity seen earlier, or a manifest already full.
pub open spec fn spec_refusal(specs: Seq<ModuleSpec>, m: int) -> spec_fn(int) -> Option<ManifestError> {
    |i: int| if exists|j: int| 0 <= j < i && #[trigger] specs[j].id == specs[i].id {
        Some(ManifestError::DuplicateModule(specs[i].id))
    } else if i >= m {
        Some(ManifestError::TooManyModules)
    } else {
        None
    }
}

/// The first refusal met when `specs` are added in order to a manifest of
/// `m` places.
pub open spec fn specs_verdict(specs: Seq<ModuleSpec>, m: int) -> Option<ManifestError> {
    first_some(spec_refusal(specs, m), specs.len() as int)
}

/// Bounded, ordered set of module specifications with unique identities.
pub struct SystemManifest<const M: usize> {
    specs: [Option<ModuleSpec>; M],
    len: usize,
}

impl<const M: usize> SystemManifest<M> {
    pub closed spec fn view(self) -> Seq<ModuleSpec> {
        Seq::new(self.len as nat, |i: int| self.specs@[i].unwrap())
    }

    pub closed spec fn wf(self) -> bool {
        &&& self.len <= M
        &&& forall|i: int| 0 <= i < self.len ==> #[trigger] self.specs@[i] is Some
        &&& forall|i: int, j: int|
            0 <= i < j < self.len ==> #[trigger] self.specs@[i].unwrap().id != #[trigger] self.specs@[j].unwrap().id
    }

    /// Identities in a well-formed manifest are pairwise distinct.
    pub proof fn lemma_unique(self, a: int, b: int)
        requires
            self.wf(),
            0 <= a < b < self.view().len(),
        ensures
            self.view()[a].id != self.view()[b].id,
    {
        assert(self.specs@[a].unwrap().id != self.specs@[b].unwrap().id);
    }

    pub fn new() -> (r: Self)
        ensures
            r.wf(),
            r.view() =~= Seq::<ModuleSpec>::empty(),
    {
        SystemManifest { specs: [None; M], len: 0 }
    }

    pub fn len(&self) -> (r: usize)
        requires
            self.wf(),
        ensures
            r == self.view().len(),
            r <= M,
    {
        self.len
    }

    pub fn is_empty(&self) -> (r: bool)
        requires
            self.wf(),
        ensures
            r == (self.view().len() == 0),
    {
        self.len == 0
    }

    pub fn capacity(&self) -> (r: usize)
        ensures
            r == M,
    {
        M
    }

    /// Append a module; identities stay unique and capacity is bounded.
    pub fn add(&mut self, spec: ModuleSpec) -> (r: Result<(), ManifestError>)
        requires
            old(self).wf(),
        ensures
            final(self).wf(),
            (exists|i: int| 0 <= i < old(self).view().len() && old(self).view()[i].id == spec.id) ==> r == Err::<(), ManifestError>(ManifestError::DuplicateModule(spec.id)) && final(self).view() == old(self).view(),
            !(exists|i: int| 0 <= i < old(self).view().len() && old(self).view()[i].id == spec.id) && old(self).view().len() >= M ==> r == Err::<(), ManifestError>(ManifestError::TooManyModules) && final(self).view() == old(self).view(),
            r is Ok <==> !(exists|i: int| 0 <= i < old(self).view().len() && old(self).view()[i].id == spec.id) && old(self).view().len() < M,
            r is Ok ==> final(self).view() =~= old(self).view().push(spec),
    {
        let mut i: usize = 0;
        while i < self.len
            invariant
                self.wf(),
                i <= self.len,
                forall|j: int| 0 <= j < i ==> self.view()[j].id != spec.id,
            decreases self.len - i,
        {
            let existing = self.specs[i].unwrap();
            if same_module(existing.id, spec.id) {
                assert(self.view()[i as int].id == spec.id);
                return Err(ManifestError::DuplicateModule(spec.id));
            }
            i += 1;
        }
        if self.len >= M {
            return Err(ManifestError::TooManyModules);
        }
        let ghost before = self.view();
        let ghost old_specs = self.specs@;
        self.specs[self.len] = Some(spec);
        self.len = self.len + 1;
        assert forall|a: int, b: int| 0 <= a < b < self.len implies #[trigger] self.specs@[a].unwrap().id != #[trigger] self.specs@[b].unwrap().id by {
            if b == self.len - 1 {
                assert(before[a].id != spec.id);
            } else {
                assert(old_specs[a].unwrap().id != old_specs[b].unwrap().id);
            }
        }
        assert(self.view() =~= before.push(spec));
        Ok(())
    }

    /// Build a manifest from specifications in order; the first repeated
    /// identity or the first specification past capacity is refused.
    pub fn from_specs(specs: &[ModuleSpec]) -> (r: Result<Self, ManifestError>)
        ensures
            specs_verdict(specs@, M as int) matches Some(e) ==> r == Err::<Self, ManifestError>(e),
            specs_verdict(specs@, M as int) is None ==> (r matches Ok(m) && m.wf() && m.view() =~= specs@),
    {
        let ghost f = spec_refusal(specs@, M as int);
        let mut manifest = Self::new();
        let mut i: usize = 0;
        while i < specs.len()
            invariant
                manifest.wf(),
                i <= specs.len(),
                manifest.view() =~= specs@.subrange(0, i as int),
                f == spec_refusal(specs@, M as int),
                first_some(f, i as int) is None,
            decreases specs.len() - i,
        {
            let ghost before = manifest.view();
            match manifest.add(specs[i]) {
                Ok(()) => {},
                Err(e) => {
                    proof {
                        if exists|j: int| 0 <= j < i && #[trigger] specs@[j].id == specs@[i as int].id {
                            let j = choose|j: int| 0 <= j < i && #[trigger] specs@[j].id == specs@[i as int].id;
                            assert(before[j].id == specs@[i as int].id);
                        } else {
                            assert forall|j: int| 0 <= j < before.len() implies before[j].id != specs@[i as int].id by {
                                assert(before[j] == specs@[j]);
                            }
                        }
                        assert(f(i as int) == Some(e));
                        lemma_first_some_hit(f, i as int, specs@.len() as int);
                    }
                    return Err(e);
                },
            }
            proof {
                assert forall|j: int| 0 <= j < i implies #[trigger] specs@[j].id != specs@[i as int].id by {
                    assert(before[j] == specs@[j]);
                }
                assert(f(i as int) is None);
            }
            assert(specs@.subrange(0, i + 1) =~= specs@.subrange(0, i as int).push(specs@[i as int]));
            i += 1;
        }
        assert(specs@.subrange(0, specs@.len() as int) =~= specs@);
        Ok(manifest)
    }

    /// The module at position `index`.
    pub fn get(&self, index: usize) -> (r: ModuleSpec)
        requires
            self.wf(),
            index < self.view().len(),
        ensures
            r == self.view()[index as int],
    {
        self.specs[index].unwrap()
    }

    /// The modules in declaration order.
    pub fn specs(&self) -> (r: Vec<ModuleSpec>)
        requires
            self.wf(),
        ensures
            r@ =~= self.view(),
    {
        let mut out: Vec<ModuleSpec> = Vec::new();
        let mut i: usize = 0;
        while i < self.len
            invariant
                self.wf(),
                i <= self.len,
                out@ =~= self.view().subrange(0, i as int),
            decreases self.len - i,
        {
            out.push(self.specs[i].unwrap());
            i += 1;
        }
        out
    }

    /// Saturating sum of every module's memory budget.
    pub fn total_budget(&self) -> (r: SystemBudget)
        requires
            self.wf(),
        ensures
            r == budget_sum(self.view()),
    {
        let mut budget = SystemBudget::new(0, 0, 0);
        let mut i: usize = 0;
        while i < self.len
            invariant
                self.wf(),
                i <= self.len,
                budget == budget_sum(self.view().subrange(0, i as int)),
            decreases self.len - i,
        {
            let m = self.specs[i].unwrap().memory;
            assert(self.view().subrange(0, i + 1).drop_last() =~= self.view().subrange(0, i as int));
            budget = SystemBudget::new(
                budget.flash_bytes.saturating_add(m.flash_bytes),
                budget.ram_bytes.saturating_add(m.ram_bytes),
                budget.pool_slots.saturating_add(m.pool_slots),
            );
            i += 1;
        }
        assert(self.view().subrange(0, self.len as int) =~= self.view());
        budget
    }

    /// Check the manifest against a platform profile: module count, summed
    /// memory, and summed utilization (at most 10 000 parts per ten thousand).
    pub fn validate_profile(&self, profile: SystemProfile) -> (r: Result<(), ManifestError>)
        requires
            self.wf(),
        ensures
            r == profile_verdict(self.view(), profile),
    {
        if self.len > profile.max_modules {
            return Err(ManifestError::TooManyModules);
        }
        let analysis = crate::admission_analysis::AdmissionAnalysis::<0>::analyze(self, profile);
        if !analysis.used().fits_within(profile.budget()) {
            return Err(ManifestError::BudgetExceeded);
        }
        if analysis.total_utilization_permyriad() > 10_000 {
            return Err(ManifestError::Overloaded);
        }
        Ok(())
    }
}

} // verus!
