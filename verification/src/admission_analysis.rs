//! Admission cost analysis and deadline/best-effort balance.
//!
//! Given a manifest and a platform profile this reports the marginal cost of
//! every module (the flash, RAM, pool slots, and CPU utilization that removing
//! it frees) and whether the set fits both the memory budget and the 100%
//! utilization bound. When it does not, [`AdmissionAnalysis::shed_plan`]
//! names the best-effort-first set of modules to drop; deadline-critical
//! modules (`System`, `HardRealtime`) and the kernel are never candidates.

use vstd::prelude::*;

use crate::health::{same_module, ModuleId};
use crate::manifest::{Criticality, ModuleSpec, SystemBudget, SystemManifest, SystemProfile};

verus! {

/// The marginal contribution of one module to the system's cost.
#[derive(Clone, Copy, Debug, PartialEq, Eq, Structural)]
pub struct ModuleCost {
    pub module: ModuleId,
    pub criticality: Criticality,
    pub flash_bytes: u32,
    pub ram_bytes: u32,
    pub pool_slots: u16,
    /// CPU utilization in parts-per-ten-thousand (0 for modules with no deadline).
    pub utilization_permyriad: u64,
}

/// Why a shed plan could not be produced.
#[derive(Clone, Copy, Debug, PartialEq, Eq, Structural)]
pub enum ShedError {
    /// More modules must be shed than the caller's output buffer holds.
    OutputFull,
    /// Even after shedding every sheddable module the deadline-critical core
    /// alone is over budget.
    Infeasible,
}

/// A concrete remediation for an over-budget system.
#[derive(Clone, Copy, Debug, PartialEq, Eq)]
pub struct ShedPlan<const N: usize> {
    /// Modules to drop, in shed order (best-effort first).
    pub shed: [Option<ModuleId>; N],
    pub shed_len: usize,
    pub freed_flash: u32,
    pub freed_ram: u32,
    pub freed_util_permyriad: u64,
}

impl<const N: usize> ShedPlan<N> {
    pub open spec fn wf(self) -> bool {
        &&& self.shed_len <= N
        &&& forall|i: int| 0 <= i < self.shed_len ==> #[trigger] self.shed@[i] is Some
        &&& forall|i: int| self.shed_len <= i < N ==> #[trigger] self.shed@[i] is None
    }

    /// The modules to shed, in order.
    pub open spec fn modules(self) -> Seq<ModuleId> {
        Seq::new(self.shed_len as nat, |i: int| self.shed@[i].unwrap())
    }

    pub fn shed_modules(&self) -> (r: Vec<ModuleId>)
        requires
            self.wf(),
        ensures
            r@ =~= self.modules(),
    {
        let mut out: Vec<ModuleId> = Vec::new();
        let mut i: usize = 0;
        while i < self.shed_len
            invariant
                self.wf(),
                i <= self.shed_len,
                out@ =~= self.modules().subrange(0, i as int),
            decreases self.shed_len - i,
        {
            out.push(self.shed[i].unwrap());
            i += 1;
        }
        out
    }
}

/// Utilization of a module spec, zero without a deadline contract.
pub open spec fn spec_utilization(spec: ModuleSpec) -> u64 {
    match spec.deadline {
        Some(d) => d.spec_utilization(),
        None => 0,
    }
}

pub open spec fn cost_of_spec(spec: ModuleSpec) -> ModuleCost {
    ModuleCost {
        module: spec.id,
        criticality: spec.criticality,
        flash_bytes: spec.memory.flash_bytes,
        ram_bytes: spec.memory.ram_bytes,
        pool_slots: spec.memory.pool_slots,
        utilization_permyriad: spec_utilization(spec),
    }
}

/// Saturating sum of the utilization of `specs`.
pub open spec fn util_sum(specs: Seq<ModuleSpec>) -> u64
    decreases specs.len(),
{
    if specs.len() == 0 {
        0
    } else {
        util_sum(specs.drop_last()).saturating_add(spec_utilization(specs.last()))
    }
}

/// Sheddable: below `System` criticality and not the kernel.
pub open spec fn sheddable(cost: ModuleCost) -> bool {
    cost.module != ModuleId::Kernel && cost.criticality.level() < 3
}

/// Shed priority: lower criticality first, then heavier utilization, then heavier RAM.
pub open spec fn sheds_before(a: ModuleCost, b: ModuleCost) -> bool {
    if a.criticality.level() != b.criticality.level() {
        a.criticality.level() < b.criticality.level()
    } else if a.utilization_permyriad != b.utilization_permyriad {
        a.utilization_permyriad > b.utilization_permyriad
    } else {
        a.ram_bytes > b.ram_bytes
    }
}

/// The sheddable costs in their original order.
pub open spec fn candidates(costs: Seq<ModuleCost>) -> Seq<ModuleCost>
    decreases costs.len(),
{
    if costs.len() == 0 {
        costs
    } else if sheddable(costs.last()) {
        candidates(costs.drop_last()).push(costs.last())
    } else {
        candidates(costs.drop_last())
    }
}

/// Insert `x` into `s`, after every element `x` does not shed before.
pub open spec fn insert_by_priority(s: Seq<ModuleCost>, x: ModuleCost) -> Seq<ModuleCost>
    decreases s.len(),
{
    if s.len() == 0 || !sheds_before(x, s.last()) {
        s.push(x)
    } else {
        insert_by_priority(s.drop_last(), x).push(s.last())
    }
}

/// Stable ordering of `s` by shed priority.
pub open spec fn priority_order(s: Seq<ModuleCost>) -> Seq<ModuleCost>
    decreases s.len(),
{
    if s.len() == 0 {
        s
    } else {
        insert_by_priority(priority_order(s.drop_last()), s.last())
    }
}

/// Budget and utilization left after shedding the first `k` of `order`.
pub open spec fn after_shedding(order: Seq<ModuleCost>, k: int, used: SystemBudget, util: u64) -> (SystemBudget, u64)
    decreases k,
{
    if k <= 0 || k > order.len() {
        (used, util)
    } else {
        let prev = after_shedding(order, k - 1, used, util);
        let c = order[k - 1];
        (
            SystemBudget {
                flash_bytes: prev.0.flash_bytes.saturating_sub(c.flash_bytes),
                ram_bytes: prev.0.ram_bytes.saturating_sub(c.ram_bytes),
                pool_slots: prev.0.pool_slots.saturating_sub(c.pool_slots),
            },
            prev.1.saturating_sub(c.utilization_permyriad),
        )
    }
}

pub open spec fn fits_after(order: Seq<ModuleCost>, k: int, used: SystemBudget, util: u64, limit: SystemBudget) -> bool {
    let st = after_shedding(order, k, used, util);
    st.0.within(limit) && st.1 <= 10_000
}

/// How many modules the greedy walk sheds: it stops at the first prefix that
/// fits, or after the whole order.
pub open spec fn greedy_count(order: Seq<ModuleCost>, i: int, used: SystemBudget, util: u64, limit: SystemBudget) -> int
    decreases order.len() - i,
{
    if i >= order.len() || fits_after(order, i, used, util, limit) {
        i
    } else {
        greedy_count(order, i + 1, used, util, limit)
    }
}

/// Saturating sums of flash, RAM, and utilization over the first `k` of `order`.
pub open spec fn freed(order: Seq<ModuleCost>, k: int) -> (u32, u32, u64)
    decreases k,
{
    if k <= 0 || k > order.len() {
        (0, 0, 0)
    } else {
        let prev = freed(order, k - 1);
        let c = order[k - 1];
        (
            prev.0.saturating_add(c.flash_bytes),
            prev.1.saturating_add(c.ram_bytes),
            prev.2.saturating_add(c.utilization_permyriad),
        )
    }
}

/// Analysis of one manifest against a platform profile.
#[derive(Clone, Copy, Debug, PartialEq, Eq)]
pub struct AdmissionAnalysis<const N: usize> {
    costs: [Option<ModuleCost>; N],
    len: usize,
    used: SystemBudget,
    limit: SystemBudget,
    total_util_permyriad: u64,
}

impl<const N: usize> AdmissionAnalysis<N> {
    pub closed spec fn wf(self) -> bool {
        &&& self.len <= N
        &&& forall|i: int| 0 <= i < self.len ==> #[trigger] self.costs@[i] is Some
    }

    /// The priced modules, in manifest order.
    pub closed spec fn cost_rows(self) -> Seq<ModuleCost> {
        Seq::new(self.len as nat, |i: int| self.costs@[i].unwrap())
    }

    pub closed spec fn spec_used(self) -> SystemBudget {
        self.used
    }

    pub closed spec fn spec_limit(self) -> SystemBudget {
        self.limit
    }

    pub closed spec fn spec_total_util(self) -> u64 {
        self.total_util_permyriad
    }

    pub open spec fn fits(self) -> bool {
        self.spec_used().within(self.spec_limit()) && self.spec_total_util() <= 10_000
    }

    /// The order in which modules are considered for shedding.
    pub open spec fn shed_order(self) -> Seq<ModuleCost> {
        priority_order(candidates(self.cost_rows()))
    }

    /// Price every manifest module (the first `N` get a cost row) against the profile.
    pub fn analyze<const M: usize>(manifest: &SystemManifest<M>, profile: SystemProfile) -> (r: Self)
        requires
            manifest.wf(),
        ensures
            r.wf(),
            r.cost_rows() =~= manifest.view().take(vstd::math::min(N as int, manifest.view().len() as int)).map_values(|s: ModuleSpec| cost_of_spec(s)),
            r.spec_used() == crate::manifest::budget_sum(manifest.view()),
            r.spec_limit() == profile.limit(),
            r.spec_total_util() == util_sum(manifest.view()),
    {
        let mut costs: [Option<ModuleCost>; N] = [None; N];
        let mut len: usize = 0;
        let mut total_util: u64 = 0;
        let count = manifest.len();
        let mut i: usize = 0;
        while i < count
            invariant
                manifest.wf(),
                count == manifest.view().len(),
                i <= count,
                len == vstd::math::min(N as int, i as int),
                forall|k: int| 0 <= k < len ==> #[trigger] costs@[k] == Some(cost_of_spec(manifest.view()[k])),
                total_util == util_sum(manifest.view().subrange(0, i as int)),
            decreases count - i,
        {
            let spec = manifest.get(i);
            let util = match spec.deadline {
                Some(deadline) => deadline.utilization_permyriad(),
                None => 0,
            };
            proof {
                assert(manifest.view().subrange(0, i + 1).drop_last() =~= manifest.view().subrange(0, i as int));
            }
            total_util = total_util.saturating_add(util);
            if len < N {
                costs[len] = Some(
                    ModuleCost {
                        module: spec.id,
                        criticality: spec.criticality,
                        flash_bytes: spec.memory.flash_bytes,
                        ram_bytes: spec.memory.ram_bytes,
                        pool_slots: spec.memory.pool_slots,
                        utilization_permyriad: util,
                    },
                );
                len += 1;
            }
            i += 1;
        }
        proof {
            assert(manifest.view().subrange(0, count as int) =~= manifest.view());
        }
        let r = AdmissionAnalysis {
            costs,
            len,
            used: manifest.total_budget(),
            limit: profile.budget(),
            total_util_permyriad: total_util,
        };
        assert(r.cost_rows() =~= manifest.view().take(vstd::math::min(N as int, manifest.view().len() as int)).map_values(|s: ModuleSpec| cost_of_spec(s)));
        r
    }

    /// The cost rows, in manifest order.
    pub fn costs(&self) -> (r: Vec<ModuleCost>)
        requires
            self.wf(),
        ensures
            r@ =~= self.cost_rows(),
    {
        let mut out: Vec<ModuleCost> = Vec::new();
        let mut i: usize = 0;
        while i < self.len
            invariant
                self.wf(),
                i <= self.len,
                out@ =~= self.cost_rows().subrange(0, i as int),
            decreases self.len - i,
        {
            out.push(self.costs[i].unwrap());
            i += 1;
        }
        out
    }

    /// The first cost row of `module`.
    pub fn cost_of(&self, module: ModuleId) -> (r: Option<ModuleCost>)
        requires
            self.wf(),
        ensures
            r matches Some(c) ==> c.module == module && exists|i: int|
                0 <= i < self.cost_rows().len() && self.cost_rows()[i] == c
                    && forall|j: int| 0 <= j < i ==> #[trigger] self.cost_rows()[j].module != module,
            r is None ==> forall|i: int| 0 <= i < self.cost_rows().len() ==> #[trigger] self.cost_rows()[i].module != module,
    {
        let mut i: usize = 0;
        while i < self.len
            invariant
                self.wf(),
                i <= self.len,
                forall|j: int| 0 <= j < i ==> #[trigger] self.cost_rows()[j].module != module,
            decreases self.len - i,
        {
            let cost = self.costs[i].unwrap();
            assert(cost == self.cost_rows()[i as int]);
            if same_module(cost.module, module) {
                return Some(cost);
            }
            i += 1;
        }
        None
    }

    pub fn used(&self) -> (r: SystemBudget)
        ensures
            r == self.spec_used(),
    {
        self.used
    }

    pub fn limit(&self) -> (r: SystemBudget)
        ensures
            r == self.spec_limit(),
    {
        self.limit
    }

    pub fn total_utilization_permyriad(&self) -> (r: u64)
        ensures
            r == self.spec_total_util(),
    {
        self.total_util_permyriad
    }

    /// True when the set fits memory and stays within the utilization bound.
    pub fn schedulable(&self) -> (r: bool)
        ensures
            r == self.fits(),
    {
        self.used.fits_within(self.limit) && self.total_util_permyriad <= 10_000
    }

    /// Flash, RAM, and utilization headroom; a component reads 0 when over.
    pub fn headroom(&self) -> (r: (u32, u32, u64))
        ensures
            r == (
                self.spec_limit().flash_bytes.saturating_sub(self.spec_used().flash_bytes),
                self.spec_limit().ram_bytes.saturating_sub(self.spec_used().ram_bytes),
                10_000u64.saturating_sub(self.spec_total_util()),
            ),
    {
        (
            self.limit.flash_bytes.saturating_sub(self.used.flash_bytes),
            self.limit.ram_bytes.saturating_sub(self.used.ram_bytes),
            10_000u64.saturating_sub(self.total_util_permyriad),
        )
    }

    /// The best-effort-first set of modules whose removal makes the system
    /// schedulable, or why none can be given.
    pub fn shed_plan<const S: usize>(&self) -> (r: Result<ShedPlan<S>, ShedError>)
        requires
            self.wf(),
        ensures
            self.fits() ==> (r matches Ok(p) && p.wf() && p.shed_len == 0 && p.freed_flash == 0
                && p.freed_ram == 0 && p.freed_util_permyriad == 0),
            !self.fits() ==> {
                let order = self.shed_order();
                let k = greedy_count(order, 0, self.spec_used(), self.spec_total_util(), self.spec_limit());
                &&& (k > S ==> r == Err::<ShedPlan<S>, ShedError>(ShedError::OutputFull))
                &&& (k <= S && !fits_after(order, k, self.spec_used(), self.spec_total_util(), self.spec_limit())
                    ==> r == Err::<ShedPlan<S>, ShedError>(ShedError::Infeasible))
                &&& (k <= S && fits_after(order, k, self.spec_used(), self.spec_total_util(), self.spec_limit()) ==> (r matches Ok(p) && {
                    &&& p.wf()
                    &&& p.shed_len == k
                    &&& p.modules() =~= order.take(k).map_values(|c: ModuleCost| c.module)
                    &&& (p.freed_flash, p.freed_ram, p.freed_util_permyriad) == freed(order, k)
                }))
            },
    {
        if self.schedulable() {
            return Ok(ShedPlan { shed: [None; S], shed_len: 0, freed_flash: 0, freed_ram: 0, freed_util_permyriad: 0 });
        }
        let order = self.priority_ordered_candidates();
        let ghost ord = order@;
        let mut plan = ShedPlan::<S> { shed: [None; S], shed_len: 0, freed_flash: 0, freed_ram: 0, freed_util_permyriad: 0 };
        let mut used = self.used;
        let mut util = self.total_util_permyriad;
        let mut i: usize = 0;
        while i < order.len() && !(used.fits_within(self.limit) && util <= 10_000)
            invariant
                self.wf(),
                !self.fits(),
                order@ == ord,
                ord == self.shed_order(),
                i <= ord.len(),
                i <= S,
                plan.wf(),
                plan.shed_len == i,
                plan.modules() =~= ord.take(i as int).map_values(|c: ModuleCost| c.module),
                (plan.freed_flash, plan.freed_ram, plan.freed_util_permyriad) == freed(ord, i as int),
                (used, util) == after_shedding(ord, i as int, self.spec_used(), self.spec_total_util()),
                greedy_count(ord, 0, self.spec_used(), self.spec_total_util(), self.spec_limit())
                    == greedy_count(ord, i as int, self.spec_used(), self.spec_total_util(), self.spec_limit()),
            decreases ord.len() - i,
        {
            if plan.shed_len == S {
                proof {
                    Self::lemma_greedy_at_least(ord, i as int, self.spec_used(), self.spec_total_util(), self.spec_limit());
                }
                return Err(ShedError::OutputFull);
            }
            let cost = order[i];
            let ghost before = plan;
            plan.shed[plan.shed_len] = Some(cost.module);
            plan.shed_len += 1;
            plan.freed_flash = plan.freed_flash.saturating_add(cost.flash_bytes);
            plan.freed_ram = plan.freed_ram.saturating_add(cost.ram_bytes);
            plan.freed_util_permyriad = plan.freed_util_permyriad.saturating_add(cost.utilization_permyriad);
            used = SystemBudget::new(
                used.flash_bytes.saturating_sub(cost.flash_bytes),
                used.ram_bytes.saturating_sub(cost.ram_bytes),
                used.pool_slots.saturating_sub(cost.pool_slots),
            );
            util = util.saturating_sub(cost.utilization_permyriad);
            i += 1;
            proof {
                assert(plan.modules() =~= before.modules().push(cost.module));
                assert(ord.take(i as int).map_values(|c: ModuleCost| c.module) =~= ord.take(i - 1).map_values(|c: ModuleCost| c.module).push(cost.module));
            }
        }
        proof {
            assert(greedy_count(ord, i as int, self.spec_used(), self.spec_total_util(), self.spec_limit()) == i);
        }
        if used.fits_within(self.limit) && util <= 10_000 {
            Ok(plan)
        } else {
            Err(ShedError::Infeasible)
        }
    }

    proof fn lemma_greedy_ge(order: Seq<ModuleCost>, i: int, used: SystemBudget, util: u64, limit: SystemBudget)
        requires
            0 <= i,
        ensures
            greedy_count(order, i, used, util, limit) >= i,
        decreases order.len() - i,
    {
        if i < order.len() && !fits_after(order, i, used, util, limit) {
            Self::lemma_greedy_ge(order, i + 1, used, util, limit);
        }
    }

    proof fn lemma_greedy_at_least(order: Seq<ModuleCost>, i: int, used: SystemBudget, util: u64, limit: SystemBudget)
        requires
            0 <= i < order.len(),
            !fits_after(order, i, used, util, limit),
        ensures
            greedy_count(order, i, used, util, limit) > i,
        decreases order.len() - i,
    {
        Self::lemma_greedy_ge(order, i + 1, used, util, limit);
    }

    /// The sheddable cost rows, stably ordered by shed priority.
    fn priority_ordered_candidates(&self) -> (r: Vec<ModuleCost>)
        requires
            self.wf(),
        ensures
            r@ == self.shed_order(),
    {
        let mut order: Vec<ModuleCost> = Vec::new();
        let mut i: usize = 0;
        while i < self.len
            invariant
                self.wf(),
                i <= self.len,
                order@ == priority_order(candidates(self.cost_rows().subrange(0, i as int))),
            decreases self.len - i,
        {
            let cost = self.costs[i].unwrap();
            proof {
                assert(self.cost_rows().subrange(0, i + 1).drop_last() =~= self.cost_rows().subrange(0, i as int));
                assert(self.cost_rows().subrange(0, i + 1).last() == cost);
            }
            if !same_module(cost.module, ModuleId::Kernel) && cost.criticality.rank() < 3 {
                Self::insert_ordered(&mut order, cost);
                proof {
                    let prefix = candidates(self.cost_rows().subrange(0, i as int));
                    assert(candidates(self.cost_rows().subrange(0, i + 1)) == prefix.push(cost));
                    assert(prefix.push(cost).drop_last() =~= prefix);
                }
            }
            i += 1;
        }
        proof {
            assert(self.cost_rows().subrange(0, self.len as int) =~= self.cost_rows());
        }
        order
    }

    fn before(a: ModuleCost, b: ModuleCost) -> (r: bool)
        ensures
            r == sheds_before(a, b),
    {
        let la = a.criticality.rank();
        let lb = b.criticality.rank();
        if la != lb {
            return la < lb;
        }
        if a.utilization_permyriad != b.utilization_permyriad {
            return a.utilization_permyriad > b.utilization_permyriad;
        }
        a.ram_bytes > b.ram_bytes
    }

    /// Push `x` and bubble it left past every element it sheds before.
    fn insert_ordered(order: &mut Vec<ModuleCost>, x: ModuleCost)
        ensures
            final(order)@ == insert_by_priority(old(order)@, x),
    {
        let ghost s = old(order)@;
        order.push(x);
        let mut j = order.len() - 1;
        proof {
            assert(order@.subrange(0, j as int) =~= s);
            assert(order@.subrange(j + 1, order@.len() as int) =~= Seq::<ModuleCost>::empty());
            assert(insert_by_priority(s, x) + Seq::<ModuleCost>::empty() =~= insert_by_priority(s, x));
        }
        while j > 0 && Self::before(order[j], order[j - 1])
            invariant
                j < order@.len(),
                order@.len() == s.len() + 1,
                order@[j as int] == x,
                insert_by_priority(order@.subrange(0, j as int), x) + order@.subrange(j + 1, order@.len() as int)
                    == insert_by_priority(s, x),
            decreases j,
        {
            let ghost a = order@.subrange(0, j as int);
            let prev = order[j - 1];
            order.set(j, prev);
            order.set(j - 1, x);
            proof {
                assert(a.drop_last() =~= order@.subrange(0, j - 1));
                assert(insert_by_priority(a, x) == insert_by_priority(a.drop_last(), x).push(prev));
                assert(order@.subrange(j as int, order@.len() as int) =~= seq![prev] + order@.subrange(j + 1, order@.len() as int));
                assert(insert_by_priority(order@.subrange(0, j - 1), x) + order@.subrange(j as int, order@.len() as int)
                    =~= insert_by_priority(a, x) + order@.subrange(j + 1, order@.len() as int));
            }
            j -= 1;
        }
        proof {
            let a = order@.subrange(0, j as int);
            assert(insert_by_priority(a, x) == a.push(x));
            assert(a.push(x) + order@.subrange(j + 1, order@.len() as int) =~= order@);
        }
    }
}

/// Law: a shed plan never names the kernel or a deadline-critical
/// (`System`/`HardRealtime`) module.
pub proof fn shed_order_only_holds_sheddable_modules(costs: Seq<ModuleCost>, i: int)
    requires
        0 <= i < priority_order(candidates(costs)).len(),
    ensures
        sheddable(priority_order(candidates(costs))[i]),
{
    lemma_candidates_sheddable(costs);
    lemma_order_keeps(candidates(costs));
    let x = priority_order(candidates(costs))[i];
    assert(priority_order(candidates(costs)).contains(x));
}

proof fn lemma_candidates_sheddable(costs: Seq<ModuleCost>)
    ensures
        forall|i: int| 0 <= i < candidates(costs).len() ==> sheddable(#[trigger] candidates(costs)[i]),
    decreases costs.len(),
{
    if costs.len() > 0 {
        lemma_candidates_sheddable(costs.drop_last());
        if sheddable(costs.last()) {
            let prev = candidates(costs.drop_last());
            assert forall|i: int| 0 <= i < prev.push(costs.last()).len() implies sheddable(#[trigger] prev.push(costs.last())[i]) by {
                if i < prev.len() {
                    assert(prev.push(costs.last())[i] == prev[i]);
                }
            }
        }
    }
}

proof fn lemma_insert_keeps(s: Seq<ModuleCost>, x: ModuleCost)
    ensures
        insert_by_priority(s, x).len() == s.len() + 1,
        forall|y: ModuleCost| #[trigger] insert_by_priority(s, x).contains(y) ==> y == x || s.contains(y),
    decreases s.len(),
{
    if s.len() > 0 && sheds_before(x, s.last()) {
        lemma_insert_keeps(s.drop_last(), x);
        let p = insert_by_priority(s.drop_last(), x);
        assert forall|y: ModuleCost| #[trigger] p.push(s.last()).contains(y) implies y == x || s.contains(y) by {
            let k = choose|k: int| 0 <= k < p.push(s.last()).len() && p.push(s.last())[k] == y;
            if k == p.len() {
                assert(s[s.len() - 1] == y);
            } else {
                assert(p.contains(y));
                if y != x {
                    let m = choose|m: int| 0 <= m < s.drop_last().len() && s.drop_last()[m] == y;
                    assert(s[m] == y);
                }
            }
        }
    } else {
        assert forall|y: ModuleCost| #[trigger] s.push(x).contains(y) implies y == x || s.contains(y) by {
            let k = choose|k: int| 0 <= k < s.push(x).len() && s.push(x)[k] == y;
            if k < s.len() {
                assert(s[k] == y);
            }
        }
    }
}

proof fn lemma_order_keeps(s: Seq<ModuleCost>)
    ensures
        priority_order(s).len() == s.len(),
        forall|y: ModuleCost| #[trigger] priority_order(s).contains(y) ==> s.contains(y),
    decreases s.len(),
{
    if s.len() > 0 {
        lemma_order_keeps(s.drop_last());
        lemma_insert_keeps(priority_order(s.drop_last()), s.last());
        assert forall|y: ModuleCost| #[trigger] priority_order(s).contains(y) implies s.contains(y) by {
            if y == s.last() {
                assert(s[s.len() - 1] == y);
            } else {
                assert(priority_order(s.drop_last()).contains(y));
                let m = choose|m: int| 0 <= m < s.drop_last().len() && s.drop_last()[m] == y;
                assert(s[m] == y);
            }
        }
    }
}


/// No element of `s` sheds before an element ahead of it.
pub open spec fn shed_sorted(s: Seq<ModuleCost>) -> bool {
    forall|i: int, j: int| 0 <= i < j < s.len() ==> !sheds_before(#[trigger] s[j], #[trigger] s[i])
}

proof fn lemma_sheds_before_order(a: ModuleCost, b: ModuleCost, c: ModuleCost)
    ensures
        sheds_before(a, b) ==> !sheds_before(b, a),
        !sheds_before(a, b) && !sheds_before(b, c) ==> !sheds_before(a, c),
{
}

proof fn lemma_insert_sorted(s: Seq<ModuleCost>, x: ModuleCost)
    requires
        shed_sorted(s),
    ensures
        shed_sorted(insert_by_priority(s, x)),
    decreases s.len(),
{
    if s.len() == 0 {
    } else if !sheds_before(x, s.last()) {
        let r = s.push(x);
        assert forall|i: int, j: int| 0 <= i < j < r.len() implies !sheds_before(#[trigger] r[j], #[trigger] r[i]) by {
            if j == s.len() {
                if i < s.len() - 1 {
                    assert(!sheds_before(s[s.len() - 1], s[i]));
                }
                lemma_sheds_before_order(x, s.last(), s[i]);
            } else {
                assert(r[i] == s[i] && r[j] == s[j]);
            }
        }
    } else {
        let t = s.drop_last();
        assert(shed_sorted(t)) by {
            assert forall|i: int, j: int| 0 <= i < j < t.len() implies !sheds_before(#[trigger] t[j], #[trigger] t[i]) by {
                assert(t[i] == s[i] && t[j] == s[j]);
            }
        }
        lemma_insert_sorted(t, x);
        lemma_insert_keeps(t, x);
        let u = insert_by_priority(t, x);
        let r = u.push(s.last());
        assert forall|i: int, j: int| 0 <= i < j < r.len() implies !sheds_before(#[trigger] r[j], #[trigger] r[i]) by {
            if j == u.len() {
                let y = u[i];
                assert(u.contains(y));
                if y == x {
                    lemma_sheds_before_order(x, s.last(), x);
                } else {
                    assert(t.contains(y));
                    let m = choose|m: int| 0 <= m < t.len() && t[m] == y;
                    assert(s[m] == y);
                    assert(!sheds_before(s[s.len() - 1], s[m]));
                }
            } else {
                assert(r[i] == u[i] && r[j] == u[j]);
            }
        }
    }
}

proof fn lemma_priority_order_sorted(s: Seq<ModuleCost>)
    ensures
        shed_sorted(priority_order(s)),
    decreases s.len(),
{
    if s.len() > 0 {
        lemma_priority_order_sorted(s.drop_last());
        lemma_insert_sorted(priority_order(s.drop_last()), s.last());
    }
}

/// Law: the shed order takes the least critical modules first, and within
/// one criticality the heaviest processor user first, so a plan sheds the
/// heaviest feature of a class before a lighter one.
pub proof fn shed_order_puts_heavier_first(costs: Seq<ModuleCost>, i: int, j: int)
    requires
        0 <= i < j < priority_order(candidates(costs)).len(),
    ensures
        ({
            let o = priority_order(candidates(costs));
            &&& o[i].criticality.level() <= o[j].criticality.level()
            &&& o[i].criticality.level() == o[j].criticality.level()
                ==> o[i].utilization_permyriad >= o[j].utilization_permyriad
        }),
{
    lemma_priority_order_sorted(candidates(costs));
    let o = priority_order(candidates(costs));
    assert(!sheds_before(o[j], o[i]));
}

} // verus!
