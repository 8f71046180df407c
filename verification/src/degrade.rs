//! Degraded-mode planner for fitting module sets into a system profile.

use vstd::prelude::*;

use crate::health::ModuleId;
use crate::manifest::{ModuleSpec, SystemBudget, SystemProfile};

verus! {

#[derive(Clone, Copy, Debug, PartialEq, Eq, Structural)]
pub enum DegradeReason {
    FlashBudget,
    RamBudget,
    PoolBudget,
    ModuleLimit,
}

#[derive(Clone, Copy, Debug, PartialEq, Eq, Structural)]
pub enum DegradeError {
    TooManyModules,
    EssentialOverBudget,
}

#[derive(Clone, Copy, Debug, PartialEq, Eq)]
pub struct DegradeDecision<const N: usize> {
    pub enabled: [bool; N],
    pub disabled: [Option<ModuleId>; N],
    pub disabled_count: usize,
    pub budget: SystemBudget,
    pub reason: Option<DegradeReason>,
}

pub struct DegradePlanner;

/// Saturating budget of the enabled modules among the first `k`.
pub open spec fn enabled_budget(modules: Seq<ModuleSpec>, enabled: Seq<bool>, k: int) -> SystemBudget
    decreases k,
{
    if k <= 0 {
        SystemBudget { flash_bytes: 0, ram_bytes: 0, pool_slots: 0 }
    } else {
        let prev = enabled_budget(modules, enabled, k - 1);
        if enabled[k - 1] {
            let m = modules[k - 1].memory;
            SystemBudget {
                flash_bytes: prev.flash_bytes.saturating_add(m.flash_bytes),
                ram_bytes: prev.ram_bytes.saturating_add(m.ram_bytes),
                pool_slots: prev.pool_slots.saturating_add(m.pool_slots),
            }
        } else {
            prev
        }
    }
}

/// Number of enabled flags among the first `k`.
pub open spec fn enabled_count(enabled: Seq<bool>, k: int) -> nat
    decreases k,
{
    if k <= 0 {
        0
    } else {
        enabled_count(enabled, k - 1) + if enabled[k - 1] {
            1nat
        } else {
            0nat
        }
    }
}

pub open spec fn within_profile(modules: Seq<ModuleSpec>, profile: SystemProfile, enabled: Seq<bool>) -> bool {
    &&& enabled_budget(modules, enabled, modules.len() as int).within(profile.limit())
    &&& enabled_count(enabled, modules.len() as int) <= profile.max_modules
}

/// The first limit the enabled set breaks: module count, flash, RAM, then pool.
pub open spec fn overflow_reason_of(budget: SystemBudget, profile: SystemProfile, modules: nat) -> DegradeReason {
    if modules > profile.max_modules {
        DegradeReason::ModuleLimit
    } else if budget.flash_bytes > profile.flash_limit_bytes {
        DegradeReason::FlashBudget
    } else if budget.ram_bytes > profile.ram_limit_bytes {
        DegradeReason::RamBudget
    } else {
        DegradeReason::PoolBudget
    }
}

/// An enabled module below `System` criticality may be dropped.
pub open spec fn droppable(modules: Seq<ModuleSpec>, enabled: Seq<bool>, i: int) -> bool {
    0 <= i < modules.len() && i < enabled.len() && enabled[i] && modules[i].criticality.level() < 3
}

/// Drop `i` before `j`: lower criticality first, then larger flash.
pub open spec fn drops_before(modules: Seq<ModuleSpec>, i: int, j: int) -> bool {
    ||| modules[i].criticality.level() < modules[j].criticality.level()
    ||| (modules[i].criticality.level() == modules[j].criticality.level()
        && modules[i].memory.flash_bytes > modules[j].memory.flash_bytes)
}

/// `i` is the module dropped next: the most droppable one, earliest on ties.
pub open spec fn is_drop_choice(modules: Seq<ModuleSpec>, enabled: Seq<bool>, i: int) -> bool {
    &&& droppable(modules, enabled, i)
    &&& forall|j: int|
        droppable(modules, enabled, j) && j != i ==> (j < i ==> drops_before(modules, i, j)) && (i < j
            ==> !drops_before(modules, j, i))
}

pub open spec fn drop_choice(modules: Seq<ModuleSpec>, enabled: Seq<bool>) -> Option<int> {
    if exists|i: int| is_drop_choice(modules, enabled, i) {
        Some(choose|i: int| is_drop_choice(modules, enabled, i))
    } else {
        None
    }
}

pub proof fn lemma_count_drop(enabled: Seq<bool>, i: int, k: int)
    requires
        0 <= i < k <= enabled.len(),
        enabled[i],
    ensures
        enabled_count(enabled.update(i, false), k) + 1 == enabled_count(enabled, k),
    decreases k,
{
    if k - 1 > i {
        lemma_count_drop(enabled, i, k - 1);
    } else {
        lemma_count_same_prefix(enabled, enabled.update(i, false), i);
    }
}

pub proof fn lemma_count_same_prefix(a: Seq<bool>, b: Seq<bool>, k: int)
    requires
        0 <= k <= a.len(),
        k <= b.len(),
        forall|j: int| 0 <= j < k ==> a[j] == b[j],
    ensures
        enabled_count(a, k) == enabled_count(b, k),
    decreases k,
{
    if k > 0 {
        lemma_count_same_prefix(a, b, k - 1);
    }
}

pub proof fn lemma_count_all(enabled: Seq<bool>, k: int)
    requires
        0 <= k <= enabled.len(),
        forall|j: int| 0 <= j < k ==> enabled[j],
    ensures
        enabled_count(enabled, k) == k,
    decreases k,
{
    if k > 0 {
        lemma_count_all(enabled, k - 1);
    }
}

/// The planner's outcome: keep dropping the chosen module until the enabled
/// set fits, or fail when nothing droppable remains.
pub open spec fn degrade_plan(
    modules: Seq<ModuleSpec>,
    profile: SystemProfile,
    enabled: Seq<bool>,
    disabled: Seq<ModuleId>,
    reason: Option<DegradeReason>,
) -> Result<(Seq<bool>, Seq<ModuleId>, Option<DegradeReason>), DegradeError>
    decreases enabled_count(enabled, modules.len() as int),
{
    if within_profile(modules, profile, enabled) {
        Ok((enabled, disabled, reason))
    } else {
        let why = overflow_reason_of(
            enabled_budget(modules, enabled, modules.len() as int),
            profile,
            enabled_count(enabled, modules.len() as int),
        );
        match drop_choice(modules, enabled) {
            None => Err(DegradeError::EssentialOverBudget),
            Some(i) => {
                if modules.len() <= enabled.len() {
                    proof {
                        lemma_count_drop(enabled, i, modules.len() as int);
                    }
                    degrade_plan(modules, profile, enabled.update(i, false), disabled.push(modules[i].id), Some(why))
                } else {
                    Err(DegradeError::EssentialOverBudget)
                }
            },
        }
    }
}

/// Everything enabled for the first `len` positions of an `n`-long mask.
pub open spec fn initial_mask(len: int, n: int) -> Seq<bool> {
    Seq::new(n as nat, |i: int| i < len)
}

impl DegradePlanner {
    /// Disable modules, least critical and then largest first, until the set
    /// fits the profile's budget and module limit. Modules at `System`
    /// criticality and above are never disabled.
    pub fn fit<const N: usize>(modules: &[ModuleSpec], profile: SystemProfile) -> (r: Result<DegradeDecision<N>, DegradeError>)
        ensures
            modules@.len() > N ==> r == Err::<DegradeDecision<N>, DegradeError>(DegradeError::TooManyModules),
            modules@.len() <= N ==> match degrade_plan(
                modules@,
                profile,
                initial_mask(modules@.len() as int, N as int),
                Seq::empty(),
                None,
            ) {
                Err(e) => r == Err::<DegradeDecision<N>, DegradeError>(e),
                Ok((enabled, disabled, reason)) => r matches Ok(d) && {
                    &&& d.enabled@ == enabled
                    &&& d.disabled_count == disabled.len()
                    &&& forall|i: int| 0 <= i < disabled.len() ==> d.disabled@[i] == Some(#[trigger] disabled[i])
                    &&& forall|i: int| disabled.len() <= i < N ==> d.disabled@[i] is None
                    &&& d.budget == enabled_budget(modules@, enabled, modules@.len() as int)
                    &&& d.reason == reason
                },
            },
    {
        if modules.len() > N {
            return Err(DegradeError::TooManyModules);
        }
        let mut enabled: [bool; N] = [false; N];
        let mut idx: usize = 0;
        while idx < modules.len()
            invariant
                modules@.len() <= N,
                idx <= modules@.len(),
                forall|j: int| 0 <= j < N ==> enabled@[j] == (j < idx),
            decreases modules@.len() - idx,
        {
            enabled[idx] = true;
            idx += 1;
        }
        assert(enabled@ =~= initial_mask(modules@.len() as int, N as int));
        proof {
            lemma_count_all(enabled@, modules@.len() as int);
        }
        let mut disabled: [Option<ModuleId>; N] = [None; N];
        let mut disabled_count: usize = 0;
        let mut reason: Option<DegradeReason> = None;
        let ghost dis: Seq<ModuleId> = Seq::empty();
        let mut budget = total_budget(modules, &enabled);
        loop
            invariant
                modules@.len() <= N,
                enabled@.len() == N,
                disabled_count == dis.len(),
                disabled_count + enabled_count(enabled@, modules@.len() as int) == modules@.len(),
                forall|i: int| 0 <= i < dis.len() ==> disabled@[i] == Some(#[trigger] dis[i]),
                forall|i: int| dis.len() <= i < N ==> disabled@[i] is None,
                forall|j: int| modules@.len() <= j < N ==> !enabled@[j],
                budget == enabled_budget(modules@, enabled@, modules@.len() as int),
                degrade_plan(modules@, profile, initial_mask(modules@.len() as int, N as int), Seq::empty(), None)
                    == degrade_plan(modules@, profile, enabled@, dis, reason),
            decreases enabled_count(enabled@, modules@.len() as int),
        {
            let count = enabled_count_of(modules.len(), &enabled);
            if budget.fits_within(profile.budget()) && count <= profile.max_modules {
                return Ok(DegradeDecision { enabled, disabled, disabled_count, budget, reason });
            }
            let why = overflow_reason(budget, profile, count);
            reason = Some(why);
            let Some(drop_idx) = pick_drop_candidate(modules, &enabled) else {
                return Err(DegradeError::EssentialOverBudget);
            };
            proof {
                lemma_count_drop(enabled@, drop_idx as int, modules@.len() as int);
            }
            let ghost before = enabled@;
            enabled[drop_idx] = false;
            assert(enabled@ == before.update(drop_idx as int, false));
            disabled[disabled_count] = Some(modules[drop_idx].id);
            proof {
                dis = dis.push(modules@[drop_idx as int].id);
            }
            disabled_count += 1;
            budget = total_budget(modules, &enabled);
        }
    }
}

/// The most droppable enabled module, earliest on ties.
fn pick_drop_candidate<const N: usize>(modules: &[ModuleSpec], enabled: &[bool; N]) -> (r: Option<usize>)
    requires
        modules@.len() <= N,
    ensures
        r == (match drop_choice(modules@, enabled@) {
            Some(i) => Some(i as usize),
            None => None::<usize>,
        }),
{
    let mut selected: Option<usize> = None;
    let mut idx: usize = 0;
    while idx < modules.len()
        invariant
            modules@.len() <= N,
            idx <= modules@.len(),
            selected matches Some(s) ==> s < idx && droppable(modules@, enabled@, s as int)
                && forall|j: int| droppable(modules@, enabled@, j) && j < idx && j != s ==> (j < s ==> drops_before(modules@, s as int, j)) && (s < j ==> !drops_before(modules@, j, s as int)),
            selected is None ==> forall|j: int| 0 <= j < idx ==> !droppable(modules@, enabled@, j),
        decreases modules@.len() - idx,
    {
        let spec = modules[idx];
        if enabled[idx] && spec.criticality.rank() < 3 {
            assert(droppable(modules@, enabled@, idx as int));
            match selected {
                None => {
                    selected = Some(idx);
                },
                Some(prev_idx) => {
                    let prev = modules[prev_idx];
                    let crit = spec.criticality.rank();
                    let prev_crit = prev.criticality.rank();
                    if crit < prev_crit || (crit == prev_crit && spec.memory.flash_bytes > prev.memory.flash_bytes) {
                        assert(drops_before(modules@, idx as int, prev_idx as int));
                        assert forall|j: int| droppable(modules@, enabled@, j) && j < idx + 1 && j != idx implies drops_before(modules@, idx as int, j) by {
                            if j != prev_idx {
                                if j < prev_idx {
                                    assert(drops_before(modules@, prev_idx as int, j));
                                } else {
                                    assert(!drops_before(modules@, j, prev_idx as int));
                                }
                            }
                        }
                        selected = Some(idx);
                    } else {
                        assert(!drops_before(modules@, idx as int, prev_idx as int));
                    }
                },
            }
        }
        idx += 1;
    }
    proof {
        match selected {
            Some(s) => {
                assert(is_drop_choice(modules@, enabled@, s as int));
                assert forall|a: int| is_drop_choice(modules@, enabled@, a) implies a == s by {
                    if a != s {
                        assert(droppable(modules@, enabled@, a));
                    }
                }
            },
            None => {
                assert forall|a: int| !is_drop_choice(modules@, enabled@, a) by {}
            },
        }
    }
    selected
}

fn total_budget<const N: usize>(modules: &[ModuleSpec], enabled: &[bool; N]) -> (r: SystemBudget)
    requires
        modules@.len() <= N,
    ensures
        r == enabled_budget(modules@, enabled@, modules@.len() as int),
{
    let mut budget = SystemBudget::new(0, 0, 0);
    let mut idx: usize = 0;
    while idx < modules.len()
        invariant
            modules@.len() <= N,
            idx <= modules@.len(),
            budget == enabled_budget(modules@, enabled@, idx as int),
        decreases modules@.len() - idx,
    {
        if enabled[idx] {
            let spec = modules[idx];
            budget.flash_bytes = budget.flash_bytes.saturating_add(spec.memory.flash_bytes);
            budget.ram_bytes = budget.ram_bytes.saturating_add(spec.memory.ram_bytes);
            budget.pool_slots = budget.pool_slots.saturating_add(spec.memory.pool_slots);
        }
        idx += 1;
    }
    budget
}

fn enabled_count_of<const N: usize>(len: usize, enabled: &[bool; N]) -> (r: usize)
    requires
        len <= N,
    ensures
        r == enabled_count(enabled@, len as int),
{
    let mut count: usize = 0;
    let mut idx: usize = 0;
    while idx < len
        invariant
            len <= N,
            idx <= len,
            count == enabled_count(enabled@, idx as int),
            count <= idx,
        decreases len - idx,
    {
        if enabled[idx] {
            count += 1;
        }
        idx += 1;
    }
    count
}

fn overflow_reason(budget: SystemBudget, profile: SystemProfile, modules: usize) -> (r: DegradeReason)
    ensures
        r == overflow_reason_of(budget, profile, modules as nat),
{
    if modules > profile.max_modules {
        DegradeReason::ModuleLimit
    } else if budget.flash_bytes > profile.flash_limit_bytes {
        DegradeReason::FlashBudget
    } else if budget.ram_bytes > profile.ram_limit_bytes {
        DegradeReason::RamBudget
    } else {
        DegradeReason::PoolBudget
    }
}

/// Law: the planner only ever disables droppable modules, so every module at
/// `System` criticality or above stays enabled.
pub proof fn degrade_never_drops_essential(
    modules: Seq<ModuleSpec>,
    profile: SystemProfile,
    enabled: Seq<bool>,
    disabled: Seq<ModuleId>,
    reason: Option<DegradeReason>,
    i: int,
)
    requires
        modules.len() <= enabled.len(),
        0 <= i < modules.len(),
        enabled[i],
        modules[i].criticality.level() >= 3,
        degrade_plan(modules, profile, enabled, disabled, reason) is Ok,
    ensures
        degrade_plan(modules, profile, enabled, disabled, reason).unwrap().0[i],
    decreases enabled_count(enabled, modules.len() as int),
{
    if !within_profile(modules, profile, enabled) {
        let why = overflow_reason_of(
            enabled_budget(modules, enabled, modules.len() as int),
            profile,
            enabled_count(enabled, modules.len() as int),
        );
        match drop_choice(modules, enabled) {
            None => {},
            Some(k) => {
                let c = choose|c: int| is_drop_choice(modules, enabled, c);
                assert(is_drop_choice(modules, enabled, c));
                lemma_count_drop(enabled, k, modules.len() as int);
                degrade_never_drops_essential(modules, profile, enabled.update(k, false), disabled.push(modules[k].id), Some(why), i);
            },
        }
    }
}

/// Law: the module the planner drops next is enabled, below `System`
/// criticality, and of the lowest criticality among the droppable modules;
/// within that criticality it has the most flash, and of equals it is the
/// earliest. So an over-budget set always loses a less critical module
/// before a more critical one, however much flash the latter holds.
pub proof fn next_drop_is_least_critical(modules: Seq<ModuleSpec>, enabled: Seq<bool>, j: int)
    requires
        drop_choice(modules, enabled) is Some,
        0 <= j < modules.len(),
        j < enabled.len(),
        enabled[j],
        modules[j].criticality.level() < 3,
    ensures
        ({
            let i = drop_choice(modules, enabled).unwrap();
            &&& 0 <= i < modules.len() && i < enabled.len() && enabled[i]
            &&& modules[i].criticality.level() < 3
            &&& modules[i].criticality.level() <= modules[j].criticality.level()
            &&& modules[i].criticality.level() == modules[j].criticality.level()
                ==> modules[i].memory.flash_bytes >= modules[j].memory.flash_bytes
            &&& modules[i].criticality.level() == modules[j].criticality.level()
                && modules[i].memory.flash_bytes == modules[j].memory.flash_bytes ==> i <= j
        }),
{
    let i = choose|c: int| is_drop_choice(modules, enabled, c);
    assert(is_drop_choice(modules, enabled, i));
    assert(droppable(modules, enabled, j));
}

/// The most droppable module among the droppable ones below `k`.
proof fn lemma_best_below(modules: Seq<ModuleSpec>, enabled: Seq<bool>, k: int, d: int) -> (i: int)
    requires
        0 <= d < k,
        droppable(modules, enabled, d),
    ensures
        0 <= i < k,
        droppable(modules, enabled, i),
        forall|j: int|
            droppable(modules, enabled, j) && j < k && j != i ==> (j < i ==> drops_before(modules, i, j)) && (i < j
                ==> !drops_before(modules, j, i)),
    decreases k,
{
    if d == k - 1 && !(exists|e: int| 0 <= e < k - 1 && droppable(modules, enabled, e)) {
        k - 1
    } else {
        let e = if d < k - 1 { d } else { choose|e: int| 0 <= e < k - 1 && droppable(modules, enabled, e) };
        let b = lemma_best_below(modules, enabled, k - 1, e);
        if droppable(modules, enabled, k - 1) && drops_before(modules, k - 1, b) {
            k - 1
        } else {
            b
        }
    }
}

/// Law: while some enabled module below `System` criticality remains, the
/// planner has a module to drop; it reports `EssentialOverBudget` only when
/// every enabled module is essential.
pub proof fn drop_choice_exists_while_droppable(modules: Seq<ModuleSpec>, enabled: Seq<bool>, j: int)
    requires
        0 <= j < modules.len(),
        j < enabled.len(),
        enabled[j],
        modules[j].criticality.level() < 3,
    ensures
        drop_choice(modules, enabled) is Some,
{
    let i = lemma_best_below(modules, enabled, modules.len() as int, j);
    assert(is_drop_choice(modules, enabled, i));
}

/// Law: a successful plan fits the profile's budget and module limit.
pub proof fn degrade_plan_fits(
    modules: Seq<ModuleSpec>,
    profile: SystemProfile,
    enabled: Seq<bool>,
    disabled: Seq<ModuleId>,
    reason: Option<DegradeReason>,
)
    requires
        modules.len() <= enabled.len(),
        degrade_plan(modules, profile, enabled, disabled, reason) is Ok,
    ensures
        within_profile(modules, profile, degrade_plan(modules, profile, enabled, disabled, reason).unwrap().0),
    decreases enabled_count(enabled, modules.len() as int),
{
    if !within_profile(modules, profile, enabled) {
        let why = overflow_reason_of(
            enabled_budget(modules, enabled, modules.len() as int),
            profile,
            enabled_count(enabled, modules.len() as int),
        );
        match drop_choice(modules, enabled) {
            None => {},
            Some(k) => {
                let c = choose|c: int| is_drop_choice(modules, enabled, c);
                assert(is_drop_choice(modules, enabled, c));
                lemma_count_drop(enabled, k, modules.len() as int);
                degrade_plan_fits(modules, profile, enabled.update(k, false), disabled.push(modules[k].id), Some(why));
            },
        }
    }
}

} // verus!
