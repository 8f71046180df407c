//! Fixed-plan hot module reload support.

use vstd::prelude::*;

use crate::health::{same_module, ModuleId};
use crate::manifest::SystemBudget;

verus! {

#[derive(Clone, Copy, Debug, PartialEq, Eq, Structural)]
pub enum HotReloadStepKind {
    QuiesceModule,
    ReleaseLeases,
    UnmountModule,
    MountModule,
    ResumeModule,
}

#[derive(Clone, Copy, Debug, PartialEq, Eq, Structural)]
pub struct HotReloadStep {
    pub module: ModuleId,
    pub kind: HotReloadStepKind,
    pub due_us: u64,
    pub budget_us: u32,
    pub revision: u32,
}

impl HotReloadStep {
    pub fn new(module: ModuleId, kind: HotReloadStepKind, due_us: u64, budget_us: u32, revision: u32) -> (r: Self)
        ensures
            r == (HotReloadStep { module, kind, due_us, budget_us, revision }),
    {
        HotReloadStep { module, kind, due_us, budget_us, revision }
    }
}

#[derive(Clone, Copy, Debug, PartialEq, Eq, Structural)]
pub struct HotReloadPolicy {
    pub quiesce_budget_us: u32,
    pub lease_release_budget_us: u32,
    pub unmount_budget_us: u32,
    pub mount_budget_us: u32,
    pub resume_budget_us: u32,
    pub max_total_budget_us: u32,
}

impl Default for HotReloadPolicy {
    /// 500/250/500/1000/500 µs phase budgets within a 4 ms total.
    fn default() -> (r: Self)
        ensures
            r == (HotReloadPolicy {
                quiesce_budget_us: 500,
                lease_release_budget_us: 250,
                unmount_budget_us: 500,
                mount_budget_us: 1_000,
                resume_budget_us: 500,
                max_total_budget_us: 4_000,
            }),
    {
        HotReloadPolicy {
            quiesce_budget_us: 500,
            lease_release_budget_us: 250,
            unmount_budget_us: 500,
            mount_budget_us: 1_000,
            resume_budget_us: 500,
            max_total_budget_us: 4_000,
        }
    }
}

#[derive(Clone, Copy, Debug, PartialEq, Eq, Structural)]
pub enum HotReloadError {
    CannotReloadKernel,
    PlanFull,
    BudgetExceeded { required_us: u64, limit_us: u32 },
}

/// Releases every resource lease an owner holds; returns how many were released.
pub trait LeaseReleaser {
    fn release_all_for_owner(&mut self, owner: u8) -> usize;
}

#[derive(Clone, Copy, Debug, Default, PartialEq, Eq)]
pub struct NoopLeaseReleaser;

impl LeaseReleaser for NoopLeaseReleaser {
    fn release_all_for_owner(&mut self, _owner: u8) -> (r: usize)
        ensures
            r == 0,
    {
        0
    }
}

#[derive(Clone, Copy, Debug, PartialEq, Eq)]
pub struct HotReloadPlan<const N: usize> {
    pub module: ModuleId,
    pub new_revision: u32,
    pub steps: [Option<HotReloadStep>; N],
    pub len: usize,
    pub required_budget_us: u64,
    pub deadline_us: u64,
}

/// The five phases of a reload, in execution order.
pub open spec fn phase_kind(i: int) -> HotReloadStepKind {
    if i == 0 {
        HotReloadStepKind::QuiesceModule
    } else if i == 1 {
        HotReloadStepKind::ReleaseLeases
    } else if i == 2 {
        HotReloadStepKind::UnmountModule
    } else if i == 3 {
        HotReloadStepKind::MountModule
    } else {
        HotReloadStepKind::ResumeModule
    }
}

/// The budget the policy assigns to phase `i`.
pub open spec fn phase_budget(policy: HotReloadPolicy, i: int) -> u32 {
    if i == 0 {
        policy.quiesce_budget_us
    } else if i == 1 {
        policy.lease_release_budget_us
    } else if i == 2 {
        policy.unmount_budget_us
    } else if i == 3 {
        policy.mount_budget_us
    } else {
        policy.resume_budget_us
    }
}

/// Saturating sum of the first `k` phase budgets.
pub open spec fn phase_total(policy: HotReloadPolicy, k: int) -> u64
    decreases k,
{
    if k <= 0 {
        0
    } else {
        phase_total(policy, k - 1).saturating_add(phase_budget(policy, k - 1) as u64)
    }
}

/// Due time of phase `i`: the start plus every earlier phase budget (saturating).
pub open spec fn phase_due(now_us: u64, policy: HotReloadPolicy, i: int) -> u64
    decreases i,
{
    if i <= 0 {
        now_us
    } else {
        phase_due(now_us, policy, i - 1).saturating_add(phase_budget(policy, i - 1) as u64)
    }
}

impl<const N: usize> HotReloadPlan<N> {
    pub open spec fn wf(self) -> bool {
        &&& self.len <= N
        &&& forall|i: int| 0 <= i < self.len ==> #[trigger] self.steps@[i] is Some
    }

    pub fn new(module: ModuleId, new_revision: u32) -> (r: Self)
        ensures
            r.wf(),
            r.module == module,
            r.new_revision == new_revision,
            r.len == 0,
            r.required_budget_us == 0,
            r.deadline_us == 0,
            forall|i: int| 0 <= i < N ==> r.steps@[i] is None,
    {
        HotReloadPlan {
            module,
            new_revision,
            steps: [None; N],
            len: 0,
            required_budget_us: 0,
            deadline_us: 0,
        }
    }

    /// A quiesce, lease-release, unmount, mount, resume plan for a non-kernel
    /// module, with each step due after the previous budgets.
    pub fn build(module: ModuleId, new_revision: u32, now_us: u64, policy: HotReloadPolicy) -> (r: Result<Self, HotReloadError>)
        ensures
            module == ModuleId::Kernel ==> r == Err::<Self, HotReloadError>(HotReloadError::CannotReloadKernel),
            module != ModuleId::Kernel && N < 5 ==> r == Err::<Self, HotReloadError>(HotReloadError::PlanFull),
            module != ModuleId::Kernel && N >= 5 && phase_total(policy, 5) > policy.max_total_budget_us ==>
                r == Err::<Self, HotReloadError>(HotReloadError::BudgetExceeded {
                    required_us: phase_total(policy, 5),
                    limit_us: policy.max_total_budget_us,
                }),
            r is Ok <==> (module != ModuleId::Kernel && N >= 5 && phase_total(policy, 5) <= policy.max_total_budget_us),
            r matches Ok(plan) ==> {
                &&& plan.wf()
                &&& plan.module == module
                &&& plan.new_revision == new_revision
                &&& plan.len == 5
                &&& plan.required_budget_us == phase_total(policy, 5)
                &&& plan.deadline_us == now_us.saturating_add(phase_total(policy, 5))
                &&& forall|i: int| 0 <= i < 5 ==> #[trigger] plan.steps@[i] == Some(HotReloadStep {
                    module,
                    kind: phase_kind(i),
                    due_us: phase_due(now_us, policy, i),
                    budget_us: phase_budget(policy, i),
                    revision: new_revision,
                })
                &&& forall|i: int| 5 <= i < N ==> plan.steps@[i] is None
            },
    {
        if same_module(module, ModuleId::Kernel) {
            return Err(HotReloadError::CannotReloadKernel);
        }
        let mut plan = Self::new(module, new_revision);
        let mut due_us = now_us;
        plan.push(HotReloadStepKind::QuiesceModule, due_us, policy.quiesce_budget_us)?;
        due_us = due_us.saturating_add(policy.quiesce_budget_us as u64);
        plan.push(HotReloadStepKind::ReleaseLeases, due_us, policy.lease_release_budget_us)?;
        due_us = due_us.saturating_add(policy.lease_release_budget_us as u64);
        plan.push(HotReloadStepKind::UnmountModule, due_us, policy.unmount_budget_us)?;
        due_us = due_us.saturating_add(policy.unmount_budget_us as u64);
        plan.push(HotReloadStepKind::MountModule, due_us, policy.mount_budget_us)?;
        due_us = due_us.saturating_add(policy.mount_budget_us as u64);
        plan.push(HotReloadStepKind::ResumeModule, due_us, policy.resume_budget_us)?;
        proof {
            reveal_with_fuel(phase_total, 6);
            reveal_with_fuel(phase_due, 6);
        }
        if plan.required_budget_us > policy.max_total_budget_us as u64 {
            return Err(
                HotReloadError::BudgetExceeded {
                    required_us: plan.required_budget_us,
                    limit_us: policy.max_total_budget_us,
                },
            );
        }
        plan.deadline_us = now_us.saturating_add(plan.required_budget_us);
        Ok(plan)
    }

    pub fn last(&self) -> (r: Option<HotReloadStep>)
        requires
            self.wf(),
        ensures
            r == (if self.len == 0 {
                None
            } else {
                self.steps@[self.len - 1]
            }),
    {
        if self.len == 0 {
            None
        } else {
            self.steps[self.len - 1]
        }
    }

    pub fn is_empty(&self) -> (r: bool)
        ensures
            r == (self.len == 0),
    {
        self.len == 0
    }

    fn push(&mut self, kind: HotReloadStepKind, due_us: u64, budget_us: u32) -> (r: Result<(), HotReloadError>)
        requires
            old(self).wf(),
        ensures
            final(self).wf(),
            old(self).len >= N ==> r == Err::<(), HotReloadError>(HotReloadError::PlanFull) && *final(self) == *old(self),
            old(self).len < N ==> {
                &&& r is Ok
                &&& final(self).module == old(self).module
                &&& final(self).new_revision == old(self).new_revision
                &&& final(self).deadline_us == old(self).deadline_us
                &&& final(self).len == old(self).len + 1
                &&& final(self).required_budget_us == old(self).required_budget_us.saturating_add(budget_us as u64)
                &&& final(self).steps@ == old(self).steps@.update(
                    old(self).len as int,
                    Some(HotReloadStep {
                        module: old(self).module,
                        kind,
                        due_us,
                        budget_us,
                        revision: old(self).new_revision,
                    }),
                )
            },
    {
        if self.len >= N {
            return Err(HotReloadError::PlanFull);
        }
        self.steps[self.len] = Some(HotReloadStep::new(self.module, kind, due_us, budget_us, self.new_revision));
        self.len += 1;
        self.required_budget_us = self.required_budget_us.saturating_add(budget_us as u64);
        Ok(())
    }
}

#[derive(Clone, Copy, Debug, PartialEq, Eq)]
pub struct HotReloadOutcome<const N: usize> {
    pub module: ModuleId,
    pub lease_owner: u8,
    pub released_leases: usize,
    pub released_quota: SystemBudget,
    pub new_revision: u32,
    pub plan: HotReloadPlan<N>,
}

} // verus!
