use nobro_kernel::{
    HotReloadError, HotReloadPlan, HotReloadPolicy, HotReloadStep, HotReloadStepKind, ModuleId,
};

#[test]
fn hot_reload_plan_is_ordered_and_bounded() {
    let plan = HotReloadPlan::<5>::build(ModuleId::Sensor, 42, 1_000, HotReloadPolicy::default())
        .unwrap();

    assert_eq!(plan.len, 5);
    assert_eq!(plan.required_budget_us, 2_750);
    assert_eq!(plan.deadline_us, 3_750);
    assert_eq!(
        plan.steps[0],
        Some(HotReloadStep::new(
            ModuleId::Sensor,
            HotReloadStepKind::QuiesceModule,
            1_000,
            500,
            42,
        ))
    );
    assert_eq!(
        plan.last().map(|step| step.kind),
        Some(HotReloadStepKind::ResumeModule)
    );
}

#[test]
fn hot_reload_plan_reports_capacity_and_budget_errors() {
    assert_eq!(
        HotReloadPlan::<4>::build(ModuleId::Sensor, 2, 0, HotReloadPolicy::default(),),
        Err(HotReloadError::PlanFull)
    );

    assert_eq!(
        HotReloadPlan::<5>::build(
            ModuleId::Sensor,
            2,
            0,
            HotReloadPolicy {
                max_total_budget_us: 1_000,
                ..HotReloadPolicy::default()
            },
        ),
        Err(HotReloadError::BudgetExceeded {
            required_us: 2_750,
            limit_us: 1_000,
        })
    );
}

#[test]
fn kernel_is_not_hot_reloadable() {
    assert_eq!(
        HotReloadPlan::<5>::build(ModuleId::Kernel, 1, 0, HotReloadPolicy::default(),),
        Err(HotReloadError::CannotReloadKernel)
    );
}

#[test]
fn step_due_times_accumulate_previous_budgets() {
    let plan = HotReloadPlan::<6>::build(ModuleId::App(3), 7, 100, HotReloadPolicy::default()).unwrap();
    let due: Vec<u64> = plan.steps[..5].iter().map(|s| s.unwrap().due_us).collect();
    assert_eq!(due, vec![100, 600, 850, 1_350, 2_350]);
    assert_eq!(plan.steps[5], None);
    assert!(!plan.is_empty());
    assert!(HotReloadPlan::<3>::new(ModuleId::Radio, 1).is_empty());
    assert_eq!(HotReloadPlan::<3>::new(ModuleId::Radio, 1).last(), None);
}
