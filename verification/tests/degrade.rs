use nobro_kernel::{
    Criticality, DeadlineContract, DegradeError, DegradePlanner, DegradeReason, MemoryBudget,
    ModuleId, ModuleSpec, SystemProfile,
};

fn module(id: ModuleId, criticality: Criticality, flash: u32, ram: u32) -> ModuleSpec {
    let spec = ModuleSpec::new(id, criticality).memory(MemoryBudget::new(flash, ram, 0));
    if criticality == Criticality::HardRealtime {
        spec.deadline(DeadlineContract::new(20_000, 10))
    } else {
        spec
    }
}

#[test]
fn planner_drops_best_effort_first() {
    let modules = [
        module(ModuleId::Kernel, Criticality::HardRealtime, 20, 4),
        module(ModuleId::Sensor, Criticality::Driver, 20, 4),
        module(ModuleId::App(1), Criticality::BestEffort, 50, 4),
        module(ModuleId::App(2), Criticality::User, 20, 4),
    ];

    let decision = DegradePlanner::fit::<4>(
        &modules,
        SystemProfile {
            flash_limit_bytes: 70,
            ram_limit_bytes: 32,
            pool_slot_limit: 8,
            max_modules: 4,
            wake_latency_us: 0,
        },
    )
    .unwrap();

    assert_eq!(decision.disabled_count, 1);
    assert_eq!(decision.disabled[0], Some(ModuleId::App(1)));
    assert!(decision.enabled[0]);
    assert!(decision.enabled[1]);
    assert!(decision.enabled[3]);
    assert_eq!(decision.reason, Some(DegradeReason::FlashBudget));
}

#[test]
fn planner_reports_essential_over_budget() {
    let modules = [
        module(ModuleId::Kernel, Criticality::HardRealtime, 100, 4),
        module(ModuleId::Hal, Criticality::System, 100, 4),
    ];

    assert_eq!(
        DegradePlanner::fit::<2>(
            &modules,
            SystemProfile {
                flash_limit_bytes: 50,
                ram_limit_bytes: 32,
                pool_slot_limit: 8,
                max_modules: 2,
                wake_latency_us: 0,
            },
        ),
        Err(DegradeError::EssentialOverBudget)
    );
}

#[test]
fn planner_can_fit_module_count_limit() {
    let modules = [
        module(ModuleId::Kernel, Criticality::HardRealtime, 10, 1),
        module(ModuleId::App(1), Criticality::BestEffort, 10, 1),
        module(ModuleId::App(2), Criticality::User, 10, 1),
    ];

    let decision = DegradePlanner::fit::<3>(
        &modules,
        SystemProfile {
            flash_limit_bytes: 100,
            ram_limit_bytes: 100,
            pool_slot_limit: 8,
            max_modules: 2,
            wake_latency_us: 0,
        },
    )
    .unwrap();

    assert_eq!(decision.disabled_count, 1);
    assert_eq!(decision.disabled[0], Some(ModuleId::App(1)));
    assert_eq!(decision.reason, Some(DegradeReason::ModuleLimit));
}

#[test]
fn planner_rejects_more_modules_than_capacity_and_breaks_ties_by_flash() {
    let modules = [
        module(ModuleId::Kernel, Criticality::HardRealtime, 10, 1),
        module(ModuleId::App(1), Criticality::User, 10, 1),
    ];
    assert_eq!(
        DegradePlanner::fit::<1>(&modules, SystemProfile::new(100, 100, 8, 4)),
        Err(DegradeError::TooManyModules)
    );

    let tied = [
        module(ModuleId::App(1), Criticality::User, 10, 1),
        module(ModuleId::App(2), Criticality::User, 30, 1),
        module(ModuleId::App(3), Criticality::User, 30, 1),
    ];
    let decision = DegradePlanner::fit::<4>(&tied, SystemProfile::new(15, 100, 8, 4)).unwrap();
    // Largest flash first; the earlier of two equal candidates goes first.
    assert_eq!(decision.disabled_count, 2);
    assert_eq!(decision.disabled[0], Some(ModuleId::App(2)));
    assert_eq!(decision.disabled[1], Some(ModuleId::App(3)));
    assert_eq!(decision.budget.flash_bytes, 10);
    assert!(!decision.enabled[3]);

    let fits = DegradePlanner::fit::<3>(&tied, SystemProfile::new(1_000, 100, 8, 4)).unwrap();
    assert_eq!(fits.disabled_count, 0);
    assert_eq!(fits.reason, None);
}
