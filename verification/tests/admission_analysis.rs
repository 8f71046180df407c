use nobro_kernel::{
    AdmissionAnalysis, AppGraph, Capability, CapabilitySet, Criticality, DeadlineContract, GraphError,
    MemoryBudget, ModuleId, ModuleSpec, ShedError, SystemManifest, SystemProfile, TaskDecl,
};

fn periodic(id: ModuleId, criticality: Criticality, period: u32, budget: u32, flash: u32, ram: u32) -> ModuleSpec {
    ModuleSpec::new(id, criticality)
        .memory(MemoryBudget::new(flash, ram, 0))
        .deadline(DeadlineContract::new(period, period / 100).execution_budget(budget))
}

fn service(id: ModuleId, flash: u32, ram: u32) -> ModuleSpec {
    ModuleSpec::new(id, Criticality::BestEffort).memory(MemoryBudget::new(flash, ram, 0))
}

fn robotics() -> SystemManifest<8> {
    SystemManifest::<8>::from_specs(&[
        ModuleSpec::new(ModuleId::Kernel, Criticality::HardRealtime)
            .memory(MemoryBudget::new(12 * 1024, 3 * 1024, 2))
            .deadline(DeadlineContract::new(20_000, 100)),
        periodic(ModuleId::App(0), Criticality::HardRealtime, 5_000, 400, 2 * 1024, 512),
        periodic(ModuleId::App(1), Criticality::System, 10_000, 300, 2 * 1024, 512),
        periodic(ModuleId::App(2), Criticality::Driver, 20_000, 800, 4 * 1024, 512),
        service(ModuleId::App(3), 4 * 1024, 1024),
        service(ModuleId::App(4), 8 * 1024, 2 * 1024),
        service(ModuleId::App(5), 4 * 1024, 512),
    ])
    .unwrap()
}

#[test]
fn every_module_is_priced_and_a_roomy_profile_is_schedulable() {
    let profile = SystemProfile::new(128 * 1024, 64 * 1024, 8, 16);
    let analysis = AdmissionAnalysis::<8>::analyze(&robotics(), profile);
    assert_eq!(analysis.costs().len(), 7);
    assert_eq!(analysis.cost_of(ModuleId::App(0)).unwrap().utilization_permyriad, 800);
    assert_eq!(analysis.total_utilization_permyriad(), 800 + 300 + 400);
    assert!(analysis.schedulable());
    let (flash_free, ram_free, util_free) = analysis.headroom();
    assert_eq!(flash_free, 128 * 1024 - 36 * 1024);
    assert_eq!(ram_free, 64 * 1024 - 8 * 1024);
    assert_eq!(util_free, 10_000 - 1_500);
    assert_eq!(analysis.shed_plan::<4>().unwrap().shed_len, 0);
}

#[test]
fn overload_sheds_best_effort_first_and_never_critical_work() {
    let profile = SystemProfile::new(128 * 1024, 5 * 1024, 8, 16);
    let analysis = AdmissionAnalysis::<8>::analyze(&robotics(), profile);
    assert!(!analysis.schedulable());
    let plan = analysis.shed_plan::<8>().unwrap();
    // Best effort, equal (zero) utilization: the larger RAM consumer first.
    assert_eq!(plan.shed_modules(), vec![ModuleId::App(4), ModuleId::App(3)]);
    assert_eq!(plan.freed_ram, 3 * 1024);
    for module in plan.shed_modules() {
        assert_ne!(module, ModuleId::Kernel);
        assert!(analysis.cost_of(module).unwrap().criticality < Criticality::System);
    }
}

#[test]
fn shed_plan_reports_infeasible_and_output_full() {
    let tiny = SystemProfile::new(4 * 1024, 1024, 1, 16);
    let analysis = AdmissionAnalysis::<8>::analyze(&robotics(), tiny);
    assert_eq!(analysis.shed_plan::<8>(), Err(ShedError::Infeasible));

    let tight = SystemProfile::new(128 * 1024, 5 * 1024, 8, 16);
    let analysis = AdmissionAnalysis::<8>::analyze(&robotics(), tight);
    assert_eq!(analysis.shed_plan::<1>(), Err(ShedError::OutputFull));
}

#[test]
fn utilization_over_the_bound_is_unschedulable() {
    let mut specs = Vec::new();
    for n in 0..11u8 {
        specs.push(periodic(ModuleId::App(n), Criticality::Driver, 10_000, 1_000, 512, 128));
    }
    let profile = SystemProfile::new(256 * 1024, 128 * 1024, 8, 16);
    let five = SystemManifest::<12>::from_specs(&specs[..5]).unwrap();
    assert_eq!(AdmissionAnalysis::<12>::analyze(&five, profile).total_utilization_permyriad(), 5_000);
    let eleven = SystemManifest::<12>::from_specs(&specs).unwrap();
    let analysis = AdmissionAnalysis::<12>::analyze(&eleven, profile);
    assert_eq!(analysis.total_utilization_permyriad(), 11_000);
    assert!(!analysis.schedulable());
    // Driver tasks are sheddable: one 10% task restores the bound.
    let plan = analysis.shed_plan::<2>().unwrap();
    assert_eq!(plan.shed_len, 1);
    assert_eq!(plan.freed_util_permyriad, 1_000);
    assert_eq!(analysis.used().ram_bytes, 11 * 128);
    assert_eq!(analysis.limit().ram_bytes, 128 * 1024);
}

/// A representative robotics workload built through the graph API: sensing,
/// control, an audio pipeline, a camera/AI sidecar, storage, radio, OTA and
/// diagnostics.
fn robotics_graph() -> AppGraph<10> {
    AppGraph::<10>::new()
        .kernel(MemoryBudget::new(12 * 1024, 3 * 1024, 2), DeadlineContract::new(20_000, 100))
        .task(TaskDecl::control("motor", 5_000).memory(MemoryBudget::new(2 * 1024, 512, 0)).budget_us(400))
        .unwrap()
        .task(
            TaskDecl::periodic("imu", 10_000)
                .criticality(Criticality::System)
                .memory(MemoryBudget::new(2 * 1024, 512, 1))
                .budget_us(300),
        )
        .unwrap()
        .task(TaskDecl::periodic("radio", 20_000).memory(MemoryBudget::new(4 * 1024, 512, 0)).budget_us(800))
        .unwrap()
        .task(TaskDecl::periodic("storage", 50_000).memory(MemoryBudget::new(3 * 1024, 512, 0)).budget_us(1_000))
        .unwrap()
        .task(TaskDecl::service("audio", 30_000).memory(MemoryBudget::new(4 * 1024, 1024, 0)))
        .unwrap()
        .task(
            TaskDecl::service("camera_ai", 40_000)
                .memory(MemoryBudget::new(8 * 1024, 2 * 1024, 0))
                .require(CapabilitySet::empty().with(Capability::AiInference))
                .owns(CapabilitySet::empty().with(Capability::AiInference)),
        )
        .unwrap()
        .task(TaskDecl::service("ota", 100_000).memory(MemoryBudget::new(4 * 1024, 512, 0)))
        .unwrap()
        .task(TaskDecl::service("diagnostics", 200_000).memory(MemoryBudget::new(2 * 1024, 256, 0)))
        .unwrap()
}

#[test]
fn complex_workload_builds_and_prices_every_task() {
    let profile = SystemProfile::new(128 * 1024, 64 * 1024, 8, 16);
    let built = robotics_graph().build_for::<10>(profile).unwrap();
    let analysis = AdmissionAnalysis::<10>::analyze(&built.manifest, profile);
    assert_eq!(analysis.costs().len(), 9);
    let motor = built.module_of("motor").unwrap();
    assert_eq!(analysis.cost_of(motor).unwrap().utilization_permyriad, 800);
    assert!(analysis.schedulable());
    let (flash_free, ram_free, util_free) = analysis.headroom();
    assert!(flash_free > 0 && ram_free > 0 && util_free > 0);
}

#[test]
fn overloaded_set_sheds_best_effort_first_never_critical() {
    let profile = SystemProfile::new(128 * 1024, 8 * 1024, 8, 16);
    let built = robotics_graph().build::<10>().unwrap();
    let analysis = AdmissionAnalysis::<10>::analyze(&built.manifest, profile);
    assert!(!analysis.schedulable(), "should be over the RAM budget");

    let plan = analysis.shed_plan::<8>().unwrap();
    assert!(plan.shed_len > 0);

    let motor = built.module_of("motor").unwrap();
    let imu = built.module_of("imu").unwrap();
    for module in plan.shed_modules() {
        assert_ne!(module, ModuleId::Kernel);
        assert_ne!(module, motor);
        assert_ne!(module, imu);
        let criticality = analysis.cost_of(module).unwrap().criticality;
        assert!(criticality < Criticality::System);
    }

    let camera = built.module_of("camera_ai").unwrap();
    assert_eq!(plan.shed.first().copied().flatten(), Some(camera));
    assert!(plan.freed_ram >= 2 * 1024);
}

#[test]
fn shed_plan_reports_infeasible_when_critical_core_alone_overflows() {
    let profile = SystemProfile::new(4 * 1024, 1024, 1, 16);
    let built = robotics_graph().build::<10>().unwrap();
    let analysis = AdmissionAnalysis::<10>::analyze(&built.manifest, profile);
    assert_eq!(analysis.shed_plan::<8>(), Err(ShedError::Infeasible));
}

const TASK_NAMES: [&str; 11] = ["t0", "t1", "t2", "t3", "t4", "t5", "t6", "t7", "t8", "t9", "t10"];

/// `count` identical tasks, each using 10% of the processor.
fn build_n(count: usize) -> Result<AppGraph<12>, GraphError> {
    let mut graph = Some(AppGraph::<12>::new());
    for name in TASK_NAMES.iter().take(count) {
        let current = graph.take().unwrap();
        graph = Some(current.task(
            TaskDecl::periodic(*name, 10_000).memory(MemoryBudget::new(512, 128, 0)).budget_us(1_000),
        )?);
    }
    Ok(graph.unwrap())
}

#[test]
fn utilization_scales_linearly_and_admission_rejects_the_overload() {
    let profile = SystemProfile::new(256 * 1024, 128 * 1024, 8, 16);
    let util_at = |count: usize| -> u64 {
        let built = build_n(count).unwrap().build::<12>().unwrap();
        AdmissionAnalysis::<12>::analyze(&built.manifest, profile).total_utilization_permyriad()
    };
    assert_eq!(util_at(5), 5_000);
    assert_eq!(util_at(9), 9_000);
    assert!(build_n(11).unwrap().build_for::<12>(profile).is_err());
}

#[test]
fn manifest_from_specs_refuses_the_first_repeat_or_overflow() {
    let a = service(ModuleId::App(1), 1, 1);
    let b = service(ModuleId::App(2), 1, 1);
    assert!(matches!(SystemManifest::<4>::from_specs(&[a, b, a]), Err(nobro_kernel::ManifestError::DuplicateModule(ModuleId::App(1)))));
    assert!(matches!(SystemManifest::<1>::from_specs(&[a, b, a]), Err(nobro_kernel::ManifestError::TooManyModules)));
    assert_eq!(SystemManifest::<2>::from_specs(&[a, b]).unwrap().len(), 2);
}
