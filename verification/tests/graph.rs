use nobro_kernel::{
    build_core_into, AppGraph, BuiltGraph, Capability, ChannelDecl, DeadlineContract,
    GraphError, GraphReactorError, GraphSpec, MemoryBudget, ModuleId, ReactorAdmissionError,
    ReactorChannelContract, ReactorDomainContract, ReactorTaskBinding, StartupNode,
    SystemManifest, SystemProfile, TaskDecl,
};

fn core_profile() -> SystemProfile {
    SystemProfile::new(1024 * 1024, 256 * 1024, 64, 16)
}

fn demo_graph() -> AppGraph<4> {
    AppGraph::<4>::new()
        .task(TaskDecl::control("motor", 20_000))
        .unwrap()
        .task(TaskDecl::periodic("imu", 100_000).after("motor"))
        .unwrap()
        .task(TaskDecl::service("telemetry", 500_000).after("imu"))
        .unwrap()
        .channel("imu", "motor")
        .unwrap()
}

fn demo_tasks() -> [TaskDecl; 3] {
    [
        TaskDecl::control("motor", 20_000),
        TaskDecl::periodic("imu", 100_000).after("motor"),
        TaskDecl::service("telemetry", 500_000).after("imu"),
    ]
}

#[test]
fn one_declaration_derives_manifest_startup_tasks_and_labels() {
    let built = demo_graph().build::<4>().unwrap();
    assert_eq!(built.manifest.len(), 4);
    assert_eq!(built.startup_len, 4);
    assert_eq!(built.task_len, 3);

    let motor = built.module_of("motor").unwrap();
    assert_eq!(motor, ModuleId::App(0));
    assert_eq!(built.label_of(motor), Some("motor"));

    let specs = built.manifest.specs();
    let imu = built.module_of("imu").unwrap();
    let imu_spec = specs.iter().find(|spec| spec.id == imu).unwrap();
    assert!(imu_spec.required.contains(Capability::Mailbox));
    let kernel = specs.iter().find(|spec| spec.id == ModuleId::Kernel).unwrap();
    assert!(kernel.owns.contains(Capability::Mailbox));

    let motor_spec = specs.iter().find(|spec| spec.id == motor).unwrap();
    let deadline = motor_spec.deadline.unwrap();
    assert_eq!(deadline.max_jitter_us, 100);
    assert_eq!(deadline.execution_budget_us, 2_000);
    assert!(built.manifest.validate_profile(core_profile()).is_ok());
}

#[test]
fn compact_startup_core_matches_the_full_built_graph() {
    let tasks = demo_tasks();
    let channels = [ChannelDecl::new("imu", "motor")];
    let graph = GraphSpec::new(&tasks, &channels);
    let mut full = BuiltGraph::<4, 3>::empty();
    graph.build_for_into::<4, 3>(core_profile(), &mut full).unwrap();

    let mut manifest = SystemManifest::<4>::new();
    let mut startup = [StartupNode::empty(); 4];
    let startup_len = build_core_into::<3, 4>(
        graph.task_decls(),
        graph.channel_decls(),
        MemoryBudget::new(8 * 1024, 2 * 1024, 1),
        DeadlineContract::new(20_000, 100),
        &mut manifest,
        &mut startup,
    )
    .unwrap();
    manifest.validate_profile(core_profile()).unwrap();

    assert_eq!(startup_len, full.startup_len);
    assert_eq!(startup[..startup_len].to_vec(), full.startup_nodes());
    assert_eq!(manifest.len(), full.manifest.len());
    for (compact, retained) in manifest.specs().iter().zip(full.manifest.specs().iter()) {
        assert_eq!(compact, retained);
    }
}

#[test]
fn in_place_build_matches_by_value_graph() {
    let graph = demo_graph();
    let by_value = graph.build_for::<4>(core_profile()).unwrap();
    let mut in_place = BuiltGraph::<4, 4>::empty();
    graph.build_for_into::<4>(core_profile(), &mut in_place).unwrap();

    assert_eq!(in_place.manifest.len(), by_value.manifest.len());
    assert_eq!(in_place.startup_nodes(), by_value.startup_nodes());
    assert_eq!(in_place.tasks, by_value.tasks);
    assert_eq!(in_place.task_len, by_value.task_len);
    for label in ["motor", "imu", "telemetry"] {
        assert_eq!(in_place.module_of(label), by_value.module_of(label));
    }
}

#[test]
fn const_graph_spec_matches_the_builder_without_builder_storage() {
    let tasks = demo_tasks();
    let channels = [ChannelDecl::new("motor", "imu"), ChannelDecl::new("imu", "telemetry")];

    let by_value = AppGraph::<3>::new()
        .task(tasks[0])
        .unwrap()
        .task(tasks[1])
        .unwrap()
        .task(tasks[2])
        .unwrap()
        .channel("motor", "imu")
        .unwrap()
        .channel("imu", "telemetry")
        .unwrap()
        .build_for::<4>(core_profile())
        .unwrap();
    let mut borrowed = BuiltGraph::<4, 3>::empty();
    GraphSpec::new(&tasks, &channels)
        .build_for_into::<4, 3>(core_profile(), &mut borrowed)
        .unwrap();

    assert_eq!(borrowed.startup_nodes(), by_value.startup_nodes());
    assert_eq!(borrowed.tasks, by_value.tasks);
    assert_eq!(borrowed.manifest.specs(), by_value.manifest.specs());
    for label in ["motor", "imu", "telemetry"] {
        assert_eq!(borrowed.module_of(label), by_value.module_of(label));
    }
}

#[test]
fn const_graph_spec_rejects_duplicate_names_and_unknown_channels() {
    let duplicate = [TaskDecl::periodic("imu", 10_000), TaskDecl::periodic("imu", 20_000)];
    let unknown = [ChannelDecl::new("imu", "ghost")];

    let mut duplicate_slot = BuiltGraph::<3, 2>::empty();
    let result = GraphSpec::new(&duplicate, &[]).build_into::<3, 2>(&mut duplicate_slot).err();
    assert_eq!(result, Some(GraphError::DuplicateName("imu")));

    let mut unknown_slot = BuiltGraph::<2, 1>::empty();
    let result = GraphSpec::new(&duplicate[..1], &unknown).build_into::<2, 1>(&mut unknown_slot).err();
    assert_eq!(result, Some(GraphError::ChannelEndpointUnknown { endpoint: "ghost" }));
}

#[test]
fn every_bad_graph_fails_with_one_attributed_diagnostic() {
    let err = AppGraph::<4>::new()
        .task(TaskDecl::periodic("imu", 1000))
        .unwrap()
        .task(TaskDecl::periodic("imu", 2000))
        .err()
        .unwrap();
    assert_eq!(err, GraphError::DuplicateName("imu"));

    let err = AppGraph::<4>::new()
        .task(TaskDecl::periodic("imu", 1000).after("ghost"))
        .unwrap()
        .build::<4>()
        .err()
        .unwrap();
    assert_eq!(err, GraphError::UnknownDependency { task: "imu", depends_on: "ghost" });

    let err = AppGraph::<4>::new()
        .task(TaskDecl::periodic("a", 1000).after("b"))
        .unwrap()
        .task(TaskDecl::periodic("b", 1000).after("a"))
        .unwrap()
        .build::<4>()
        .err()
        .unwrap();
    assert!(matches!(err, GraphError::Cycle { task: "a" | "b" }));

    let err = AppGraph::<1>::new()
        .task(TaskDecl::periodic("a", 1000))
        .unwrap()
        .task(TaskDecl::periodic("b", 1000))
        .err()
        .unwrap();
    assert_eq!(err, GraphError::TooManyTasks { capacity: 1 });

    let err = AppGraph::<4>::new()
        .task(TaskDecl::periodic("x", 1000).role(ModuleId::Sensor))
        .unwrap()
        .task(TaskDecl::periodic("y", 1000).role(ModuleId::Sensor))
        .unwrap()
        .build::<4>()
        .err()
        .unwrap();
    assert_eq!(err, GraphError::DuplicateRole { task: "y" });

    let err = AppGraph::<4>::new()
        .task(TaskDecl::periodic("hog", 1000).budget_us(999))
        .unwrap()
        .task(TaskDecl::periodic("hog2", 1000).budget_us(999))
        .unwrap()
        .build_for::<4>(core_profile())
        .err()
        .unwrap();
    assert!(matches!(err, GraphError::Manifest { .. }));

    let err = AppGraph::<4>::new()
        .task(TaskDecl::periodic("imu", 1000))
        .unwrap()
        .channel("imu", "ghost")
        .err()
        .unwrap();
    assert_eq!(err, GraphError::ChannelEndpointUnknown { endpoint: "ghost" });
}

#[test]
fn services_have_no_deadline_and_roles_are_optional_labels() {
    let built = AppGraph::<4>::new()
        .task(TaskDecl::service("logger", 1_000_000))
        .unwrap()
        .task(TaskDecl::periodic("bus", 10_000).role(ModuleId::Bus))
        .unwrap()
        .build::<4>()
        .unwrap();
    let logger = built.module_of("logger").unwrap();
    let specs = built.manifest.specs();
    let spec = specs.iter().find(|spec| spec.id == logger).unwrap();
    assert!(spec.deadline.is_none());
    assert_eq!(built.module_of("bus"), Some(ModuleId::Bus));
    assert_eq!(built.label_of(ModuleId::Bus), Some("bus"));
}

#[test]
fn blocking_override_is_attributed_to_task_label() {
    let err = AppGraph::<1>::new()
        .task(TaskDecl::control("motor", 1000).budget_us(600).blocking_us(401))
        .unwrap()
        .build_for::<2>(core_profile())
        .err()
        .unwrap();
    assert_eq!(
        err,
        GraphError::InvalidBlocking { task: "motor", budget_us: 600, blocking_us: 401, period_us: 1000 }
    );
}

#[test]
fn blocking_bound_reaches_the_shared_admission_contract() {
    let graph = AppGraph::<1>::new()
        .task(TaskDecl::control("motor", 5_000).budget_us(400).blocking_us(75))
        .unwrap();
    let built = graph.build_for::<2>(core_profile()).unwrap();
    let motor = built.module_of("motor").unwrap();
    let specs = built.manifest.specs();
    let deadline = specs.iter().find(|spec| spec.id == motor).unwrap().deadline.unwrap();
    assert_eq!(deadline.blocking_us, 75);
}

#[test]
fn phase_period_deadline_are_declared_once_and_reach_both_kernel_inputs() {
    let graph = AppGraph::<1>::new()
        .task(TaskDecl::control("motor", 5_000).phase_us(1_000).deadline_us(4_000).budget_us(400))
        .unwrap();
    let built = graph.build_for::<2>(core_profile()).unwrap();
    let specs = built.manifest.specs();
    let contract = specs.iter().find(|spec| spec.id == ModuleId::App(0)).unwrap().deadline.unwrap();
    assert_eq!((contract.phase_us, contract.period_us, contract.deadline_us), (1_000, 5_000, 4_000));
    let task = built.tasks[0].unwrap();
    assert_eq!((task.phase_us, task.period_us, task.deadline_us), (1_000, 5_000, 4_000));
}

#[test]
fn reactor_domains_are_linked_to_admitted_graph_tasks() {
    let built = AppGraph::<2>::new()
        .task(TaskDecl::control("control-reactor", 5_000).reactor_domain(0))
        .unwrap()
        .task(TaskDecl::service("telemetry-reactor", 100_000).reactor_domain(1).after("control-reactor"))
        .unwrap()
        .channel("control-reactor", "telemetry-reactor")
        .unwrap()
        .build::<3>()
        .unwrap();

    assert_eq!(built.reactor_domain_of("control-reactor"), Some(0));
    let admitted = built
        .admit_reactor_domains::<2, 1>(
            [
                Some(ReactorDomainContract::new(0, 0).task_slots(4)),
                Some(ReactorDomainContract::new(1, 3).task_slots(2)),
            ],
            [Some(ReactorChannelContract::new(0, 1, 4).waiter_slots(4))],
        )
        .unwrap();

    assert_eq!(admitted.binding_len, 2);
    assert_eq!(admitted.reactor.cross_domain_len, 1);
    assert_eq!(
        admitted.bindings[0],
        Some(ReactorTaskBinding { task: "control-reactor", module: ModuleId::App(0), domain: 0 })
    );
}

#[test]
fn reactor_domain_linkage_rejects_missing_unknown_and_duplicate_drivers() {
    let missing = AppGraph::<1>::new()
        .task(TaskDecl::control("control-reactor", 5_000).reactor_domain(0))
        .unwrap()
        .build::<2>()
        .unwrap()
        .admit_reactor_domains::<2, 0>(
            [Some(ReactorDomainContract::new(0, 0)), Some(ReactorDomainContract::new(1, 1))],
            [],
        )
        .unwrap_err();
    assert_eq!(missing, GraphReactorError::MissingDomainDriver { domain: 1 });

    let unknown = AppGraph::<1>::new()
        .task(TaskDecl::control("control-reactor", 5_000).reactor_domain(7))
        .unwrap()
        .build::<2>()
        .unwrap()
        .admit_reactor_domains::<1, 0>([Some(ReactorDomainContract::new(0, 0))], [])
        .unwrap_err();
    assert_eq!(unknown, GraphReactorError::UnknownDomain { task: "control-reactor", domain: 7 });

    let duplicate = AppGraph::<2>::new()
        .task(TaskDecl::control("control-reactor", 5_000).reactor_domain(0))
        .unwrap()
        .task(TaskDecl::service("telemetry-reactor", 100_000).reactor_domain(0))
        .unwrap()
        .build::<3>()
        .unwrap()
        .admit_reactor_domains::<1, 0>([Some(ReactorDomainContract::new(0, 0))], [])
        .unwrap_err();
    assert_eq!(
        duplicate,
        GraphReactorError::DuplicateDomainDriver {
            domain: 0,
            first_task: "control-reactor",
            duplicate_task: "telemetry-reactor",
        }
    );

    let invalid_contract = AppGraph::<1>::new()
        .task(TaskDecl::control("control-reactor", 5_000).reactor_domain(0))
        .unwrap()
        .build::<2>()
        .unwrap()
        .admit_reactor_domains::<0, 0>([], [])
        .unwrap_err();
    assert_eq!(
        invalid_contract,
        GraphReactorError::ReactorAdmission(ReactorAdmissionError::EmptyDomains)
    );
}

struct Rng(u64);

impl Rng {
    fn next(&mut self) -> u64 {
        let mut x = self.0;
        x ^= x << 13;
        x ^= x >> 7;
        x ^= x << 17;
        self.0 = x;
        x
    }

    fn below(&mut self, n: u8) -> u8 {
        (self.next() % u64::from(n)) as u8
    }
}

#[test]
fn reactor_domain_linkage_fuzz_matches_shadow_model() {
    let cases: u64 = 1024;
    let names = ["reactor-a", "reactor-b", "reactor-c", "reactor-d"];

    for seed in 1..=cases {
        let mut rng = Rng(seed.wrapping_mul(0x9E37_79B9_7F4A_7C15));
        let task_count = usize::from(rng.below(4) + 1);
        let mut graph = AppGraph::<4>::new();
        let mut binding_domains: [Option<u8>; 4] = [None; 4];

        for index in 0..task_count {
            let mut decl = if rng.below(2) == 0 {
                TaskDecl::control(names[index], 5_000 + u32::from(rng.below(8)) * 1_000)
            } else {
                TaskDecl::service(names[index], 50_000 + u32::from(rng.below(8)) * 10_000)
            };
            if rng.below(4) != 0 {
                let domain = rng.below(5);
                binding_domains[index] = Some(domain);
                decl = decl.reactor_domain(domain);
            }
            graph = graph.task(decl).unwrap();
        }

        let built = graph.build::<5>().unwrap();
        let mut domain_present = [false; 4];
        let mut domains = [None; 4];
        for id in 0..4 {
            if rng.below(2) == 0 {
                domain_present[id] = true;
                domains[id] = Some(
                    ReactorDomainContract::new(id as u8, id as u8)
                        .task_slots(rng.below(31) + 1)
                        .fuel_per_cycle(u32::from(rng.below(8)) + 1),
                );
            }
        }

        let result = built.admit_reactor_domains::<4, 0>(domains, []);
        let any_domain = domain_present.iter().any(|present| *present);
        let first_unknown = binding_domains[..task_count].iter().enumerate().find_map(|(index, domain)| {
            let domain = (*domain)?;
            let known = domain_present.get(usize::from(domain)).copied().unwrap_or(false);
            if known {
                None
            } else {
                Some((names[index], domain))
            }
        });
        let duplicate = binding_domains[..task_count].iter().enumerate().find_map(|(index, domain)| {
            let domain = (*domain)?;
            binding_domains[..index].iter().enumerate().find_map(|(previous_index, previous)| {
                if *previous == Some(domain) {
                    Some((domain, names[previous_index], names[index]))
                } else {
                    None
                }
            })
        });
        let missing = domain_present.iter().enumerate().find_map(|(domain, present)| {
            if !*present {
                return None;
            }
            let driven = binding_domains[..task_count].contains(&Some(domain as u8));
            if driven {
                None
            } else {
                Some(domain as u8)
            }
        });

        match (any_domain, first_unknown, duplicate, missing) {
            (false, _, _, _) => assert_eq!(
                result.unwrap_err(),
                GraphReactorError::ReactorAdmission(ReactorAdmissionError::EmptyDomains),
                "seed {seed}"
            ),
            (true, Some((task, domain)), _, _) => assert_eq!(
                result.unwrap_err(),
                GraphReactorError::UnknownDomain { task, domain },
                "seed {seed}"
            ),
            (true, None, Some((domain, first_task, duplicate_task)), _) => assert_eq!(
                result.unwrap_err(),
                GraphReactorError::DuplicateDomainDriver { domain, first_task, duplicate_task },
                "seed {seed}"
            ),
            (true, None, None, Some(domain)) => assert_eq!(
                result.unwrap_err(),
                GraphReactorError::MissingDomainDriver { domain },
                "seed {seed}"
            ),
            (true, None, None, None) => {
                let admitted = result.unwrap();
                assert_eq!(
                    admitted.binding_len,
                    binding_domains[..task_count].iter().filter(|domain| domain.is_some()).count(),
                    "seed {seed}"
                );
            }
        }
    }
}

#[test]
fn shortest_period_defaults_remain_self_consistent() {
    let decl = TaskDecl::periodic("fast", 1);
    assert_eq!(decl.max_jitter_us, 0);
    assert_eq!(decl.execution_budget_us, 1);
    assert!(AppGraph::<1>::new().task(decl).unwrap().build_for::<2>(core_profile()).is_ok());
    let control = TaskDecl::control("fast-control", 1);
    assert_eq!(control.max_jitter_us, 0);
    assert_eq!(control.execution_budget_us, 1);
}

#[test]
fn dependency_overflow_is_reported_for_the_task() {
    let decl = TaskDecl::periodic("busy", 1000)
        .after("a")
        .after("b")
        .after("c")
        .after("d")
        .after("e");
    let err = AppGraph::<2>::new().task(decl).err().unwrap();
    assert_eq!(err, GraphError::TooManyDependencies { task: "busy" });
}

#[test]
fn startup_nodes_wait_on_the_kernel_and_named_dependencies() {
    let built = demo_graph().build::<4>().unwrap();
    let nodes = built.startup_nodes();
    assert_eq!(nodes[0].module, ModuleId::Kernel);
    assert!(nodes[0].depends_on.is_empty());
    assert!(nodes[2].depends_on.contains(0));
    assert!(nodes[2].depends_on.contains(1));
    assert!(!nodes[2].depends_on.contains(3));
    assert_eq!(nodes[3].module, ModuleId::App(2));
    assert!(nodes[3].depends_on.contains(2));
}
