use nobro_kernel::{
    kernel_owned_capabilities, Capability, CapabilityGrantError, CapabilityGrantTable,
    CapabilityReplayScope, CapabilitySet, CapabilityTrace, CapabilityTraceError,
    CapabilityTraceInput, CapabilityTraceOp, CapabilityTraceRecord, Criticality,
    DeadlineContract, FaultThresholds, MemoryBudget, ModuleId, ModuleSpec, SystemManifest,
};

fn kernel_spec() -> ModuleSpec {
    ModuleSpec::new(ModuleId::Kernel, Criticality::HardRealtime)
        .owns(kernel_owned_capabilities())
        .memory(MemoryBudget::new(16 * 1024, 4 * 1024, 4))
        .deadline(DeadlineContract::new(20_000, 10))
        .fault_thresholds(FaultThresholds {
            notify_after: 2,
            reboot_after: 4,
        })
}

fn sensor_spec() -> ModuleSpec {
    ModuleSpec::new(ModuleId::Sensor, Criticality::Driver)
        .require(
            CapabilitySet::empty()
                .with(Capability::Bus0)
                .with(Capability::SamplePool),
        )
        .owns(CapabilitySet::empty().with(Capability::Bus0))
        .memory(MemoryBudget::new(8 * 1024, 2 * 1024, 2))
}

#[test]
fn capability_gated_multi_module_admission() {
    let mut table = CapabilityGrantTable::<2>::new();
    table
        .register(
            ModuleId::Sensor,
            CapabilitySet::empty().with(Capability::Bus0),
        )
        .unwrap();
    table
        .register(
            ModuleId::Radio,
            CapabilitySet::empty().with(Capability::Radio),
        )
        .unwrap();

    assert_eq!(table.authorize(ModuleId::Sensor, Capability::Bus0), Ok(()));
    assert!(table
        .authorize(ModuleId::Sensor, Capability::Radio)
        .is_err());
    assert_eq!(table.authorize(ModuleId::Radio, Capability::Radio), Ok(()));
    assert!(table.authorize(ModuleId::Radio, Capability::Bus0).is_err());
    assert_eq!(
        table.authorize(ModuleId::Actuator, Capability::Bus0),
        Err(CapabilityGrantError::Missing(ModuleId::Actuator))
    );
}

#[test]
fn grant_table_authorizes_declared_capabilities() {
    let manifest = SystemManifest::<2>::from_specs(&[kernel_spec(), sensor_spec()]).unwrap();
    let grants = CapabilityGrantTable::<2>::from_manifest(&manifest).unwrap();

    assert_eq!(grants.len(), 2);
    assert_eq!(grants.authorize(ModuleId::Sensor, Capability::Bus0), Ok(()));
    assert_eq!(
        grants.authorize(ModuleId::Sensor, Capability::SamplePool),
        Ok(())
    );
}

#[test]
fn grant_table_denies_undeclared_capability() {
    let manifest = SystemManifest::<2>::from_specs(&[kernel_spec(), sensor_spec()]).unwrap();
    let grants = CapabilityGrantTable::<2>::from_manifest(&manifest).unwrap();

    assert_eq!(
        grants.authorize(ModuleId::Sensor, Capability::Radio),
        Err(CapabilityGrantError::Denied {
            module: ModuleId::Sensor,
            capability: Capability::Radio,
        })
    );
}

#[test]
fn grant_table_reports_missing_module() {
    let grants = CapabilityGrantTable::<1>::new();

    assert_eq!(
        grants.authorize(ModuleId::App(4), Capability::HostReport),
        Err(CapabilityGrantError::Missing(ModuleId::App(4)))
    );
}

#[test]
fn grant_table_preserves_duplicate_errors() {
    let mut grants = CapabilityGrantTable::<2>::new();
    grants
        .register(ModuleId::Kernel, kernel_owned_capabilities())
        .unwrap();

    assert_eq!(
        grants.register(ModuleId::Kernel, CapabilitySet::empty()),
        Err(CapabilityGrantError::Duplicate(ModuleId::Kernel))
    );
}

#[test]
fn capability_trace_records_only_authorized_operations() {
    let mut grants = CapabilityGrantTable::<1>::new();
    grants
        .register(
            ModuleId::Sensor,
            CapabilitySet::empty().with(Capability::Bus0),
        )
        .unwrap();
    let mut trace = CapabilityTrace::<4>::new();

    let record = trace
        .record_authorized(
            &grants,
            CapabilityTraceInput::new(
                ModuleId::Sensor,
                Capability::Bus0,
                CapabilityTraceOp::Read,
                100,
            )
            .args(0x68, 6),
        )
        .unwrap();

    assert_eq!(record.seq, 0);
    assert_eq!(trace.len(), 1);
    assert_eq!(
        trace.record_authorized(
            &grants,
            CapabilityTraceInput::new(
                ModuleId::Sensor,
                Capability::Radio,
                CapabilityTraceOp::Invoke,
                120,
            ),
        ),
        Err(CapabilityTraceError::Unauthorized(
            CapabilityGrantError::Denied {
                module: ModuleId::Sensor,
                capability: Capability::Radio,
            }
        ))
    );
    assert_eq!(trace.len(), 1);
}

#[test]
fn capability_trace_replays_in_sequence_order() {
    let mut grants = CapabilityGrantTable::<2>::new();
    grants
        .register(
            ModuleId::Sensor,
            CapabilitySet::empty().with(Capability::Bus0),
        )
        .unwrap();
    grants
        .register(
            ModuleId::Radio,
            CapabilitySet::empty().with(Capability::Radio),
        )
        .unwrap();
    let mut trace = CapabilityTrace::<3>::new();

    for i in 0..5 {
        let (module, capability) = if i % 2 == 0 {
            (ModuleId::Sensor, Capability::Bus0)
        } else {
            (ModuleId::Radio, Capability::Radio)
        };
        trace
            .record_authorized(
                &grants,
                CapabilityTraceInput::new(
                    module,
                    capability,
                    CapabilityTraceOp::Invoke,
                    1_000 + u64::from(i),
                )
                .args(i, i + 10),
            )
            .unwrap();
    }

    let mut out = [CapabilityTraceRecord::empty(); 3];
    let copied = trace.copy_replay(CapabilityReplayScope::all(), &mut out);

    assert_eq!(copied, 3);
    assert_eq!(trace.dropped(), 2);
    assert_eq!(out[0].seq, 2);
    assert_eq!(out[1].seq, 3);
    assert_eq!(out[2].seq, 4);
}

#[test]
fn capability_trace_filters_replay_scope() {
    let mut grants = CapabilityGrantTable::<2>::new();
    grants
        .register(
            ModuleId::Sensor,
            CapabilitySet::empty()
                .with(Capability::Bus0)
                .with(Capability::SamplePool),
        )
        .unwrap();
    grants
        .register(
            ModuleId::Radio,
            CapabilitySet::empty().with(Capability::Radio),
        )
        .unwrap();
    let mut trace = CapabilityTrace::<4>::new();
    trace
        .record_authorized(
            &grants,
            CapabilityTraceInput::new(
                ModuleId::Sensor,
                Capability::Bus0,
                CapabilityTraceOp::Read,
                10,
            )
            .args(1, 2),
        )
        .unwrap();
    trace
        .record_authorized(
            &grants,
            CapabilityTraceInput::new(
                ModuleId::Sensor,
                Capability::SamplePool,
                CapabilityTraceOp::Write,
                20,
            )
            .args(3, 4),
        )
        .unwrap();
    trace
        .record_authorized(
            &grants,
            CapabilityTraceInput::new(
                ModuleId::Radio,
                Capability::Radio,
                CapabilityTraceOp::Invoke,
                30,
            )
            .args(5, 6),
        )
        .unwrap();

    let mut out = [CapabilityTraceRecord::empty(); 2];

    assert_eq!(
        trace.matching_count(CapabilityReplayScope::module(ModuleId::Sensor)),
        2
    );
    let copied = trace.copy_replay(
        CapabilityReplayScope::exact(ModuleId::Sensor, Capability::SamplePool),
        &mut out,
    );
    assert_eq!(copied, 1);
    assert_eq!(out[0].module, ModuleId::Sensor);
    assert_eq!(out[0].capability, Capability::SamplePool);
    assert_eq!(out[0].op, CapabilityTraceOp::Write);
}

#[test]
fn zero_capacity_capability_trace_keeps_drop_accounting() {
    let mut grants = CapabilityGrantTable::<1>::new();
    grants
        .register(
            ModuleId::Sensor,
            CapabilitySet::empty().with(Capability::Bus0),
        )
        .unwrap();
    let mut trace = CapabilityTrace::<0>::new();

    let record = trace
        .record_authorized(
            &grants,
            CapabilityTraceInput::new(
                ModuleId::Sensor,
                Capability::Bus0,
                CapabilityTraceOp::Read,
                1,
            )
            .args(2, 3)
            .result(4),
        )
        .unwrap();

    assert_eq!(record.seq, 0);
    assert_eq!(trace.len(), 0);
    assert_eq!(trace.dropped(), 1);
    assert_eq!(trace.next_sequence(), 1);
}

#[test]
fn full_grant_table_and_short_output_buffer_are_bounded() {
    let mut grants = CapabilityGrantTable::<1>::new();
    grants.register(ModuleId::Bus, CapabilitySet::empty().with(Capability::Bus1)).unwrap();
    assert_eq!(
        grants.register(ModuleId::Radio, CapabilitySet::empty()),
        Err(CapabilityGrantError::Full)
    );
    assert_eq!(grants.granted(ModuleId::Bus).map(|set| set.bits()), Some(1 << 1));
    assert_eq!(grants.granted(ModuleId::Radio), None);
    assert!(!grants.is_empty());

    let mut trace = CapabilityTrace::<4>::new();
    for at in 0..3u64 {
        trace
            .record_authorized(
                &grants,
                CapabilityTraceInput::new(ModuleId::Bus, Capability::Bus1, CapabilityTraceOp::Acquire, at),
            )
            .unwrap();
    }
    let mut out = [CapabilityTraceRecord::empty(); 2];
    assert_eq!(trace.copy_replay(CapabilityReplayScope::capability(Capability::Bus1), &mut out), 2);
    assert_eq!(out[1].at_us, 1);
    assert_eq!(trace.matching_count(CapabilityReplayScope::module(ModuleId::Radio)), 0);
    assert_eq!(CapabilityTraceOp::Fault.code(), 6);
    assert_eq!(trace.capacity(), 4);
    assert!(!trace.is_empty());
}

#[test]
fn grant_table_too_small_for_the_manifest_is_full() {
    let manifest = SystemManifest::<2>::from_specs(&[kernel_spec(), sensor_spec()]).unwrap();
    assert!(matches!(CapabilityGrantTable::<1>::from_manifest(&manifest), Err(CapabilityGrantError::Full)));
    assert!(CapabilityGrantTable::<2>::from_manifest(&manifest).is_ok());
}
