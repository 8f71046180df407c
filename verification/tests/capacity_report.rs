use nobro_kernel::{
    validate_config, CapacityCampaign, CapacitySourceSnapshot, StackGuardStatus, CAPACITY_FLAG_DECLARATION_MISMATCH,
    CAPACITY_FLAG_INCOMPLETE, CAPACITY_FLAG_RESOURCE_MISSING, CAPACITY_FLAG_SESSION_MISMATCH,
    CAPACITY_FLAG_UNEXPECTED_PATH, CapacityCampaignConfig, CapacityCampaignError, CapacityIdentity, CapacityRegistry,
    CapacityRegistryError, CapacityReport, CapacityResource, CapacityResourceKind, CapacityResourceRecord,
    ModuleId, CAPACITY_REPORT_FIXED_BYTES, CAPACITY_REPORT_MAGIC, CAPACITY_REPORT_VERSION,
    CAPACITY_RESOURCE_RECORD_BYTES,
};

#[test]
fn fixed_layout_has_no_hidden_padding() {
    assert_eq!(core::mem::size_of::<CapacityResourceRecord>(), CAPACITY_RESOURCE_RECORD_BYTES);
    assert_eq!(core::mem::size_of::<CapacityReport<0>>(), CAPACITY_REPORT_FIXED_BYTES);
    assert_eq!(
        core::mem::size_of::<CapacityReport<3>>(),
        CAPACITY_REPORT_FIXED_BYTES + 3 * CAPACITY_RESOURCE_RECORD_BYTES
    );
}

// ---------------------------------------------------------------- own tests

fn identity() -> CapacityIdentity {
    CapacityIdentity::new([0x11; 32], [0x22; 32], [0x33; 32])
}

fn config(session_id: u32) -> CapacityCampaignConfig {
    CapacityCampaignConfig {
        identity: identity(),
        session_id,
        margin_percent: 25,
        unseen_path_reserve_percent: 10,
        required_paths: 0b11,
        isr_paths: 0b10,
    }
}

#[test]
fn registry_rejects_ambiguous_or_weak_declarations() {
    let mut registry = CapacityRegistry::<2>::new();
    assert_eq!(
        registry.register(CapacityResource::mailbox([0; 32], 1, 1)),
        Err(CapacityRegistryError::ZeroIdentity)
    );
    assert_eq!(
        registry.register(CapacityResource::mailbox([1; 32], 0, 1)),
        Err(CapacityRegistryError::ZeroDeclaration)
    );
    assert_eq!(
        registry.register(CapacityResource::mailbox([1; 32], 1, 0)),
        Err(CapacityRegistryError::ZeroGranularity)
    );
    registry.register(CapacityResource::mailbox([1; 32], 1, 1)).unwrap();
    assert_eq!(
        registry.register(CapacityResource::mailbox([2; 32], 1, 1)),
        Err(CapacityRegistryError::DuplicateSource)
    );
    assert_eq!(
        registry.register(CapacityResource::sample_pool([1; 32], 8, 1)),
        Err(CapacityRegistryError::DuplicateResource)
    );
    registry
        .register(CapacityResource::stack([3; 32], ModuleId::Sensor, 128, 4))
        .unwrap();
    assert_eq!(
        registry.register(CapacityResource::stack([4; 32], ModuleId::Radio, 128, 4)),
        Err(CapacityRegistryError::Full)
    );
    assert_eq!(registry.len(), 2);
    let listed = registry.iter();
    assert_eq!(listed[1].kind(), CapacityResourceKind::StackBytes);
    assert_eq!(listed[1].declared(), 128);
    assert_eq!(listed[1].granularity(), 4);
    assert_eq!(listed[1].resource_id(), &[3; 32]);
}

#[test]
fn campaign_configuration_fails_closed() {
    assert_eq!(validate_config(config(1)), Ok(()));
    assert_eq!(validate_config(config(0)), Err(CapacityCampaignError::ZeroSession));
    let mut invalid = config(1);
    invalid.identity.build_id = [0; 32];
    assert_eq!(validate_config(invalid), Err(CapacityCampaignError::IdentityMissing));
    let mut invalid = config(1);
    invalid.margin_percent = 1_001;
    assert_eq!(validate_config(invalid), Err(CapacityCampaignError::InvalidMargin));
    let mut invalid = config(1);
    invalid.unseen_path_reserve_percent = 0;
    assert_eq!(validate_config(invalid), Err(CapacityCampaignError::InvalidReserve));
    let mut invalid = config(1);
    invalid.required_paths = 0;
    assert_eq!(validate_config(invalid), Err(CapacityCampaignError::NoRequiredPaths));
    let mut invalid = config(1);
    invalid.isr_paths = 0b100;
    assert_eq!(validate_config(invalid), Err(CapacityCampaignError::IsrPathNotRequired));
}

fn blank_report() -> CapacityReport<1> {
    CapacityReport {
        magic: CAPACITY_REPORT_MAGIC,
        version: CAPACITY_REPORT_VERSION,
        report_bytes: (CAPACITY_REPORT_FIXED_BYTES + CAPACITY_RESOURCE_RECORD_BYTES) as u32,
        completed: 1,
        flags: 0,
        session_id: 7,
        resource_count: 1,
        resource_capacity: 1,
        margin_percent: 25,
        unseen_path_reserve_percent: 10,
        coverage_finished: 1,
        workload_complete: 1,
        isr_paths_covered: 1,
        required_paths_lo: 3,
        required_paths_hi: 0,
        observed_paths_lo: 3,
        observed_paths_hi: 0,
        required_isr_paths_lo: 2,
        required_isr_paths_hi: 0,
        observed_isr_paths_lo: 2,
        observed_isr_paths_hi: 0,
        build_id: [0x11; 32],
        workload_id: [0x22; 32],
        declaration_id: [0x33; 32],
        resources: [CapacityResourceRecord::from_resource(CapacityResource::mailbox([1; 32], 2, 1))],
        checksum: 0,
    }
}

#[test]
fn report_checksum_covers_every_byte_before_it() {
    let mut report = blank_report();
    assert!(!report.verify_checksum());
    report.checksum = report.compute_checksum();
    assert!(report.verify_checksum());
    assert!(report.is_convertible());
    let bytes = report.to_bytes();
    assert_eq!(bytes.len(), CAPACITY_REPORT_FIXED_BYTES + CAPACITY_RESOURCE_RECORD_BYTES);
    assert_eq!(&bytes[0..4], &CAPACITY_REPORT_MAGIC.to_le_bytes());
    let mut hash = 0x811C_9DC5u32;
    for byte in &bytes[..bytes.len() - 4] {
        hash = (hash ^ u32::from(*byte)).wrapping_mul(0x0100_0193);
    }
    assert_eq!(hash, report.checksum);
    report.completed = 0;
    assert!(!report.verify_checksum());
    report.checksum = report.compute_checksum();
    assert!(report.verify_checksum());
    assert!(!report.is_convertible());
    report.resources[0].observed_peak = 2;
    assert!(!report.verify_checksum());
}

/// A sealed source that recorded `peak` and `failures` under `session_id`.
fn source(session_id: u32, peak: u32, failures: u32) -> CapacitySourceSnapshot {
    CapacitySourceSnapshot {
        session_id,
        sealed: true,
        activity_after_finish: false,
        observed_peak: peak,
        failures,
        saturated: false,
    }
}

const POOL_SLOTS: usize = 8;

#[test]
fn report_contains_real_stack_mailbox_and_pool_peaks() {
    let mut campaign = CapacityCampaign::start(config(7), true).unwrap();
    campaign.observe_path(0).unwrap();
    campaign.observe_isr_path(1).unwrap();
    campaign.finish(true).unwrap();

    let mut registry = CapacityRegistry::<3>::new();
    registry.register(CapacityResource::stack([1; 32], ModuleId::Sensor, 128, 8)).unwrap();
    registry.register(CapacityResource::mailbox([2; 32], 2, 1)).unwrap();
    registry.register(CapacityResource::sample_pool([3; 32], POOL_SLOTS as u32, 1)).unwrap();
    let stacks = [Some(StackGuardStatus { len: 128, used_bytes: 8, canary_intact: true }), None, None];

    let report = campaign.report(&registry, source(7, 2, 1), 2, source(7, POOL_SLOTS as u32, 1), POOL_SLOTS, &stacks);
    assert!(report.is_convertible());
    assert_eq!(report.workload_complete, 1);
    assert_eq!(report.isr_paths_covered, 1);
    assert_eq!(report.resources[0].observed_peak, 8);
    assert_eq!(report.resources[1].observed_peak, 2);
    assert_eq!(report.resources[1].failure_count, 1);
    assert_eq!(report.resources[1].dropped, 1);
    assert_eq!(report.resources[2].observed_peak, POOL_SLOTS as u32);
    assert_eq!(report.resources[2].failure_count, 1);
    assert_eq!(report.to_bytes().len(), CAPACITY_REPORT_FIXED_BYTES + 3 * CAPACITY_RESOURCE_RECORD_BYTES);
}

#[test]
fn session_mismatch_and_unexpected_path_fail_before_resource_collection() {
    let mut campaign = CapacityCampaign::start(config(10), true).unwrap();
    assert_eq!(campaign.observe_isr_path(0), Err(CapacityCampaignError::UndeclaredPath));
    campaign.finish(true).unwrap();
    let mut mailbox = source(10, 1, 0);
    mailbox.activity_after_finish = true;

    let mut registry = CapacityRegistry::<2>::new();
    registry.register(CapacityResource::stack([1; 32], ModuleId::Sensor, 128, 8)).unwrap();
    registry.register(CapacityResource::sample_pool([2; 32], POOL_SLOTS as u32, 1)).unwrap();
    let report = campaign.report(&registry, mailbox, 1, source(11, 0, 0), POOL_SLOTS, &[None, None]);
    assert!(report.verify_checksum());
    assert!(!report.is_convertible());
    assert_ne!(report.flags & CAPACITY_FLAG_UNEXPECTED_PATH, 0);
    assert_ne!(report.flags & CAPACITY_FLAG_SESSION_MISMATCH, 0);
    assert_ne!(report.flags & CAPACITY_FLAG_INCOMPLETE, 0);
    assert!(report.resources.iter().all(|record| *record == CapacityResourceRecord::zeroed()));
}

#[test]
fn missing_stack_resource_fails_after_a_valid_preflight() {
    let mut campaign = CapacityCampaign::start(config(12), true).unwrap();
    campaign.observe_path(0).unwrap();
    campaign.observe_isr_path(1).unwrap();
    campaign.finish(true).unwrap();

    let mut registry = CapacityRegistry::<1>::new();
    registry.register(CapacityResource::stack([1; 32], ModuleId::Sensor, 128, 8)).unwrap();
    let report = campaign.report(&registry, source(12, 0, 0), 1, source(12, 0, 0), POOL_SLOTS, &[None]);
    assert!(report.verify_checksum());
    assert!(!report.is_convertible());
    assert_ne!(report.flags & CAPACITY_FLAG_RESOURCE_MISSING, 0);
    assert_eq!(report.resources[0].resource_id, [1; 32]);
    assert_eq!(report.resources[0].observed_peak, 0);
}

#[test]
fn registry_and_campaign_reject_ambiguous_or_weak_declarations() {
    let mut registry = CapacityRegistry::<2>::new();
    assert_eq!(
        registry.register(CapacityResource::mailbox([0; 32], 1, 1)),
        Err(CapacityRegistryError::ZeroIdentity)
    );
    registry.register(CapacityResource::mailbox([1; 32], 1, 1)).unwrap();
    assert_eq!(
        registry.register(CapacityResource::mailbox([2; 32], 1, 1)),
        Err(CapacityRegistryError::DuplicateSource)
    );
    assert_eq!(
        registry.register(CapacityResource::sample_pool([1; 32], 8, 1)),
        Err(CapacityRegistryError::DuplicateResource)
    );

    let mut invalid = config(1);
    invalid.identity.build_id = [0; 32];
    assert!(matches!(CapacityCampaign::start(invalid, true), Err(CapacityCampaignError::IdentityMissing)));
    let mut invalid = config(1);
    invalid.isr_paths = 0b100;
    assert!(matches!(CapacityCampaign::start(invalid, true), Err(CapacityCampaignError::IsrPathNotRequired)));
}

#[test]
fn reset_requires_a_fresh_session_and_clears_evidence() {
    let mut campaign = CapacityCampaign::start(config(20), true).unwrap();
    assert_eq!(campaign.reset(20, true), Err(CapacityCampaignError::ReusedSession));
    campaign.reset(21, true).unwrap();
    assert_eq!(campaign.reset(20, true), Err(CapacityCampaignError::ReusedSession));
    campaign.observe_path(0).unwrap();
    campaign.observe_isr_path(1).unwrap();
    campaign.finish(true).unwrap();

    let mut registry = CapacityRegistry::<1>::new();
    registry.register(CapacityResource::mailbox([1; 32], 1, 1)).unwrap();
    let mut report = campaign.report(&registry, source(21, 1, 0), 1, source(21, 0, 0), POOL_SLOTS, &[None]);
    assert!(report.is_convertible());
    assert_eq!(report.session_id, 21);
    assert_eq!(report.resources[0].observed_peak, 1);
    report.resources[0].observed_peak ^= 1;
    assert!(!report.verify_checksum());
}

#[test]
fn campaign_start_never_overwrites_a_live_or_reused_global_session() {
    assert!(matches!(CapacityCampaign::start(config(51), false), Err(CapacityCampaignError::SessionStartRejected)));
    assert!(matches!(CapacityCampaign::start(config(0), false), Err(CapacityCampaignError::ZeroSession)));
    let mut campaign = CapacityCampaign::start(config(51), true).unwrap();
    assert_eq!(campaign.reset(52, false), Err(CapacityCampaignError::SessionStartRejected));
}

#[test]
fn premature_report_emits_zero_records_without_collecting_sources() {
    let campaign = CapacityCampaign::start(config(40), true).unwrap();
    let mut registry = CapacityRegistry::<2>::new();
    registry.register(CapacityResource::stack([1; 32], ModuleId::Sensor, 128, 8)).unwrap();
    registry.register(CapacityResource::mailbox([2; 32], 1, 1)).unwrap();
    let mut mailbox = source(40, 1, 0);
    mailbox.sealed = false;
    let stacks = [Some(StackGuardStatus { len: 128, used_bytes: 8, canary_intact: true }), None];
    let report = campaign.report(&registry, mailbox, 1, source(40, 0, 0), POOL_SLOTS, &stacks);
    assert!(report.verify_checksum());
    assert!(!report.is_convertible());
    assert_ne!(report.flags & CAPACITY_FLAG_INCOMPLETE, 0);
    assert_eq!(report.resources, [CapacityResourceRecord::zeroed(); 2]);
}

#[test]
fn finishing_twice_marks_the_campaign_incomplete() {
    let mut campaign = CapacityCampaign::start(config(30), true).unwrap();
    campaign.finish(true).unwrap();
    assert_eq!(campaign.finish(true), Err(CapacityCampaignError::CampaignFinished));
    assert_eq!(campaign.observe_path(0), Err(CapacityCampaignError::CampaignFinished));
    let mut registry = CapacityRegistry::<1>::new();
    registry.register(CapacityResource::mailbox([1; 32], 1, 1)).unwrap();
    let report = campaign.report(&registry, source(30, 0, 0), 1, source(30, 0, 0), POOL_SLOTS, &[None]);
    assert!(report.verify_checksum());
    assert!(!report.is_convertible());
    assert_ne!(report.flags & CAPACITY_FLAG_INCOMPLETE, 0);
    assert_eq!(report.resources, [CapacityResourceRecord::zeroed(); 1]);
}

#[test]
fn declared_capacity_mismatch_is_flagged_and_paths_past_63_are_refused() {
    let mut campaign = CapacityCampaign::start(config(60), true).unwrap();
    assert_eq!(campaign.observe_path(64), Err(CapacityCampaignError::InvalidPath));
    let mut campaign = CapacityCampaign::start(config(61), true).unwrap();
    campaign.observe_path(0).unwrap();
    campaign.finish(false).unwrap();
    let mut registry = CapacityRegistry::<1>::new();
    registry.register(CapacityResource::mailbox([1; 32], 4, 1)).unwrap();
    let report = campaign.report(&registry, source(61, 1, 0), 2, source(61, 0, 0), POOL_SLOTS, &[None]);
    assert_ne!(report.flags & CAPACITY_FLAG_SESSION_MISMATCH, 0, "unsealed sources are a mismatch");
    assert_eq!(report.workload_complete, 0, "path 1 was never observed");

    let mut campaign = CapacityCampaign::start(config(62), true).unwrap();
    campaign.observe_path(0).unwrap();
    campaign.observe_path(1).unwrap();
    campaign.finish(true).unwrap();
    let report = campaign.report(&registry, source(62, 1, 0), 2, source(62, 0, 0), POOL_SLOTS, &[None]);
    assert_ne!(report.flags & CAPACITY_FLAG_DECLARATION_MISMATCH, 0);
    assert_eq!(report.workload_complete, 1);
    assert_eq!(report.isr_paths_covered, 0);
    assert!(!report.is_convertible());
}
