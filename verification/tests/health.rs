use nobro_kernel::health::default_action;
use nobro_kernel::{
    Action, FaultContext, FaultPolicy, FaultSource, FaultThresholdError, FaultThresholds,
    HealthCounters, HealthFault, HealthMonitor, KernelError, ModuleId,
};

struct StatefulPolicy {
    calls: u16,
}

impl FaultPolicy for StatefulPolicy {
    fn decide(&mut self, module: ModuleId, fault: &HealthFault, _counters: &HealthCounters) -> Action {
        self.calls += 1;
        if module == ModuleId::Bus && fault.context.detail0 == 0x52 {
            Action::RetryDelay(u32::from(self.calls) * 100)
        } else {
            Action::NotifyUserTask
        }
    }
}

#[test]
fn fault_thresholds_reject_incoherent_escalation() {
    assert_eq!(
        FaultThresholds {
            notify_after: 0,
            reboot_after: 1,
        }
        .validate(),
        Err(FaultThresholdError::NotifyZero)
    );
    assert_eq!(
        FaultThresholds {
            notify_after: 3,
            reboot_after: 2,
        }
        .validate(),
        Err(FaultThresholdError::RebootBeforeNotify)
    );
    assert!(FaultThresholds::default().validate().is_ok());
}

#[test]
fn structured_fault_preserves_context_and_uses_stateful_module_policy() {
    let mut monitor = HealthMonitor::<1>::new();
    let mut policy = StatefulPolicy { calls: 0 };
    let fault = HealthFault::new(
        KernelError::BusTimeout,
        FaultContext::new(FaultSource::Bus, 7, 0x52, 400),
    );
    assert_eq!(
        monitor.record_fault(
            ModuleId::Bus,
            fault,
            10,
            FaultThresholds {
                notify_after: 3,
                reboot_after: 5,
            },
            &mut policy,
        ),
        Action::RetryDelay(100)
    );
    assert_eq!(monitor.get(ModuleId::Bus).unwrap().last_fault, Some(fault));
}

#[test]
fn ok_resets_consecutive_errors() {
    let mut monitor = HealthMonitor::<2>::new();
    let thresholds = FaultThresholds::default();

    monitor.record_error(
        ModuleId::Bus,
        KernelError::BusTimeout,
        10,
        thresholds,
        default_action,
    );
    monitor.record_ok(ModuleId::Bus, 20);

    let counters = monitor.get(ModuleId::Bus).expect("bus slot");
    assert_eq!(counters.total_errors, 1);
    assert_eq!(counters.consecutive_errors, 0);
    assert_eq!(counters.last_seen_us, 20);
}

#[test]
fn repeated_errors_escalate_to_reboot() {
    let mut monitor = HealthMonitor::<1>::new();
    let thresholds = FaultThresholds {
        notify_after: 2,
        reboot_after: 3,
    };

    let first = monitor.record_error(
        ModuleId::Sensor,
        KernelError::SensorReadFail,
        10,
        thresholds,
        default_action,
    );
    let second = monitor.record_error(
        ModuleId::Sensor,
        KernelError::SensorReadFail,
        20,
        thresholds,
        default_action,
    );
    let third = monitor.record_error(
        ModuleId::Sensor,
        KernelError::SensorReadFail,
        30,
        thresholds,
        default_action,
    );

    assert_eq!(first, Action::Ignore);
    assert_eq!(second, Action::NotifyUserTask);
    assert_eq!(third, Action::RebootModule);
    assert_eq!(
        monitor
            .get(ModuleId::Sensor)
            .expect("sensor slot")
            .last_recovery_us,
        30
    );
}

#[test]
fn full_monitor_reports_user_notification() {
    let mut monitor = HealthMonitor::<1>::new();
    monitor.record_ok(ModuleId::Bus, 1);

    let action = monitor.record_error(
        ModuleId::Radio,
        KernelError::RadioTxFail,
        2,
        FaultThresholds::default(),
        default_action,
    );

    assert_eq!(action, Action::NotifyUserTask);
    assert!(monitor.get(ModuleId::Radio).is_none());
}

#[test]
fn from_error_attributes_the_default_source() {
    let fault = HealthFault::from_error(KernelError::StackViolation);
    assert_eq!(fault.context, FaultContext::new(FaultSource::Memory, 0, 0, 0));
    assert_eq!(HealthFault::from_error(KernelError::BusTimeout).context.source, FaultSource::Bus);
    assert_eq!(HealthFault::from_error(KernelError::QuotaBreach).context.source, FaultSource::Kernel);
}

#[test]
fn a_closure_policy_decides_below_the_thresholds() {
    let mut monitor = HealthMonitor::<2>::new();
    let action = monitor.record_error(
        ModuleId::Crypto,
        KernelError::ProtocolAuthFail,
        7,
        FaultThresholds::default(),
        |_error: &KernelError| Action::RetryDelay(9),
    );
    assert_eq!(action, Action::RetryDelay(9));
    let counters = monitor.get(ModuleId::Crypto).unwrap();
    assert_eq!(counters.last_action, Action::RetryDelay(9));
    assert_eq!(counters.last_error, Some(KernelError::ProtocolAuthFail));
    assert_eq!(counters.consecutive_errors, 1);
}
