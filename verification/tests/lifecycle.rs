use nobro_kernel::{
    Action, EventKind, EventPayload, EventSeverity, KernelError, Lifecycle, LifecycleError,
    ModuleId, SystemState,
};

#[test]
fn boot_path_reaches_running() {
    let mut lifecycle = Lifecycle::new();

    lifecycle
        .transition(SystemState::ValidateManifest, 10)
        .unwrap();
    lifecycle.transition(SystemState::InitDrivers, 20).unwrap();
    let event = lifecycle.transition(SystemState::Running, 30).unwrap();

    assert_eq!(lifecycle.state(), SystemState::Running);
    assert_eq!(lifecycle.previous(), SystemState::InitDrivers);
    assert_eq!(lifecycle.transitions(), 3);
    assert_eq!(event.payload, EventPayload::Pair(2, 3));
}

#[test]
fn invalid_transition_is_rejected() {
    let mut lifecycle = Lifecycle::new();
    assert_eq!(
        lifecycle.transition(SystemState::Running, 10),
        Err(LifecycleError::InvalidTransition {
            from: SystemState::ColdBoot,
            to: SystemState::Running
        })
    );
}

#[test]
fn recovery_action_moves_running_to_recovering() {
    let mut lifecycle = Lifecycle::new();
    lifecycle
        .transition(SystemState::ValidateManifest, 10)
        .unwrap();
    lifecycle.transition(SystemState::InitDrivers, 20).unwrap();
    lifecycle.transition(SystemState::Running, 30).unwrap();

    let event = lifecycle
        .apply_action(
            ModuleId::Sensor,
            KernelError::SensorReadFail,
            Action::RebootModule,
            40,
        )
        .unwrap();

    assert_eq!(lifecycle.state(), SystemState::Recovering);
    assert_eq!(event.severity, EventSeverity::Warn);
}

#[test]
fn ignored_action_does_not_move_state() {
    let mut lifecycle = Lifecycle::new();
    lifecycle
        .transition(SystemState::ValidateManifest, 10)
        .unwrap();

    let event = lifecycle
        .apply_action(ModuleId::Bus, KernelError::BusTimeout, Action::Ignore, 20)
        .unwrap();

    assert_eq!(lifecycle.state(), SystemState::ValidateManifest);
    assert_eq!(event.module, ModuleId::Bus);
    assert_eq!(event.kind, EventKind::Recovery);
}

#[test]
fn halted_state_refuses_every_exit_and_keeps_its_counters() {
    let mut lifecycle = Lifecycle::new();
    lifecycle.transition(SystemState::ValidateManifest, 1).unwrap();
    let event = lifecycle.transition(SystemState::Halted, 2).unwrap();
    assert_eq!(event.severity, EventSeverity::Fatal);
    assert_eq!(event.payload, EventPayload::Pair(1, 6));
    for to in [
        SystemState::ColdBoot,
        SystemState::ValidateManifest,
        SystemState::InitDrivers,
        SystemState::Running,
        SystemState::Degraded,
        SystemState::Recovering,
        SystemState::Halted,
    ] {
        assert!(lifecycle.transition(to, 3).is_err());
    }
    assert_eq!(lifecycle.transitions(), 2);
    assert_eq!(lifecycle.last_change_us(), 2);
}

#[test]
fn notify_action_degrades_and_invalid_target_is_reported() {
    let mut lifecycle = Lifecycle::new();
    // From ColdBoot, Degraded is not a lifecycle edge.
    assert_eq!(
        lifecycle.apply_action(ModuleId::Radio, KernelError::RadioTxFail, Action::NotifyUserTask, 5),
        Err(LifecycleError::InvalidTransition {
            from: SystemState::ColdBoot,
            to: SystemState::Degraded,
        })
    );
    assert_eq!(lifecycle.state(), SystemState::ColdBoot);
    assert!(Lifecycle::is_valid_transition(SystemState::Running, SystemState::Degraded));
    assert!(!Lifecycle::is_valid_transition(SystemState::Running, SystemState::ColdBoot));
}
