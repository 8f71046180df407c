use nobro_kernel::{Capability, CapabilitySet, ModuleLaunchGate};

#[test]
fn starts_and_returns_to_fail_closed_state() {
    let mut gate = ModuleLaunchGate::new();
    assert!(!gate.is_admitted());
    assert!(!gate.allows(Capability::Bus0));

    gate.install(
        CapabilitySet::empty()
            .with(Capability::Bus0)
            .with(Capability::Timebase),
    );
    assert!(gate.is_admitted());
    assert!(gate.allows(Capability::Bus0));
    assert!(gate.allows(Capability::Timebase));
    assert!(!gate.allows(Capability::Radio));

    gate.revoke();
    assert!(!gate.is_admitted());
    assert!(!gate.allows(Capability::Bus0));
}

#[test]
fn installing_an_empty_set_leaves_the_gate_closed() {
    let mut gate = ModuleLaunchGate::default();
    gate.install(CapabilitySet::empty());
    assert!(!gate.is_admitted());
    assert!(!gate.allows(Capability::Power));
}
