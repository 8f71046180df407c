use std::cell::Cell;

use nobro_kernel::{
    validate_foreign_range, validate_foreign_read, validate_foreign_read_write, Capability,
    CapabilitySet, CapabilityTraceOp, CapabilityTraceRecord, ForeignBufferError, ForeignHostCall,
    ForeignHostContext, ForeignHostError, ForeignHostQuota, ForeignHostUsage, ForeignModuleError,
    ForeignModuleRunner, ForeignModuleState, ModuleId, ModuleLaunchGate,
};

#[test]
fn denied_admission_never_calls_init_or_poll() {
    let mut gate = ModuleLaunchGate::new();
    let calls = Cell::new(0);
    {
        let mut runner = ForeignModuleRunner::new(&mut gate);
        assert_eq!(runner.admit_grant(None), Err(ForeignModuleError::AdmissionDenied));
        assert_eq!(
            runner.initialize(|| {
                calls.set(calls.get() + 1);
                0
            }),
            Err(ForeignModuleError::InvalidState(ForeignModuleState::Failed))
        );
        assert_eq!(
            runner.poll(|| {
                calls.set(calls.get() + 1);
                0
            }),
            Err(ForeignModuleError::InvalidState(ForeignModuleState::Failed))
        );
    }
    assert_eq!(calls.get(), 0);
    assert!(!gate.is_admitted());
}

#[test]
fn failed_poll_revokes_authority_and_cannot_continue() {
    let mut gate = ModuleLaunchGate::new();
    let polls = Cell::new(0);
    {
        let mut runner = ForeignModuleRunner::new(&mut gate);
        runner.admit_grant(Some(CapabilitySet::empty().with(Capability::Bus0))).unwrap();
        runner.initialize(|| 0).unwrap();
        assert_eq!(runner.state(), ForeignModuleState::Running);
        assert_eq!(
            runner.poll(|| {
                polls.set(polls.get() + 1);
                -7
            }),
            Err(ForeignModuleError::PollFailed(-7))
        );
        assert_eq!(
            runner.poll(|| {
                polls.set(polls.get() + 1);
                0
            }),
            Err(ForeignModuleError::InvalidState(ForeignModuleState::Failed))
        );
    }
    assert_eq!(polls.get(), 1);
    assert!(!gate.allows(Capability::Bus0));
}

#[test]
fn empty_grant_is_denied_and_close_revokes() {
    let mut gate = ModuleLaunchGate::new();
    let mut runner = ForeignModuleRunner::new(&mut gate);
    assert_eq!(runner.admit_grant(Some(CapabilitySet::empty())), Err(ForeignModuleError::AdmissionDenied));
    assert_eq!(runner.state(), ForeignModuleState::Failed);
    runner.admit_grant(Some(CapabilitySet::empty().with(Capability::Radio))).unwrap();
    assert!(runner.launch_gate().allows(Capability::Radio));
    assert_eq!(runner.initialize(|| -3), Err(ForeignModuleError::InitFailed(-3)));
    assert!(!runner.launch_gate().is_admitted());
    runner.close();
    assert_eq!(runner.state(), ForeignModuleState::Closed);
}

#[test]
fn identity_capability_quota_operation_and_trace_are_one_path() {
    let mut gate = ModuleLaunchGate::new();
    let grants = CapabilitySet::empty().with(Capability::Bus0);
    gate.install(grants);
    let mut host = ForeignHostContext::<8>::new(&gate, ForeignHostQuota::new(1, 4));
    let calls = Cell::new(0);
    host.admit_grant(ModuleId::Sensor, grants);

    assert_eq!(
        host.invoke(
            ForeignHostCall::new(Capability::Bus0, CapabilityTraceOp::Write, 10).args(0x68, 4).bytes(4),
            || {
                calls.set(calls.get() + 1);
                0
            }
        ),
        Ok(0)
    );
    assert_eq!(
        host.invoke(
            ForeignHostCall::new(Capability::Bus0, CapabilityTraceOp::Write, 20).args(0x68, 1).bytes(1),
            || {
                calls.set(calls.get() + 1);
                0
            }
        ),
        Err(ForeignHostError::QuotaExceeded)
    );
    assert_eq!(calls.get(), 1);
    assert_eq!(host.usage(), ForeignHostUsage { calls: 1, bytes: 4 });
    let mut trace = [CapabilityTraceRecord::empty(); 8];
    assert_eq!(host.copy_trace(&mut trace), 3);
    assert!(trace[..3].iter().all(|record| record.module == ModuleId::Sensor));
    assert_eq!(trace[2].op, CapabilityTraceOp::Fault);
    assert_eq!(trace[1].result, 0);
    assert_eq!(trace[0].result, u32::MAX);
}

#[test]
fn host_calls_are_refused_without_session_gate_or_grant() {
    let closed = ModuleLaunchGate::new();
    let mut host = ForeignHostContext::<4>::new(&closed, ForeignHostQuota::new(8, 64));
    let call = ForeignHostCall::new(Capability::Bus0, CapabilityTraceOp::Read, 1);
    assert_eq!(host.invoke(call, || 5), Err(ForeignHostError::NotAdmitted));
    host.admit_grant(ModuleId::Radio, CapabilitySet::empty().with(Capability::Bus0));
    assert_eq!(host.invoke(call, || 5), Err(ForeignHostError::CapabilityDenied));

    let mut open = ModuleLaunchGate::new();
    open.install(CapabilitySet::empty().with(Capability::Radio));
    let mut host = ForeignHostContext::<4>::new(&open, ForeignHostQuota::new(8, 64));
    host.admit_grant(ModuleId::Radio, CapabilitySet::empty().with(Capability::Radio));
    assert_eq!(host.invoke(call, || 5), Err(ForeignHostError::CapabilityDenied));
    let radio = ForeignHostCall::new(Capability::Radio, CapabilityTraceOp::Read, 2);
    assert_eq!(host.invoke(radio, || -1), Ok(-1));
    let mut trace = [CapabilityTraceRecord::empty(); 4];
    assert_eq!(host.copy_trace(&mut trace), 3);
    assert_eq!(trace[2].result, u32::MAX);
}

#[test]
fn foreign_ranges_reject_null_empty_oversize_wrap_and_overlap() {
    assert_eq!(validate_foreign_read(0, 0, 8, true), Ok(0));
    assert_eq!(validate_foreign_read(0, 1, 8, true), Err(ForeignBufferError::Null));
    let bytes = [0u8; 8];
    let base = bytes.as_ptr() as usize;
    assert_eq!(validate_foreign_read(base, 0, 8, false), Err(ForeignBufferError::Empty));
    assert_eq!(validate_foreign_read(base, 9, 8, false), Err(ForeignBufferError::TooLong));
    assert_eq!(validate_foreign_range(usize::MAX, 1, 8, false), Err(ForeignBufferError::AddressOverflow));

    let duplex = [0u8; 8];
    let start = duplex.as_ptr() as usize;
    assert_eq!(validate_foreign_read_write(start, 4, start + 2, 4, 8), Err(ForeignBufferError::Overlap));
    assert_eq!(validate_foreign_read_write(start, 4, start + 4, 4, 8), Ok((4, 4)));
    assert_eq!(validate_foreign_read_write(start, 4, 0, 4, 8), Err(ForeignBufferError::Null));
}
