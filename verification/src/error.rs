//! Kernel error vocabulary, fault attribution, and recovery actions.

use vstd::prelude::*;

verus! {

#[derive(Clone, Copy, Debug, PartialEq, Eq, Structural)]
pub enum KernelError {
    LeaseConflict,
    BusTimeout,
    RadioTxFail,
    SensorReadFail,
    DeadlineMissed,
    ForeignModuleInitFail,
    ForeignModulePollFail,
    /// A stack guard's canary was destroyed or its watermark crossed the
    /// configured limit, attributed to the owning execution context.
    StackViolation,
    /// A memory-protection fault was captured and attributed.
    MemoryFault,
    WatchdogExpired,
    ModuleCrash,
    ProtocolAuthFail,
    QuotaBreach,
    PoolCorruption,
    StorageFail,
    PowerTransitionFail,
}

#[derive(Clone, Copy, Debug, PartialEq, Eq, Structural)]
pub enum FaultSource {
    Kernel,
    Scheduler,
    Watchdog,
    Module,
    Bus,
    Protocol,
    Storage,
    Memory,
    Power,
    Foreign,
}

#[derive(Clone, Copy, Debug, PartialEq, Eq, Structural)]
pub struct FaultContext {
    pub source: FaultSource,
    pub code: u16,
    pub detail0: u32,
    pub detail1: u32,
}

impl FaultContext {
    pub fn new(source: FaultSource, code: u16, detail0: u32, detail1: u32) -> (r: Self)
        ensures
            r == (FaultContext { source, code, detail0, detail1 }),
    {
        Self { source, code, detail0, detail1 }
    }
}

#[derive(Clone, Copy, Debug, PartialEq, Eq, Structural)]
pub struct HealthFault {
    pub error: KernelError,
    pub context: FaultContext,
}

/// The subsystem an error is attributed to when no richer context exists.
pub open spec fn source_of(error: KernelError) -> FaultSource {
    match error {
        KernelError::BusTimeout => FaultSource::Bus,
        KernelError::RadioTxFail | KernelError::ProtocolAuthFail => FaultSource::Protocol,
        KernelError::DeadlineMissed => FaultSource::Scheduler,
        KernelError::WatchdogExpired => FaultSource::Watchdog,
        KernelError::StackViolation | KernelError::MemoryFault | KernelError::PoolCorruption => {
            FaultSource::Memory
        },
        KernelError::StorageFail => FaultSource::Storage,
        KernelError::PowerTransitionFail => FaultSource::Power,
        KernelError::ForeignModuleInitFail | KernelError::ForeignModulePollFail => {
            FaultSource::Foreign
        },
        KernelError::SensorReadFail | KernelError::ModuleCrash => FaultSource::Module,
        KernelError::LeaseConflict | KernelError::QuotaBreach => FaultSource::Kernel,
    }
}

/// The fault recorded for a bare error: its default source, zeroed code and details.
pub open spec fn fault_of(error: KernelError) -> HealthFault {
    HealthFault {
        error,
        context: FaultContext { source: source_of(error), code: 0, detail0: 0, detail1: 0 },
    }
}

impl HealthFault {
    pub fn new(error: KernelError, context: FaultContext) -> (r: Self)
        ensures
            r == (HealthFault { error, context }),
    {
        Self { error, context }
    }

    /// A fault carrying only the error, attributed to its default source with
    /// zeroed code and details.
    pub fn from_error(error: KernelError) -> (r: Self)
        ensures
            r == fault_of(error),
    {
        let source = match error {
            KernelError::BusTimeout => FaultSource::Bus,
            KernelError::RadioTxFail | KernelError::ProtocolAuthFail => FaultSource::Protocol,
            KernelError::DeadlineMissed => FaultSource::Scheduler,
            KernelError::WatchdogExpired => FaultSource::Watchdog,
            KernelError::StackViolation
            | KernelError::MemoryFault
            | KernelError::PoolCorruption => FaultSource::Memory,
            KernelError::StorageFail => FaultSource::Storage,
            KernelError::PowerTransitionFail => FaultSource::Power,
            KernelError::ForeignModuleInitFail | KernelError::ForeignModulePollFail => {
                FaultSource::Foreign
            },
            KernelError::SensorReadFail | KernelError::ModuleCrash => FaultSource::Module,
            KernelError::LeaseConflict | KernelError::QuotaBreach => FaultSource::Kernel,
        };
        Self::new(error, FaultContext::new(source, 0, 0, 0))
    }
}

#[derive(Clone, Copy, Debug, PartialEq, Eq, Structural)]
pub enum Action {
    RetryNow,
    RetryDelay(u32),
    NotifyUserTask,
    RebootModule,
    Ignore,
}

} // verus!
