//! NobroRTOS kernel: bounded, allocation-free kernel services with verified contracts.

pub mod error;
mod waker;
pub mod scan;
pub mod bitset;
pub mod label;
pub mod startup;
pub use startup::{DependencySet, StartupNode};
pub mod health;

pub use error::{Action, FaultContext, FaultSource, HealthFault, KernelError};
pub use health::{
    FaultPolicy, FaultThresholdError, FaultThresholds, HealthCounters, HealthMonitor, HealthSlot,
    ModuleId,
};
pub mod manifest;
pub use manifest::{
    kernel_owned_capabilities, Capability, CapabilitySet, Criticality, DeadlineContract,
    ManifestError, MemoryBudget, ModuleSpec, SystemBudget, SystemManifest, SystemProfile,
};
pub mod event_log;
pub mod launch_gate;
pub mod lifecycle;
pub mod lifecycle_hooks;
pub use event_log::{EventKind, EventPayload, EventRecord, EventSeverity};
pub use launch_gate::ModuleLaunchGate;
pub use lifecycle::{Lifecycle, LifecycleError, SystemState};
pub use lifecycle_hooks::{ModuleHookError, ModuleLifecycleHooks, ModuleReloadHooks};
pub mod hot_reload;
pub use hot_reload::{
    HotReloadError, HotReloadOutcome, HotReloadPlan, HotReloadPolicy, HotReloadStep,
    HotReloadStepKind, LeaseReleaser, NoopLeaseReleaser,
};
pub mod capability;
pub use capability::{
    CapabilityGrant, CapabilityGrantError, CapabilityGrantTable, CapabilityReplayScope,
    CapabilityTrace, CapabilityTraceError, CapabilityTraceInput, CapabilityTraceOp,
    CapabilityTraceRecord,
};
pub mod mailbox;
pub use mailbox::{Mailbox, MailboxError, MailboxWork, Message, MessageKind};
pub mod admission_analysis;
pub use admission_analysis::{AdmissionAnalysis, ModuleCost, ShedError, ShedPlan};
pub mod degrade;
pub use degrade::{DegradeDecision, DegradeError, DegradePlanner, DegradeReason};
pub mod async_rt;
pub use async_rt::{
    admit_reactor_domains, AsyncDeadline, DeadlineContractError, DeadlineFault,
    DeadlineFaultKind, Either, ReactorAdmissionError, ReactorAdmissionPlan,
    InterruptProfile, ReactorChannelContract, ReactorDomainContract, ReactorError,
    ReactorPriorityBinding, ReactorPriorityError, ReactorPriorityPlan, ReactorStats,
    BoundReactorRuntime, ReactorRuntimeDomain, ReactorRuntimeError, ReactorRuntimeSet, SleepStep, TimerQueue,
    CancelToken, Channel, Signal,
};
pub mod executor;
pub use executor::{
    DeadlineReleaseArm, DeadlineReleaseArmWords, DueSelection, DueSweep, IntraClassOrder, IsrReleaseReceipt, Poll,
    Task, TaskMeta, TaskSlot, TaskStats, TaskTable, TaskTableError, TaskTransferState,
    MAX_WRAP_SAFE_INTERVAL_US,
};
pub mod graph;
pub use graph::{
    build_core_into, AppGraph, BuiltGraph, ChannelDecl, GraphError, GraphReactorAdmission,
    GraphReactorError, GraphSpec, ReactorTaskBinding, TaskDecl,
};
pub mod foreign_module;
pub use foreign_module::{ForeignModuleError, ForeignModuleRunner, ForeignModuleState};
pub mod foreign_host;
pub use foreign_host::{
    validate_foreign_range, validate_foreign_read, validate_foreign_read_write, ForeignBufferError,
    ForeignHostCall, ForeignHostContext, ForeignHostError, ForeignHostQuota, ForeignHostUsage,
};
pub mod instrumentation;
pub use instrumentation::{
    ExecutorInstrumentation, ExecutorTimingReport, ReleaseGroup, ReportIdentity,
    EXECUTOR_FLAG_CLOCK_INVALID, EXECUTOR_FLAG_COUNTER_SATURATED, EXECUTOR_FLAG_GROUP_TABLE_FULL,
    EXECUTOR_FLAG_IDENTITY_MISSING, EXECUTOR_FLAG_INCOMPLETE, EXECUTOR_FLAG_PARTIAL_RELEASE_GROUP,
    EXECUTOR_FLAG_SELECTION_REEVALUATED, EXECUTOR_FLAG_SELECTION_UNSTABLE, EXECUTOR_TIMING_REPORT_MAGIC,
    EXECUTOR_TIMING_REPORT_VERSION, EXECUTOR_TIMING_REPORT_WORDS, FNV1A32_OFFSET,
};
pub mod c_app;
pub use c_app::{CApp, CAppError, CAppState, CDispatchReport, CTask, CTaskOptions, CTaskRole, CWire};
pub mod ipc;
pub use ipc::{
    IpcEnvelope, IpcPriority, IpcPublishReceipt, IpcPushError, IpcReceiveError, IpcRouter, IpcSnapshot,
    PayloadHandle, PayloadPool, PayloadPoolError,
};
pub mod capacity_report;
pub use capacity_report::{
    validate_config, CapacityCampaign, CapacityCampaignConfig, CapacitySourceSnapshot, StackGuardStatus,
    CAPACITY_PREFLIGHT_FAILURES, CAPACITY_STRUCTURAL_FAILURES, CapacityCampaignError, CapacityIdentity, CapacityRegistry,
    CapacityRegistryError, CapacityReport, CapacityResource, CapacityResourceKind, CapacityResourceRecord,
    CAPACITY_FLAG_DECLARATION_MISMATCH, CAPACITY_FLAG_IDENTITY_MISSING, CAPACITY_FLAG_INCOMPLETE,
    CAPACITY_FLAG_RESOURCE_MISSING, CAPACITY_FLAG_SESSION_MISMATCH, CAPACITY_FLAG_SIZE_OVERFLOW,
    CAPACITY_FLAG_UNEXPECTED_PATH, CAPACITY_REPORT_FIXED_BYTES, CAPACITY_REPORT_MAGIC, CAPACITY_REPORT_VERSION,
    CAPACITY_RESOURCE_RECORD_BYTES,
};
pub mod async_exec;
pub use async_exec::{AsyncError, AsyncTask, BoundedExecutor, RunStats};
pub mod sentinel;
pub use sentinel::{stuck_poll, ExecutionSentinel, StuckPoll};
pub mod reactor;
pub use reactor::{ReactorExecutor, ReactorTask};
pub mod async_mpmc;
pub use async_mpmc::{
    MpmcChannel, MpmcRecvStep, MpmcSendError, MpmcSendStep, MpmcTrySendError, TaskGroup, WaitError, WaitQueue,
};
