//! System lifecycle state machine for boot, degradation, and recovery.

use vstd::prelude::*;

use crate::error::{Action, KernelError};
use crate::event_log::{EventKind, EventPayload, EventRecord, EventSeverity};
use crate::health::ModuleId;

verus! {

#[derive(Clone, Copy, Debug, PartialEq, Eq, Structural)]
pub enum SystemState {
    ColdBoot,
    ValidateManifest,
    InitDrivers,
    Running,
    Degraded,
    Recovering,
    Halted,
}

impl SystemState {
    /// Stable numeric code of the state, in declaration order.
    pub open spec fn spec_code(self) -> u32 {
        match self {
            SystemState::ColdBoot => 0,
            SystemState::ValidateManifest => 1,
            SystemState::InitDrivers => 2,
            SystemState::Running => 3,
            SystemState::Degraded => 4,
            SystemState::Recovering => 5,
            SystemState::Halted => 6,
        }
    }

    pub fn code(self) -> (r: u32)
        ensures
            r == self.spec_code(),
    {
        match self {
            SystemState::ColdBoot => 0,
            SystemState::ValidateManifest => 1,
            SystemState::InitDrivers => 2,
            SystemState::Running => 3,
            SystemState::Degraded => 4,
            SystemState::Recovering => 5,
            SystemState::Halted => 6,
        }
    }
}

#[derive(Clone, Copy, Debug, PartialEq, Eq, Structural)]
pub enum LifecycleError {
    InvalidTransition { from: SystemState, to: SystemState },
}

/// The edges of the lifecycle graph.
pub open spec fn valid_transition(from: SystemState, to: SystemState) -> bool {
    match (from, to) {
        (SystemState::ColdBoot, SystemState::ValidateManifest) => true,
        (SystemState::ValidateManifest, SystemState::InitDrivers) => true,
        (SystemState::ValidateManifest, SystemState::Halted) => true,
        (SystemState::InitDrivers, SystemState::Running) => true,
        (SystemState::InitDrivers, SystemState::Halted) => true,
        (SystemState::Running, SystemState::Degraded) => true,
        (SystemState::Running, SystemState::Recovering) => true,
        (SystemState::Running, SystemState::Halted) => true,
        (SystemState::Degraded, SystemState::Running) => true,
        (SystemState::Degraded, SystemState::Recovering) => true,
        (SystemState::Degraded, SystemState::Halted) => true,
        (SystemState::Recovering, SystemState::InitDrivers) => true,
        (SystemState::Recovering, SystemState::Degraded) => true,
        (SystemState::Recovering, SystemState::Halted) => true,
        _ => false,
    }
}

/// Severity of the event announcing entry into `state`.
pub open spec fn severity_of(state: SystemState) -> EventSeverity {
    match state {
        SystemState::Degraded | SystemState::Recovering => EventSeverity::Warn,
        SystemState::Halted => EventSeverity::Fatal,
        _ => EventSeverity::Info,
    }
}

/// The state an action asks the system to enter from `current`.
pub open spec fn action_target(current: SystemState, action: Action) -> SystemState {
    match action {
        Action::NotifyUserTask => SystemState::Degraded,
        Action::RebootModule => SystemState::Recovering,
        _ => current,
    }
}

#[derive(Clone, Copy, Debug, PartialEq, Eq, Structural)]
pub struct Lifecycle {
    state: SystemState,
    previous: SystemState,
    transitions: u32,
    last_change_us: u64,
}

impl Lifecycle {
    pub closed spec fn spec_state(self) -> SystemState {
        self.state
    }

    pub closed spec fn spec_previous(self) -> SystemState {
        self.previous
    }

    pub closed spec fn spec_transitions(self) -> u32 {
        self.transitions
    }

    pub closed spec fn spec_last_change_us(self) -> u64 {
        self.last_change_us
    }

    pub fn new() -> (r: Self)
        ensures
            r.spec_state() == SystemState::ColdBoot,
            r.spec_previous() == SystemState::ColdBoot,
            r.spec_transitions() == 0,
            r.spec_last_change_us() == 0,
    {
        Lifecycle {
            state: SystemState::ColdBoot,
            previous: SystemState::ColdBoot,
            transitions: 0,
            last_change_us: 0,
        }
    }

    pub fn state(&self) -> (r: SystemState)
        ensures
            r == self.spec_state(),
    {
        self.state
    }

    pub fn previous(&self) -> (r: SystemState)
        ensures
            r == self.spec_previous(),
    {
        self.previous
    }

    pub fn transitions(&self) -> (r: u32)
        ensures
            r == self.spec_transitions(),
    {
        self.transitions
    }

    pub fn last_change_us(&self) -> (r: u64)
        ensures
            r == self.spec_last_change_us(),
    {
        self.last_change_us
    }

    /// Move along one lifecycle edge; an edge outside the graph is refused and
    /// leaves the state untouched.
    pub fn transition(&mut self, to: SystemState, now_us: u64) -> (r: Result<EventRecord, LifecycleError>)
        ensures
            valid_transition(old(self).spec_state(), to) <==> r is Ok,
            !valid_transition(old(self).spec_state(), to) ==> {
                &&& r == Err::<EventRecord, LifecycleError>(
                    LifecycleError::InvalidTransition { from: old(self).spec_state(), to },
                )
                &&& *final(self) == *old(self)
            },
            valid_transition(old(self).spec_state(), to) ==> {
                &&& final(self).spec_state() == to
                &&& final(self).spec_previous() == old(self).spec_state()
                &&& final(self).spec_transitions() == old(self).spec_transitions().saturating_add(1)
                &&& final(self).spec_last_change_us() == now_us
                &&& r == Ok::<EventRecord, LifecycleError>(
                    EventRecord {
                        at_us: now_us,
                        module: ModuleId::Kernel,
                        severity: severity_of(to),
                        kind: EventKind::Host,
                        payload: EventPayload::Pair(old(self).spec_state().spec_code(), to.spec_code()),
                    },
                )
            },
    {
        if !Self::is_valid_transition(self.state, to) {
            return Err(LifecycleError::InvalidTransition { from: self.state, to });
        }
        let from = self.state;
        self.previous = from;
        self.state = to;
        self.transitions = self.transitions.saturating_add(1);
        self.last_change_us = now_us;
        Ok(
            EventRecord::new(
                now_us,
                ModuleId::Kernel,
                Self::severity_for(to),
                EventKind::Host,
                EventPayload::Pair(from.code(), to.code()),
            ),
        )
    }

    /// Apply a health action: retries and ignores log a recovery event in place,
    /// a user notification degrades the system, a module reboot starts recovery.
    pub fn apply_action(&mut self, module: ModuleId, error: KernelError, action: Action, now_us: u64) -> (r: Result<EventRecord, LifecycleError>)
        ensures
            action_target(old(self).spec_state(), action) == old(self).spec_state() ==> {
                &&& *final(self) == *old(self)
                &&& r == Ok::<EventRecord, LifecycleError>(
                    EventRecord {
                        at_us: now_us,
                        module,
                        severity: EventSeverity::Info,
                        kind: EventKind::Recovery,
                        payload: EventPayload::Error(error),
                    },
                )
            },
            ({
                let to = action_target(old(self).spec_state(), action);
                to != old(self).spec_state() ==> {
                    &&& (valid_transition(old(self).spec_state(), to) <==> r is Ok)
                    &&& (!valid_transition(old(self).spec_state(), to) ==> *final(self) == *old(self)
                        && r == Err::<EventRecord, LifecycleError>(
                        LifecycleError::InvalidTransition { from: old(self).spec_state(), to },
                    ))
                    &&& (valid_transition(old(self).spec_state(), to) ==> {
                        &&& final(self).spec_state() == to
                        &&& final(self).spec_previous() == old(self).spec_state()
                        &&& final(self).spec_transitions() == old(self).spec_transitions().saturating_add(1)
                        &&& final(self).spec_last_change_us() == now_us
                        &&& r == Ok::<EventRecord, LifecycleError>(
                            EventRecord {
                                at_us: now_us,
                                module: ModuleId::Kernel,
                                severity: severity_of(to),
                                kind: EventKind::Host,
                                payload: EventPayload::Pair(old(self).spec_state().spec_code(), to.spec_code()),
                            },
                        )
                    })
                }
            }),
    {
        let target = match action {
            Action::RetryNow | Action::RetryDelay(_) | Action::Ignore => self.state,
            Action::NotifyUserTask => SystemState::Degraded,
            Action::RebootModule => SystemState::Recovering,
        };
        if target == self.state {
            return Ok(
                EventRecord::new(
                    now_us,
                    module,
                    EventSeverity::Info,
                    EventKind::Recovery,
                    EventPayload::Error(error),
                ),
            );
        }
        self.transition(target, now_us)
    }

    pub fn is_valid_transition(from: SystemState, to: SystemState) -> (r: bool)
        ensures
            r == valid_transition(from, to),
    {
        match (from, to) {
            (SystemState::ColdBoot, SystemState::ValidateManifest) => true,
            (SystemState::ValidateManifest, SystemState::InitDrivers) => true,
            (SystemState::ValidateManifest, SystemState::Halted) => true,
            (SystemState::InitDrivers, SystemState::Running) => true,
            (SystemState::InitDrivers, SystemState::Halted) => true,
            (SystemState::Running, SystemState::Degraded) => true,
            (SystemState::Running, SystemState::Recovering) => true,
            (SystemState::Running, SystemState::Halted) => true,
            (SystemState::Degraded, SystemState::Running) => true,
            (SystemState::Degraded, SystemState::Recovering) => true,
            (SystemState::Degraded, SystemState::Halted) => true,
            (SystemState::Recovering, SystemState::InitDrivers) => true,
            (SystemState::Recovering, SystemState::Degraded) => true,
            (SystemState::Recovering, SystemState::Halted) => true,
            _ => false,
        }
    }

    fn severity_for(state: SystemState) -> (r: EventSeverity)
        ensures
            r == severity_of(state),
    {
        match state {
            SystemState::ColdBoot
            | SystemState::ValidateManifest
            | SystemState::InitDrivers
            | SystemState::Running => EventSeverity::Info,
            SystemState::Degraded | SystemState::Recovering => EventSeverity::Warn,
            SystemState::Halted => EventSeverity::Fatal,
        }
    }
}

impl Default for Lifecycle {
    fn default() -> (r: Self)
        ensures
            r.spec_state() == SystemState::ColdBoot,
            r.spec_previous() == SystemState::ColdBoot,
            r.spec_transitions() == 0,
            r.spec_last_change_us() == 0,
    {
        Self::new()
    }
}

/// Law: no lifecycle edge leaves `Halted`; the halted state is terminal.
pub proof fn halted_is_terminal(to: SystemState)
    ensures
        !valid_transition(SystemState::Halted, to),
{
}

/// Law: no state can move back to `ColdBoot` once the lifecycle has started.
pub proof fn cold_boot_is_never_reentered(from: SystemState)
    ensures
        !valid_transition(from, SystemState::ColdBoot),
{
}

/// Law: the lifecycle edges are exactly these. Boot runs `ColdBoot`,
/// `ValidateManifest`, `InitDrivers`, `Running`; a running system may degrade,
/// and a degraded one may return to `Running`; either may start recovery,
/// which re-initialises drivers or settles in `Degraded`; every started state
/// may halt.
pub proof fn lifecycle_edges_are_exactly(from: SystemState, to: SystemState)
    ensures
        valid_transition(from, to) <==> {
            ||| from == SystemState::ColdBoot && to == SystemState::ValidateManifest
            ||| from == SystemState::ValidateManifest && (to == SystemState::InitDrivers || to == SystemState::Halted)
            ||| from == SystemState::InitDrivers && (to == SystemState::Running || to == SystemState::Halted)
            ||| from == SystemState::Running && (to == SystemState::Degraded || to == SystemState::Recovering
                || to == SystemState::Halted)
            ||| from == SystemState::Degraded && (to == SystemState::Running || to == SystemState::Recovering
                || to == SystemState::Halted)
            ||| from == SystemState::Recovering && (to == SystemState::InitDrivers || to == SystemState::Degraded
                || to == SystemState::Halted)
        },
{
}

/// Law: degradation is reversible: a running system may enter `Degraded` and
/// a degraded one may go back to `Running` directly, without recovery.
pub proof fn degradation_is_reversible()
    ensures
        valid_transition(SystemState::Running, SystemState::Degraded),
        valid_transition(SystemState::Degraded, SystemState::Running),
{
}

/// Law: every started state that has not halted may halt directly.
pub proof fn every_started_state_may_halt(from: SystemState)
    requires
        from != SystemState::ColdBoot,
        from != SystemState::Halted,
    ensures
        valid_transition(from, SystemState::Halted),
{
}

/// Law: a refused transition leaves the lifecycle unchanged, and an accepted
/// one advances the transition counter unless it is already saturated.
pub proof fn transition_counter_is_monotone(before: Lifecycle, after: Lifecycle)
    requires
        after.spec_transitions() == before.spec_transitions().saturating_add(1),
    ensures
        after.spec_transitions() >= before.spec_transitions(),
{
}

} // verus!
