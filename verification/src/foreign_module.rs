//! Fail-closed execution state for callbacks behind a foreign ABI.

use vstd::prelude::*;

use crate::launch_gate::ModuleLaunchGate;
use crate::manifest::CapabilitySet;

verus! {

#[derive(Clone, Copy, Debug, PartialEq, Eq, Structural)]
pub enum ForeignModuleState {
    Closed,
    Admitted,
    Running,
    Failed,
}

#[derive(Clone, Copy, Debug, PartialEq, Eq, Structural)]
pub enum ForeignModuleError {
    AdmissionDenied,
    InvalidState(ForeignModuleState),
    InitFailed(i32),
    PollFailed(i32),
}

/// Owns the only legal path from admission to foreign init/poll callbacks.
/// The launch gate it drives grants authority exactly while the module is
/// admitted or running.
pub struct ForeignModuleRunner<'a> {
    gate: &'a mut ModuleLaunchGate,
    state: ForeignModuleState,
}

impl<'a> ForeignModuleRunner<'a> {
    pub closed spec fn spec_state(self) -> ForeignModuleState {
        self.state
    }

    /// Authority held by the module, as a capability mask.
    pub closed spec fn granted(self) -> u32 {
        self.gate@
    }

    pub fn new(gate: &'a mut ModuleLaunchGate) -> (r: Self)
        ensures
            r.spec_state() == ForeignModuleState::Closed,
            r.granted() == old(gate)@,
    {
        ForeignModuleRunner { gate, state: ForeignModuleState::Closed }
    }

    /// Install a non-empty grant and admit the module; an absent or empty
    /// grant fails the module and revokes all authority.
    pub fn admit_grant(&mut self, granted: Option<CapabilitySet>) -> (r: Result<(), ForeignModuleError>)
        ensures
            (granted matches Some(g) && g@ != 0) ==> r is Ok && final(self).spec_state() == ForeignModuleState::Admitted
                && final(self).granted() == granted.unwrap()@,
            !(granted matches Some(g) && g@ != 0) ==> r == Err::<(), ForeignModuleError>(ForeignModuleError::AdmissionDenied)
                && final(self).spec_state() == ForeignModuleState::Failed && final(self).granted() == 0,
    {
        match granted {
            Some(set) => {
                if set.bits() == 0 {
                    self.fail();
                    return Err(ForeignModuleError::AdmissionDenied);
                }
                self.gate.install(set);
                self.state = ForeignModuleState::Admitted;
                Ok(())
            },
            None => {
                self.fail();
                Err(ForeignModuleError::AdmissionDenied)
            },
        }
    }

    /// Run the foreign init callback, only for an admitted module; a negative
    /// status fails the module and revokes its authority.
    pub fn initialize<F: FnOnce() -> i32>(&mut self, callback: F) -> (r: Result<(), ForeignModuleError>)
        requires
            callback.requires(()),
        ensures
            old(self).spec_state() != ForeignModuleState::Admitted ==> r == Err::<(), ForeignModuleError>(
                ForeignModuleError::InvalidState(old(self).spec_state()),
            ) && final(self).spec_state() == old(self).spec_state() && final(self).granted() == old(self).granted(),
            old(self).spec_state() == ForeignModuleState::Admitted ==> exists|status: i32| {
                &&& callback.ensures((), status)
                &&& status < 0 ==> r == Err::<(), ForeignModuleError>(ForeignModuleError::InitFailed(status))
                    && final(self).spec_state() == ForeignModuleState::Failed && final(self).granted() == 0
                &&& status >= 0 ==> r is Ok && final(self).spec_state() == ForeignModuleState::Running
                    && final(self).granted() == old(self).granted()
            },
    {
        if self.state != ForeignModuleState::Admitted {
            return Err(ForeignModuleError::InvalidState(self.state));
        }
        let result = callback();
        if result < 0 {
            self.fail();
            return Err(ForeignModuleError::InitFailed(result));
        }
        self.state = ForeignModuleState::Running;
        Ok(())
    }

    /// Run the foreign poll callback, only for a running module; a negative
    /// status fails the module and revokes its authority.
    pub fn poll<F: FnOnce() -> i32>(&mut self, callback: F) -> (r: Result<(), ForeignModuleError>)
        requires
            callback.requires(()),
        ensures
            old(self).spec_state() != ForeignModuleState::Running ==> r == Err::<(), ForeignModuleError>(
                ForeignModuleError::InvalidState(old(self).spec_state()),
            ) && final(self).spec_state() == old(self).spec_state() && final(self).granted() == old(self).granted(),
            old(self).spec_state() == ForeignModuleState::Running ==> exists|status: i32| {
                &&& callback.ensures((), status)
                &&& status < 0 ==> r == Err::<(), ForeignModuleError>(ForeignModuleError::PollFailed(status))
                    && final(self).spec_state() == ForeignModuleState::Failed && final(self).granted() == 0
                &&& status >= 0 ==> r is Ok && final(self).spec_state() == ForeignModuleState::Running
                    && final(self).granted() == old(self).granted()
            },
    {
        if self.state != ForeignModuleState::Running {
            return Err(ForeignModuleError::InvalidState(self.state));
        }
        let result = callback();
        if result < 0 {
            self.fail();
            return Err(ForeignModuleError::PollFailed(result));
        }
        Ok(())
    }

    /// Revoke all authority and close the module.
    pub fn close(&mut self)
        ensures
            final(self).spec_state() == ForeignModuleState::Closed,
            final(self).granted() == 0,
    {
        self.gate.revoke();
        self.state = ForeignModuleState::Closed;
    }

    pub fn state(&self) -> (r: ForeignModuleState)
        ensures
            r == self.spec_state(),
    {
        self.state
    }

    /// The launch gate the runner drives.
    pub fn launch_gate(&self) -> (r: &ModuleLaunchGate)
        ensures
            r@ == self.granted(),
    {
        &*self.gate
    }

    fn fail(&mut self)
        ensures
            final(self).spec_state() == ForeignModuleState::Failed,
            final(self).granted() == 0,
    {
        self.gate.revoke();
        self.state = ForeignModuleState::Failed;
    }
}

} // verus!
