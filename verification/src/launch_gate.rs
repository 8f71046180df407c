//! Fail-closed authorization state for foreign modules and other ABI boundaries.

use vstd::prelude::*;

use crate::manifest::{Capability, CapabilitySet};

verus! {

/// Stores the capabilities of the currently admitted foreign module.
///
/// A newly constructed or revoked gate denies every operation. Grants should
/// only be installed after the complete boot/admission path has succeeded.
#[derive(Debug)]
pub struct ModuleLaunchGate {
    granted: u32,
}

impl View for ModuleLaunchGate {
    type V = u32;

    /// The installed capability bits; zero means nothing is admitted.
    closed spec fn view(&self) -> u32 {
        self.granted
    }
}

impl ModuleLaunchGate {
    pub fn new() -> (r: Self)
        ensures
            r@ == 0,
    {
        ModuleLaunchGate { granted: 0 }
    }

    pub fn install(&mut self, granted: CapabilitySet)
        ensures
            final(self)@ == granted@,
    {
        self.granted = granted.bits();
    }

    pub fn revoke(&mut self)
        ensures
            final(self)@ == 0,
    {
        self.granted = 0;
    }

    pub fn allows(&self, capability: Capability) -> (r: bool)
        ensures
            r == (self@ & capability.mask() != 0),
    {
        (self.granted & capability.bit()) != 0
    }

    pub fn is_admitted(&self) -> (r: bool)
        ensures
            r == (self@ != 0),
    {
        self.granted != 0
    }
}

impl Default for ModuleLaunchGate {
    fn default() -> (r: Self)
        ensures
            r@ == 0,
    {
        Self::new()
    }
}

/// Law: a revoked (or fresh) gate allows no capability at all.
pub proof fn closed_gate_denies_everything(gate: ModuleLaunchGate, capability: Capability)
    requires
        gate@ == 0,
    ensures
        !(gate@ & capability.mask() != 0),
{
    let m = capability.mask();
    assert(0u32 & m == 0) by (bit_vector);
}

} // verus!
