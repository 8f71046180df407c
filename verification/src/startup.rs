//! Startup dependency sets: which startup nodes (by index) a node waits for.

use vstd::prelude::*;

verus! {

/// A set of startup-node indices below 32, one bit per index.
#[derive(Clone, Copy, Debug, PartialEq, Eq, Structural)]
pub struct DependencySet {
    bits: u32,
}

pub open spec fn bit_of(bits: u32, index: int) -> bool {
    0 <= index < 32 && (bits >> (index as u32)) & 1u32 == 1u32
}

impl DependencySet {
    pub closed spec fn raw(self) -> u32 {
        self.bits
    }

    pub open spec fn has(self, index: int) -> bool {
        bit_of(self.raw(), index)
    }

    pub fn empty() -> (r: Self)
        ensures
            r.raw() == 0,
            forall|i: int| !#[trigger] r.has(i),
    {
        assert forall|i: u32| i < 32 implies (0u32 >> i) & 1u32 != 1u32 by {
            assert((0u32 >> i) & 1u32 != 1u32) by (bit_vector);
        }
        DependencySet { bits: 0 }
    }

    pub fn from_bits(bits: u32) -> (r: Self)
        ensures
            r.raw() == bits,
    {
        DependencySet { bits }
    }

    pub fn bits(self) -> (r: u32)
        ensures
            r == self.raw(),
    {
        self.bits
    }

    pub fn is_empty(self) -> (r: bool)
        ensures
            r == (self.raw() == 0),
    {
        self.bits == 0
    }

    /// The set with `index` added.
    pub fn with_index(self, index: usize) -> (r: Self)
        requires
            index < 32,
        ensures
            forall|i: int| #[trigger] r.has(i) == (self.has(i) || i == index),
    {
        let b = self.bits;
        let k = index as u32;
        let nb = b | (1u32 << k);
        assert forall|i: u32| i < 32 implies (((nb >> i) & 1u32 == 1u32) == (((b >> i) & 1u32 == 1u32) || i == k)) by {
            assert(k < 32 && nb == b | (1u32 << k) ==> (((nb >> i) & 1u32 == 1u32) == (((b >> i) & 1u32 == 1u32) || i == k))) by (bit_vector);
        }
        let r = DependencySet { bits: nb };
        assert forall|i: int| #[trigger] r.has(i) == (self.has(i) || i == index) by {
            if 0 <= i < 32 {
                assert(((nb >> (i as u32)) & 1u32 == 1u32) == (((b >> (i as u32)) & 1u32 == 1u32) || (i as u32) == k));
            }
        }
        r
    }

    /// Whether `index` is in the set.
    pub fn contains(self, index: usize) -> (r: bool)
        ensures
            r == self.has(index as int),
    {
        if index >= 32 {
            return false;
        }
        (self.bits >> (index as u32)) & 1u32 == 1u32
    }
}

/// One startup node: a module and the node indices it starts after.
#[derive(Clone, Copy, Debug, PartialEq, Eq, Structural)]
pub struct StartupNode {
    pub module: crate::health::ModuleId,
    pub depends_on: DependencySet,
}

impl StartupNode {
    pub fn new(module: crate::health::ModuleId, depends_on: DependencySet) -> (r: Self)
        ensures
            r == (StartupNode { module, depends_on }),
    {
        StartupNode { module, depends_on }
    }

    /// The placeholder node held by unused startup slots.
    pub fn empty() -> (r: Self)
        ensures
            r.module == crate::health::ModuleId::Kernel,
            r.depends_on.raw() == 0,
    {
        StartupNode { module: crate::health::ModuleId::Kernel, depends_on: DependencySet::empty() }
    }
}

} // verus!
