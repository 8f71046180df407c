//! Runtime capability grants derived from the static system manifest, and a
//! bounded trace of the operations performed under them.

use vstd::prelude::*;

use crate::health::{same_module, ModuleId};
use crate::manifest::{Capability, CapabilitySet, SystemManifest};

verus! {

#[derive(Clone, Copy, Debug, PartialEq, Eq, Structural)]
pub struct CapabilityGrant {
    pub module: ModuleId,
    pub granted: CapabilitySet,
}

impl CapabilityGrant {
    pub fn new(module: ModuleId, granted: CapabilitySet) -> (r: Self)
        ensures
            r == (CapabilityGrant { module, granted }),
    {
        CapabilityGrant { module, granted }
    }
}

#[derive(Clone, Copy, Debug, PartialEq, Eq, Structural)]
pub enum CapabilityGrantError {
    Full,
    Duplicate(ModuleId),
    Missing(ModuleId),
    Denied { module: ModuleId, capability: Capability },
}

#[derive(Clone, Copy, Debug, PartialEq, Eq, Structural)]
pub enum CapabilityTraceOp {
    Acquire,
    Release,
    Read,
    Write,
    Invoke,
    Fault,
}

impl CapabilityTraceOp {
    pub open spec fn spec_code(self) -> u8 {
        match self {
            CapabilityTraceOp::Acquire => 1,
            CapabilityTraceOp::Release => 2,
            CapabilityTraceOp::Read => 3,
            CapabilityTraceOp::Write => 4,
            CapabilityTraceOp::Invoke => 5,
            CapabilityTraceOp::Fault => 6,
        }
    }

    /// Stable wire code of the operation (1 through 6).
    pub fn code(self) -> (r: u8)
        ensures
            r == self.spec_code(),
    {
        match self {
            CapabilityTraceOp::Acquire => 1,
            CapabilityTraceOp::Release => 2,
            CapabilityTraceOp::Read => 3,
            CapabilityTraceOp::Write => 4,
            CapabilityTraceOp::Invoke => 5,
            CapabilityTraceOp::Fault => 6,
        }
    }
}

#[derive(Clone, Copy, Debug, PartialEq, Eq, Structural)]
pub struct CapabilityTraceRecord {
    pub seq: u32,
    pub at_us: u64,
    pub module: ModuleId,
    pub capability: Capability,
    pub op: CapabilityTraceOp,
    pub arg0: u32,
    pub arg1: u32,
    pub result: u32,
}

/// The record a trace input becomes under sequence number `seq`.
pub open spec fn record_of(seq: u32, input: CapabilityTraceInput) -> CapabilityTraceRecord {
    CapabilityTraceRecord {
        seq,
        at_us: input.at_us,
        module: input.module,
        capability: input.capability,
        op: input.op,
        arg0: input.arg0,
        arg1: input.arg1,
        result: input.result,
    }
}

impl CapabilityTraceRecord {
    /// A placeholder record for output buffers.
    pub fn empty() -> (r: Self)
        ensures
            r == (CapabilityTraceRecord {
                seq: 0,
                at_us: 0,
                module: ModuleId::Kernel,
                capability: Capability::HostReport,
                op: CapabilityTraceOp::Fault,
                arg0: 0,
                arg1: 0,
                result: 0,
            }),
    {
        CapabilityTraceRecord {
            seq: 0,
            at_us: 0,
            module: ModuleId::Kernel,
            capability: Capability::HostReport,
            op: CapabilityTraceOp::Fault,
            arg0: 0,
            arg1: 0,
            result: 0,
        }
    }

    fn from_input(seq: u32, input: CapabilityTraceInput) -> (r: Self)
        ensures
            r == record_of(seq, input),
    {
        CapabilityTraceRecord {
            seq,
            at_us: input.at_us,
            module: input.module,
            capability: input.capability,
            op: input.op,
            arg0: input.arg0,
            arg1: input.arg1,
            result: input.result,
        }
    }
}

#[derive(Clone, Copy, Debug, PartialEq, Eq, Structural)]
pub struct CapabilityTraceInput {
    pub at_us: u64,
    pub module: ModuleId,
    pub capability: Capability,
    pub op: CapabilityTraceOp,
    pub arg0: u32,
    pub arg1: u32,
    pub result: u32,
}

impl CapabilityTraceInput {
    pub fn new(module: ModuleId, capability: Capability, op: CapabilityTraceOp, at_us: u64) -> (r: Self)
        ensures
            r == (CapabilityTraceInput { at_us, module, capability, op, arg0: 0, arg1: 0, result: 0 }),
    {
        CapabilityTraceInput { at_us, module, capability, op, arg0: 0, arg1: 0, result: 0 }
    }

    pub fn args(self, arg0: u32, arg1: u32) -> (r: Self)
        ensures
            r == (CapabilityTraceInput { arg0, arg1, ..self }),
    {
        CapabilityTraceInput { arg0, arg1, ..self }
    }

    pub fn result(self, result: u32) -> (r: Self)
        ensures
            r == (CapabilityTraceInput { result, ..self }),
    {
        CapabilityTraceInput { result, ..self }
    }
}

#[derive(Clone, Copy, Debug, PartialEq, Eq, Structural)]
pub struct CapabilityReplayScope {
    pub module: Option<ModuleId>,
    pub capability: Option<Capability>,
}

impl CapabilityReplayScope {
    /// A record is in scope when it matches every filter that is set.
    pub open spec fn covers(self, record: CapabilityTraceRecord) -> bool {
        &&& (self.module matches Some(m) ==> m == record.module)
        &&& (self.capability matches Some(c) ==> c == record.capability)
    }

    pub fn all() -> (r: Self)
        ensures
            r == (CapabilityReplayScope { module: None, capability: None }),
    {
        CapabilityReplayScope { module: None, capability: None }
    }

    pub fn module(module: ModuleId) -> (r: Self)
        ensures
            r == (CapabilityReplayScope { module: Some(module), capability: None }),
    {
        CapabilityReplayScope { module: Some(module), capability: None }
    }

    pub fn capability(capability: Capability) -> (r: Self)
        ensures
            r == (CapabilityReplayScope { module: None, capability: Some(capability) }),
    {
        CapabilityReplayScope { module: None, capability: Some(capability) }
    }

    pub fn exact(module: ModuleId, capability: Capability) -> (r: Self)
        ensures
            r == (CapabilityReplayScope { module: Some(module), capability: Some(capability) }),
    {
        CapabilityReplayScope { module: Some(module), capability: Some(capability) }
    }

    pub fn matches(self, record: CapabilityTraceRecord) -> (r: bool)
        ensures
            r == self.covers(record),
    {
        let module_ok = match self.module {
            Some(module) => same_module(module, record.module),
            None => true,
        };
        let capability_ok = match self.capability {
            Some(capability) => capability == record.capability,
            None => true,
        };
        module_ok && capability_ok
    }
}

impl Default for CapabilityReplayScope {
    fn default() -> (r: Self)
        ensures
            r == (CapabilityReplayScope { module: None, capability: None }),
    {
        Self::all()
    }
}

#[derive(Clone, Copy, Debug, PartialEq, Eq, Structural)]
pub enum CapabilityTraceError {
    Unauthorized(CapabilityGrantError),
}

/// The records of `s` that `scope` covers, in order.
pub open spec fn in_scope(s: Seq<CapabilityTraceRecord>, scope: CapabilityReplayScope) -> Seq<CapabilityTraceRecord>
    decreases s.len(),
{
    if s.len() == 0 {
        s
    } else {
        let prev = in_scope(s.drop_last(), scope);
        if scope.covers(s.last()) {
            prev.push(s.last())
        } else {
            prev
        }
    }
}

/// The unfiltered scope keeps every record.
pub proof fn lemma_all_scope(s: Seq<CapabilityTraceRecord>)
    ensures
        in_scope(s, CapabilityReplayScope { module: None, capability: None }) == s,
    decreases s.len(),
{
    if s.len() > 0 {
        lemma_all_scope(s.drop_last());
        assert(s.drop_last().push(s.last()) =~= s);
    }
}

/// Length of [`in_scope`] never exceeds the input length.
proof fn lemma_in_scope_len(s: Seq<CapabilityTraceRecord>, scope: CapabilityReplayScope)
    ensures
        in_scope(s, scope).len() <= s.len(),
    decreases s.len(),
{
    if s.len() > 0 {
        lemma_in_scope_len(s.drop_last(), scope);
    }
}

/// Bounded trace that keeps the newest `N` records.
#[derive(Debug)]
pub struct CapabilityTrace<const N: usize> {
    records: [Option<CapabilityTraceRecord>; N],
    next: usize,
    len: usize,
    seq: u32,
    dropped: u32,
}

impl<const N: usize> CapabilityTrace<N> {
    pub closed spec fn replay_index(self, offset: int) -> int {
        if self.len == N {
            if self.next + offset < N {
                self.next + offset
            } else {
                self.next + offset - N
            }
        } else {
            offset
        }
    }

    /// The retained records, oldest first.
    pub closed spec fn view(self) -> Seq<CapabilityTraceRecord> {
        Seq::new(self.len as nat, |i: int| self.records@[self.replay_index(i)].unwrap())
    }

    pub closed spec fn spec_dropped(self) -> u32 {
        self.dropped
    }

    pub closed spec fn spec_next_sequence(self) -> u32 {
        self.seq
    }

    pub closed spec fn wf(self) -> bool {
        &&& self.len <= N
        &&& (N == 0 ==> self.len == 0 && self.next == 0)
        &&& (N > 0 ==> self.next < N)
        &&& (self.len < N ==> self.next == self.len)
        &&& forall|i: int| 0 <= i < self.len ==> (#[trigger] self.records@[self.replay_index(i)]) is Some
    }

    pub fn new() -> (r: Self)
        ensures
            r.wf(),
            r@ =~= Seq::<CapabilityTraceRecord>::empty(),
            r.spec_dropped() == 0,
            r.spec_next_sequence() == 0,
    {
        CapabilityTrace { records: [None; N], next: 0, len: 0, seq: 0, dropped: 0 }
    }

    /// Record an operation only after the grant table authorizes it.
    pub fn record_authorized<const G: usize>(&mut self, grants: &CapabilityGrantTable<G>, input: CapabilityTraceInput) -> (r: Result<CapabilityTraceRecord, CapabilityTraceError>)
        requires
            old(self).wf(),
            grants.wf(),
        ensures
            final(self).wf(),
            grants.decision(input.module, input.capability) matches Err(e) ==> r == Err::<CapabilityTraceRecord, CapabilityTraceError>(CapabilityTraceError::Unauthorized(e)) && *final(self) == *old(self),
            grants.decision(input.module, input.capability) is Ok ==> {
                &&& r == Ok::<CapabilityTraceRecord, CapabilityTraceError>(record_of(old(self).spec_next_sequence(), input))
                &&& final(self).appended(*old(self), record_of(old(self).spec_next_sequence(), input))
            },
    {
        match grants.authorize(input.module, input.capability) {
            Err(e) => Err(CapabilityTraceError::Unauthorized(e)),
            Ok(()) => Ok(self.record(input)),
        }
    }

    /// `self` is `before` after appending `record`: the oldest record is evicted
    /// (and counted as dropped) when full, and the sequence number advances.
    pub open spec fn appended(self, before: Self, record: CapabilityTraceRecord) -> bool {
        &&& self.spec_next_sequence() == before.spec_next_sequence().wrapping_add(1)
        &&& (N == 0 ==> self@ == before@ && self.spec_dropped() == before.spec_dropped().saturating_add(1))
        &&& (N > 0 && before@.len() < N ==> self@ == before@.push(record) && self.spec_dropped() == before.spec_dropped())
        &&& (N > 0 && before@.len() == N ==> self@ == before@.push(record).skip(1) && self.spec_dropped() == before.spec_dropped().saturating_add(1))
    }

    pub(crate) fn record(&mut self, input: CapabilityTraceInput) -> (r: CapabilityTraceRecord)
        requires
            old(self).wf(),
        ensures
            final(self).wf(),
            r == record_of(old(self).spec_next_sequence(), input),
            final(self).appended(*old(self), r),
    {
        let record = CapabilityTraceRecord::from_input(self.seq, input);
        self.seq = self.seq.wrapping_add(1);
        if N == 0 {
            self.dropped = self.dropped.saturating_add(1);
            assert(self@ =~= old(self)@);
            return record;
        }
        let ghost before = *old(self);
        if self.len == N {
            self.dropped = self.dropped.saturating_add(1);
        } else {
            self.len += 1;
        }
        self.records[self.next] = Some(record);
        self.next = if self.next + 1 == N { 0 } else { self.next + 1 };
        proof {
            if before.len == N {
                assert forall|i: int| 0 <= i < self.len implies (#[trigger] self.records@[self.replay_index(i)]) is Some by {
                    if i < N - 1 {
                        assert(before.replay_index(i + 1) == self.replay_index(i));
                    } else {
                        assert(self.replay_index(i) == before.next);
                    }
                }
                assert forall|i: int| 0 <= i < self.len implies #[trigger] self@[i] == before@.push(record).skip(1)[i] by {
                    if i < N - 1 {
                        assert(before.replay_index(i + 1) == self.replay_index(i));
                    } else {
                        assert(self.replay_index(i) == before.next);
                    }
                }
                assert(self@ =~= before@.push(record).skip(1));
            } else {
                assert forall|i: int| 0 <= i < self.len implies (#[trigger] self.records@[self.replay_index(i)]) is Some by {
                    if i < before.len {
                        assert(before.replay_index(i) == i);
                    }
                }
                assert(self@ =~= before@.push(record));
            }
        }
        record
    }

    /// Copy the in-scope records, oldest first, into `out`; returns how many were copied.
    pub fn copy_replay(&self, scope: CapabilityReplayScope, out: &mut [CapabilityTraceRecord]) -> (r: usize)
        requires
            self.wf(),
        ensures
            r == vstd::math::min(in_scope(self@, scope).len() as int, old(out)@.len() as int),
            final(out)@.len() == old(out)@.len(),
            forall|i: int| 0 <= i < r ==> final(out)@[i] == in_scope(self@, scope)[i],
            forall|i: int| r <= i < old(out)@.len() ==> final(out)@[i] == old(out)@[i],
    {
        let mut copied: usize = 0;
        let mut i: usize = 0;
        while i < self.len
            invariant
                self.wf(),
                i <= self.len,
                copied == in_scope(self@.subrange(0, i as int), scope).len(),
                copied <= out@.len(),
                out@.len() == old(out)@.len(),
                forall|k: int| 0 <= k < copied ==> out@[k] == in_scope(self@.subrange(0, i as int), scope)[k],
                forall|k: int| copied <= k < old(out)@.len() ==> out@[k] == old(out)@[k],
            decreases self.len - i,
        {
            if copied == out.len() {
                proof {
                    Self::lemma_prefix_stable(self@, scope, i as int);
                }
                return copied;
            }
            let index = self.index_in_replay_order(i);
            let record = self.records[index].unwrap();
            proof {
                assert(self@[i as int] == record);
                assert(self@.subrange(0, i + 1).drop_last() =~= self@.subrange(0, i as int));
                assert(self@.subrange(0, i + 1).last() == record);
            }
            if scope.matches(record) {
                out[copied] = record;
                copied += 1;
            }
            i += 1;
        }
        proof {
            assert(self@.subrange(0, self.len as int) =~= self@);
        }
        copied
    }

    /// Once the output is full after a prefix of `s`, the in-scope prefix of
    /// that length never changes as `s` grows.
    proof fn lemma_prefix_stable(s: Seq<CapabilityTraceRecord>, scope: CapabilityReplayScope, i: int)
        requires
            0 <= i <= s.len(),
        ensures
            forall|k: int| 0 <= k < in_scope(s.subrange(0, i), scope).len() ==> #[trigger] in_scope(s, scope)[k] == in_scope(s.subrange(0, i), scope)[k],
            in_scope(s.subrange(0, i), scope).len() <= in_scope(s, scope).len(),
        decreases s.len() - i,
    {
        if i < s.len() {
            Self::lemma_prefix_stable(s, scope, i + 1);
            assert(s.subrange(0, i + 1).drop_last() =~= s.subrange(0, i));
        } else {
            assert(s.subrange(0, i) =~= s);
        }
    }

    /// Number of retained records in scope.
    pub fn matching_count(&self, scope: CapabilityReplayScope) -> (r: usize)
        requires
            self.wf(),
        ensures
            r == in_scope(self@, scope).len(),
    {
        let mut count: usize = 0;
        let mut i: usize = 0;
        while i < self.len
            invariant
                self.wf(),
                i <= self.len,
                count == in_scope(self@.subrange(0, i as int), scope).len(),
            decreases self.len - i,
        {
            let index = self.index_in_replay_order(i);
            let record = self.records[index].unwrap();
            proof {
                assert(self@[i as int] == record);
                assert(self@.subrange(0, i + 1).drop_last() =~= self@.subrange(0, i as int));
                lemma_in_scope_len(self@.subrange(0, i as int), scope);
            }
            if scope.matches(record) {
                count += 1;
            }
            i += 1;
        }
        proof {
            assert(self@.subrange(0, self.len as int) =~= self@);
        }
        count
    }

    pub fn len(&self) -> (r: usize)
        requires
            self.wf(),
        ensures
            r == self@.len(),
    {
        self.len
    }

    pub fn is_empty(&self) -> (r: bool)
        requires
            self.wf(),
        ensures
            r == (self@.len() == 0),
    {
        self.len == 0
    }

    pub fn capacity(&self) -> (r: usize)
        ensures
            r == N,
    {
        N
    }

    pub fn dropped(&self) -> (r: u32)
        ensures
            r == self.spec_dropped(),
    {
        self.dropped
    }

    pub fn next_sequence(&self) -> (r: u32)
        ensures
            r == self.spec_next_sequence(),
    {
        self.seq
    }

    fn index_in_replay_order(&self, offset: usize) -> (r: usize)
        requires
            self.wf(),
            offset < self.len,
        ensures
            r == self.replay_index(offset as int),
            r < N,
    {
        if self.len == N {
            if offset < N - self.next {
                self.next + offset
            } else {
                offset - (N - self.next)
            }
        } else {
            offset
        }
    }
}

impl<const N: usize> Default for CapabilityTrace<N> {
    fn default() -> (r: Self)
        ensures
            r.wf(),
            r@ =~= Seq::<CapabilityTraceRecord>::empty(),
            r.spec_dropped() == 0,
            r.spec_next_sequence() == 0,
    {
        Self::new()
    }
}

/// Number of occupied slots.
pub open spec fn occupied(s: Seq<Option<CapabilityGrant>>) -> nat
    decreases s.len(),
{
    if s.len() == 0 {
        0
    } else {
        occupied(s.drop_last()) + if s.last() is Some {
            1nat
        } else {
            0nat
        }
    }
}

/// Fixed-capacity table of per-module capability grants.
#[derive(Debug)]
pub struct CapabilityGrantTable<const N: usize> {
    grants: [Option<CapabilityGrant>; N],
}

impl<const N: usize> CapabilityGrantTable<N> {
    pub closed spec fn holds(self, m: ModuleId, i: int) -> bool {
        0 <= i < N && self.grants@[i] is Some && self.grants@[i].unwrap().module == m
    }

    pub closed spec fn full(self) -> bool {
        forall|i: int| 0 <= i < N ==> self.grants@[i] is Some
    }

    pub closed spec fn wf(self) -> bool {
        forall|i: int, j: int, m: ModuleId|
            #![trigger self.holds(m, i), self.holds(m, j)]
            self.holds(m, i) && self.holds(m, j) ==> i == j
    }

    /// Granted capabilities of every registered module.
    pub closed spec fn view(self) -> Map<ModuleId, CapabilitySet> {
        Map::new(
            |m: ModuleId| exists|i: int| self.holds(m, i),
            |m: ModuleId| self.grants@[choose|i: int| self.holds(m, i)].unwrap().granted,
        )
    }

    /// Number of registered grants.
    pub closed spec fn count(self) -> nat {
        occupied(self.grants@)
    }

    /// The authorization decision for `module` using `capability`.
    pub open spec fn decision(self, module: ModuleId, capability: Capability) -> Result<(), CapabilityGrantError> {
        if !self.view().contains_key(module) {
            Err(CapabilityGrantError::Missing(module))
        } else if self.view()[module].has(capability) {
            Ok(())
        } else {
            Err(CapabilityGrantError::Denied { module, capability })
        }
    }

    pub fn new() -> (r: Self)
        ensures
            r.wf(),
            r.view() =~= Map::<ModuleId, CapabilitySet>::empty(),
            r.count() == 0,
            N > 0 ==> !r.full(),
    {
        let r = CapabilityGrantTable { grants: [None; N] };
        assert forall|m: ModuleId| !#[trigger] r.view().contains_key(m) by {
            if exists|i: int| r.holds(m, i) {
                let i = choose|i: int| r.holds(m, i);
                assert(r.grants@[i] is None);
            }
        }
        if N > 0 {
            assert(r.grants@[0] is None);
        }
        assert(occupied(r.grants@) == 0) by {
            Self::lemma_occupied_none(r.grants@);
        }
        r
    }

    proof fn lemma_occupied_none(s: Seq<Option<CapabilityGrant>>)
        requires
            forall|i: int| 0 <= i < s.len() ==> s[i] is None,
        ensures
            occupied(s) == 0,
        decreases s.len(),
    {
        if s.len() > 0 {
            Self::lemma_occupied_none(s.drop_last());
        }
    }

    proof fn lemma_occupied_fill(s: Seq<Option<CapabilityGrant>>, i: int, g: CapabilityGrant)
        requires
            0 <= i < s.len(),
            s[i] is None,
        ensures
            occupied(s.update(i, Some(g))) == occupied(s) + 1,
        decreases s.len(),
    {
        if i == s.len() - 1 {
            assert(s.update(i, Some(g)).drop_last() =~= s.drop_last());
        } else {
            Self::lemma_occupied_fill(s.drop_last(), i, g);
            assert(s.update(i, Some(g)).drop_last() =~= s.drop_last().update(i, Some(g)));
        }
    }

    proof fn lemma_lookup(self, m: ModuleId, i: int)
        requires
            self.wf(),
            self.holds(m, i),
        ensures
            self.view().contains_key(m),
            self.view()[m] == self.grants@[i].unwrap().granted,
    {
        assert(exists|j: int| self.holds(m, j));
        let j = choose|j: int| self.holds(m, j);
        assert(self.holds(m, j));
        assert(i == j);
    }

    proof fn lemma_absent(self, m: ModuleId)
        requires
            forall|i: int| 0 <= i < N ==> !self.holds(m, i),
        ensures
            !self.view().contains_key(m),
    {
    }

    /// Register `module` with `granted` in the first free slot.
    pub fn register(&mut self, module: ModuleId, granted: CapabilitySet) -> (r: Result<(), CapabilityGrantError>)
        requires
            old(self).wf(),
        ensures
            final(self).wf(),
            old(self).view().contains_key(module) ==> r == Err::<(), CapabilityGrantError>(CapabilityGrantError::Duplicate(module)),
            !old(self).view().contains_key(module) && old(self).full() ==> r == Err::<(), CapabilityGrantError>(CapabilityGrantError::Full),
            r is Err ==> *final(self) == *old(self),
            r is Ok <==> !old(self).view().contains_key(module) && !old(self).full(),
            r is Ok ==> final(self).view() =~= old(self).view().insert(module, granted) && final(self).count() == old(self).count() + 1,
    {
        if self.find_index(module).is_some() {
            return Err(CapabilityGrantError::Duplicate(module));
        }
        let mut free: usize = 0;
        while free < N
            invariant
                self.wf(),
                *self == *old(self),
                free <= N,
                !self.view().contains_key(module),
                forall|j: int| 0 <= j < free ==> self.grants@[j] is Some,
            decreases N - free,
        {
            if self.grants[free].is_none() {
                let ghost before = *self;
                let grant = CapabilityGrant::new(module, granted);
                self.grants[free] = Some(grant);
                proof {
                    Self::lemma_occupied_fill(before.grants@, free as int, grant);
                    assert(self.grants@ =~= before.grants@.update(free as int, Some(grant)));
                    assert forall|a: int, b: int, k: ModuleId|
                        #![trigger self.holds(k, a), self.holds(k, b)]
                        self.holds(k, a) && self.holds(k, b) implies a == b by {
                        if a != free && b != free {
                            assert(before.holds(k, a) && before.holds(k, b));
                        } else if a == free && b != free {
                            before.lemma_lookup(k, b);
                        } else if a != free && b == free {
                            before.lemma_lookup(k, a);
                        }
                    }
                    assert forall|k: ModuleId| #[trigger] self.view().contains_key(k) == before.view().insert(module, granted).contains_key(k) by {
                        if k == module {
                            assert(self.holds(module, free as int));
                        } else {
                            if exists|j: int| self.holds(k, j) {
                                let j = choose|j: int| self.holds(k, j);
                                assert(before.holds(k, j));
                            }
                            if exists|j: int| before.holds(k, j) {
                                let j = choose|j: int| before.holds(k, j);
                                assert(self.holds(k, j));
                            }
                        }
                    }
                    assert forall|k: ModuleId| #[trigger] self.view().contains_key(k) implies self.view()[k] == before.view().insert(module, granted)[k] by {
                        if k == module {
                            self.lemma_lookup(module, free as int);
                        } else {
                            let j = choose|j: int| self.holds(k, j);
                            assert(self.holds(k, j));
                            self.lemma_lookup(k, j);
                            assert(before.holds(k, j));
                            before.lemma_lookup(k, j);
                        }
                    }
                    assert(self.view() =~= before.view().insert(module, granted));
                }
                return Ok(());
            }
            free += 1;
        }
        Err(CapabilityGrantError::Full)
    }

    /// Grant every manifest module the union of what it requires and owns.
    pub fn from_manifest<const M: usize>(manifest: &SystemManifest<M>) -> (r: Result<Self, CapabilityGrantError>)
        requires
            manifest.wf(),
        ensures
            r is Ok <==> manifest.view().len() <= N,
            r is Err ==> r == Err::<Self, CapabilityGrantError>(CapabilityGrantError::Full),
            r matches Ok(t) ==> {
                &&& t.wf()
                &&& t.count() == manifest.view().len()
                &&& t.view().dom() =~= Set::new(|m: ModuleId| exists|i: int| 0 <= i < manifest.view().len() && manifest.view()[i].id == m)
                &&& forall|i: int| 0 <= i < manifest.view().len() ==> #[trigger] t.view()[manifest.view()[i].id]@ == (manifest.view()[i].required@ | manifest.view()[i].owns@)
            },
    {
        let mut table = Self::new();
        let len = manifest.len();
        let mut i: usize = 0;
        while i < len
            invariant
                manifest.wf(),
                len == manifest.view().len(),
                len <= M,
                i <= len,
                table.wf(),
                table.count() == i,
                i <= N,
                table.view().dom() =~= Set::new(|m: ModuleId| exists|k: int| 0 <= k < i && manifest.view()[k].id == m),
                forall|k: int| 0 <= k < i ==> #[trigger] table.view()[manifest.view()[k].id]@ == (manifest.view()[k].required@ | manifest.view()[k].owns@),
            decreases len - i,
        {
            let spec = manifest.get(i);
            proof {
                if table.view().contains_key(spec.id) {
                    let k = choose|k: int| 0 <= k < i && manifest.view()[k].id == spec.id;
                    assert(manifest.view()[k].id == manifest.view()[i as int].id);
                    assert(false) by {
                        Self::lemma_manifest_unique(manifest, k, i as int);
                    }
                }
                if i < N {
                    Self::lemma_not_full(table);
                } else {
                    Self::lemma_count_full(table.grants@);
                    Self::lemma_occupied_bound(table.grants@);
                }
            }
            match table.register(spec.id, spec.required.union(spec.owns)) {
                Ok(()) => {},
                Err(e) => {
                    return Err(e);
                },
            }
            i += 1;
        }
        Ok(table)
    }

    proof fn lemma_manifest_unique<const M: usize>(manifest: &SystemManifest<M>, a: int, b: int)
        requires
            manifest.wf(),
            0 <= a < b < manifest.view().len(),
        ensures
            manifest.view()[a].id != manifest.view()[b].id,
    {
        manifest.lemma_unique(a, b);
    }

    proof fn lemma_not_full(t: Self)
        requires
            t.count() < N,
        ensures
            !t.full(),
    {
        if t.full() {
            Self::lemma_occupied_all(t.grants@);
        }
    }

    proof fn lemma_occupied_bound(s: Seq<Option<CapabilityGrant>>)
        ensures
            occupied(s) <= s.len(),
        decreases s.len(),
    {
        if s.len() > 0 {
            Self::lemma_occupied_bound(s.drop_last());
        }
    }

    proof fn lemma_count_full(s: Seq<Option<CapabilityGrant>>)
        requires
            occupied(s) >= s.len(),
        ensures
            forall|i: int| 0 <= i < s.len() ==> s[i] is Some,
        decreases s.len(),
    {
        if s.len() > 0 {
            Self::lemma_occupied_bound(s.drop_last());
            Self::lemma_count_full(s.drop_last());
            assert forall|i: int| 0 <= i < s.len() implies s[i] is Some by {
                if i < s.len() - 1 {
                    assert(s.drop_last()[i] == s[i]);
                }
            }
        }
    }

    proof fn lemma_occupied_all(s: Seq<Option<CapabilityGrant>>)
        requires
            forall|i: int| 0 <= i < s.len() ==> s[i] is Some,
        ensures
            occupied(s) == s.len(),
        decreases s.len(),
    {
        if s.len() > 0 {
            Self::lemma_occupied_all(s.drop_last());
        }
    }

    pub fn authorize(&self, module: ModuleId, capability: Capability) -> (r: Result<(), CapabilityGrantError>)
        requires
            self.wf(),
        ensures
            r == self.decision(module, capability),
    {
        let Some(index) = self.find_index(module) else {
            return Err(CapabilityGrantError::Missing(module));
        };
        let grant = self.grants[index].unwrap();
        if grant.granted.contains(capability) {
            Ok(())
        } else {
            Err(CapabilityGrantError::Denied { module, capability })
        }
    }

    pub fn granted(&self, module: ModuleId) -> (r: Option<CapabilitySet>)
        requires
            self.wf(),
        ensures
            r == (if self.view().contains_key(module) {
                Some(self.view()[module])
            } else {
                None
            }),
    {
        match self.find_index(module) {
            Some(index) => Some(self.grants[index].unwrap().granted),
            None => None,
        }
    }

    pub fn len(&self) -> (r: usize)
        ensures
            r == self.count(),
    {
        let mut count: usize = 0;
        let mut i: usize = 0;
        while i < N
            invariant
                i <= N,
                count == occupied(self.grants@.subrange(0, i as int)),
                count <= i,
            decreases N - i,
        {
            proof {
                assert(self.grants@.subrange(0, i + 1).drop_last() =~= self.grants@.subrange(0, i as int));
            }
            if self.grants[i].is_some() {
                count += 1;
            }
            i += 1;
        }
        proof {
            assert(self.grants@.subrange(0, N as int) =~= self.grants@);
        }
        count
    }

    pub fn is_empty(&self) -> (r: bool)
        ensures
            r == (self.count() == 0),
    {
        self.len() == 0
    }

    fn find_index(&self, module: ModuleId) -> (r: Option<usize>)
        requires
            self.wf(),
        ensures
            r matches Some(i) ==> i < N && self.holds(module, i as int) && self.view().contains_key(module)
                && self.view()[module] == self.grants@[i as int].unwrap().granted,
            r is None ==> !self.view().contains_key(module),
    {
        let mut i: usize = 0;
        while i < N
            invariant
                self.wf(),
                i <= N,
                forall|j: int| 0 <= j < i ==> !self.holds(module, j),
            decreases N - i,
        {
            match self.grants[i] {
                Some(grant) => {
                    if same_module(grant.module, module) {
                        proof {
                            self.lemma_lookup(module, i as int);
                        }
                        return Some(i);
                    }
                },
                None => {},
            }
            i += 1;
        }
        None
    }
}

impl<const N: usize> Default for CapabilityGrantTable<N> {
    fn default() -> (r: Self)
        ensures
            r.wf(),
            r.view() =~= Map::<ModuleId, CapabilitySet>::empty(),
            r.count() == 0,
    {
        Self::new()
    }
}

/// Law: registering a module grants exactly the declared set, so it is
/// authorized for each declared capability and denied every other one.
pub proof fn registered_grants_decide_authorization<const N: usize>(
    before: CapabilityGrantTable<N>,
    after: CapabilityGrantTable<N>,
    module: ModuleId,
    granted: CapabilitySet,
    capability: Capability,
)
    requires
        after.view() =~= before.view().insert(module, granted),
    ensures
        granted.has(capability) ==> after.decision(module, capability) is Ok,
        !granted.has(capability) ==> after.decision(module, capability) == Err::<(), CapabilityGrantError>(
            CapabilityGrantError::Denied { module, capability },
        ),
{
}

} // verus!
