//! Dispatcher-owned identity, authorization, quota, and trace for foreign
//! host calls, and the validation of foreign byte ranges.

use vstd::prelude::*;

use crate::capability::{
    record_of, CapabilityGrantTable, CapabilityReplayScope, CapabilityTrace, CapabilityTraceInput,
    CapabilityTraceOp, CapabilityTraceRecord,
};
use crate::health::ModuleId;
use crate::launch_gate::ModuleLaunchGate;
use crate::manifest::{Capability, CapabilitySet};

verus! {

#[derive(Clone, Copy, Debug, PartialEq, Eq, Structural)]
pub struct ForeignHostQuota {
    pub max_calls: u32,
    pub max_bytes: u32,
}

impl ForeignHostQuota {
    pub fn new(max_calls: u32, max_bytes: u32) -> (r: Self)
        ensures
            r == (ForeignHostQuota { max_calls, max_bytes }),
    {
        ForeignHostQuota { max_calls, max_bytes }
    }
}

#[derive(Clone, Copy, Debug, PartialEq, Eq, Structural)]
pub struct ForeignHostUsage {
    pub calls: u32,
    pub bytes: u32,
}

#[derive(Clone, Copy, Debug, PartialEq, Eq, Structural)]
pub enum ForeignHostError {
    NotAdmitted,
    CapabilityDenied,
    QuotaExceeded,
}

#[derive(Clone, Copy, Debug, PartialEq, Eq, Structural)]
pub enum ForeignBufferError {
    Null,
    Empty,
    TooLong,
    AddressOverflow,
    Overlap,
}

/// The verdict on one foreign range given by its start address.
pub open spec fn range_verdict(address: usize, len: u32, max_len: u32, allow_empty: bool) -> Result<usize, ForeignBufferError> {
    if len == 0 {
        if allow_empty { Ok(0) } else { Err(ForeignBufferError::Empty) }
    } else if address == 0 {
        Err(ForeignBufferError::Null)
    } else if len > max_len {
        Err(ForeignBufferError::TooLong)
    } else if address + len > usize::MAX {
        Err(ForeignBufferError::AddressOverflow)
    } else {
        Ok(len as usize)
    }
}

/// Validate a foreign byte range: empty only when allowed, never at address
/// zero, at most `max_len` bytes, and not wrapping the address space.
pub fn validate_foreign_range(address: usize, len: u32, max_len: u32, allow_empty: bool) -> (r: Result<usize, ForeignBufferError>)
    ensures
        r == range_verdict(address, len, max_len, allow_empty),
{
    if len == 0 {
        return if allow_empty { Ok(0) } else { Err(ForeignBufferError::Empty) };
    }
    if address == 0 {
        return Err(ForeignBufferError::Null);
    }
    if len > max_len {
        return Err(ForeignBufferError::TooLong);
    }
    let len = len as usize;
    if address.checked_add(len).is_none() {
        return Err(ForeignBufferError::AddressOverflow);
    }
    Ok(len)
}

/// Validate a foreign read-only range that starts at `address`; a zero
/// address is accepted only for an explicitly allowed empty range.
pub fn validate_foreign_read(address: usize, len: u32, max_len: u32, allow_empty: bool) -> (r: Result<usize, ForeignBufferError>)
    ensures
        r == range_verdict(address, len, max_len, allow_empty),
{
    let len = validate_foreign_range(address, len, max_len, allow_empty)?;
    if len != 0 && address == 0 {
        return Err(ForeignBufferError::Null);
    }
    Ok(len)
}

/// The verdict on a duplex operation: both phases valid and non-empty, and
/// the two ranges disjoint.
pub open spec fn read_write_verdict(read: usize, read_len: u32, write: usize, write_len: u32, max_phase_len: u32) -> Result<(usize, usize), ForeignBufferError> {
    match range_verdict(read, read_len, max_phase_len, false) {
        Err(e) => Err(e),
        Ok(rl) => match range_verdict(write, write_len, max_phase_len, false) {
            Err(e) => Err(e),
            Ok(wl) => if read < write + wl && write < read + rl {
                Err(ForeignBufferError::Overlap)
            } else {
                Ok((rl, wl))
            },
        },
    }
}

/// Validate disjoint read/write ranges for a foreign duplex operation.
pub fn validate_foreign_read_write(read: usize, read_len: u32, write: usize, write_len: u32, max_phase_len: u32) -> (r: Result<(usize, usize), ForeignBufferError>)
    ensures
        r == read_write_verdict(read, read_len, write, write_len, max_phase_len),
{
    let read_len = match validate_foreign_read(read, read_len, max_phase_len, false) {
        Ok(len) => len,
        Err(e) => {
            return Err(e);
        },
    };
    let write_len = match validate_foreign_range(write, write_len, max_phase_len, false) {
        Ok(len) => len,
        Err(e) => {
            return Err(e);
        },
    };
    if write == 0 {
        return Err(ForeignBufferError::Null);
    }
    let read_end = match read.checked_add(read_len) {
        Some(end) => end,
        None => {
            return Err(ForeignBufferError::AddressOverflow);
        },
    };
    let write_end = match write.checked_add(write_len) {
        Some(end) => end,
        None => {
            return Err(ForeignBufferError::AddressOverflow);
        },
    };
    if read < write_end && write < read_end {
        return Err(ForeignBufferError::Overlap);
    }
    Ok((read_len, write_len))
}

#[derive(Clone, Copy, Debug, PartialEq, Eq, Structural)]
pub struct ForeignHostCall {
    pub capability: Capability,
    pub op: CapabilityTraceOp,
    pub at_us: u64,
    pub arg0: u32,
    pub arg1: u32,
    pub bytes: u32,
}

impl ForeignHostCall {
    pub fn new(capability: Capability, op: CapabilityTraceOp, at_us: u64) -> (r: Self)
        ensures
            r == (ForeignHostCall { capability, op, at_us, arg0: 0, arg1: 0, bytes: 0 }),
    {
        ForeignHostCall { capability, op, at_us, arg0: 0, arg1: 0, bytes: 0 }
    }

    pub fn args(self, arg0: u32, arg1: u32) -> (r: Self)
        ensures
            r == (ForeignHostCall { arg0, arg1, ..self }),
    {
        ForeignHostCall { arg0, arg1, ..self }
    }

    pub fn bytes(self, bytes: u32) -> (r: Self)
        ensures
            r == (ForeignHostCall { bytes, ..self }),
    {
        ForeignHostCall { bytes, ..self }
    }
}

/// The trace input for a call by `module`, with the given operation and result.
pub open spec fn call_input(module: ModuleId, call: ForeignHostCall, op: CapabilityTraceOp, with_args: bool, result: u32) -> CapabilityTraceInput {
    CapabilityTraceInput {
        at_us: call.at_us,
        module,
        capability: call.capability,
        op,
        arg0: if with_args { call.arg0 } else { 0 },
        arg1: if with_args { call.arg1 } else { 0 },
        result,
    }
}

/// The only entry point for a foreign module to invoke a protected host operation.
pub struct ForeignHostContext<'a, const TRACE: usize> {
    gate: &'a ModuleLaunchGate,
    quota: ForeignHostQuota,
    module: Option<ModuleId>,
    grants: CapabilityGrantTable<1>,
    trace: CapabilityTrace<TRACE>,
    usage: ForeignHostUsage,
}

impl<'a, const TRACE: usize> ForeignHostContext<'a, TRACE> {
    pub closed spec fn spec_module(self) -> Option<ModuleId> {
        self.module
    }

    pub closed spec fn spec_usage(self) -> ForeignHostUsage {
        self.usage
    }

    pub closed spec fn spec_quota(self) -> ForeignHostQuota {
        self.quota
    }

    pub closed spec fn spec_trace(self) -> CapabilityTrace<TRACE> {
        self.trace
    }

    pub closed spec fn spec_grants(self) -> CapabilityGrantTable<1> {
        self.grants
    }

    pub closed spec fn gate_bits(self) -> u32 {
        self.gate@
    }

    pub closed spec fn wf(self) -> bool {
        self.grants.wf() && self.trace.wf()
    }

    pub fn new(gate: &'a ModuleLaunchGate, quota: ForeignHostQuota) -> (r: Self)
        ensures
            r.wf(),
            r.spec_module() is None,
            r.spec_usage() == (ForeignHostUsage { calls: 0, bytes: 0 }),
            r.spec_quota() == quota,
            r.spec_trace()@.len() == 0,
            r.gate_bits() == gate@,
    {
        ForeignHostContext {
            gate,
            quota,
            module: None,
            grants: CapabilityGrantTable::new(),
            trace: CapabilityTrace::new(),
            usage: ForeignHostUsage { calls: 0, bytes: 0 },
        }
    }

    /// Start a fresh session for `module` with its granted capabilities:
    /// usage and trace are cleared.
    pub fn admit_grant(&mut self, module: ModuleId, granted: CapabilitySet)
        requires
            old(self).wf(),
        ensures
            final(self).wf(),
            final(self).spec_module() == Some(module),
            final(self).spec_usage() == (ForeignHostUsage { calls: 0, bytes: 0 }),
            final(self).spec_quota() == old(self).spec_quota(),
            final(self).gate_bits() == old(self).gate_bits(),
            final(self).spec_trace()@.len() == 0,
            final(self).spec_trace().spec_next_sequence() == 0,
            final(self).spec_grants().view() == map![module => granted],
    {
        self.grants = CapabilityGrantTable::new();
        self.trace = CapabilityTrace::new();
        self.usage = ForeignHostUsage { calls: 0, bytes: 0 };
        self.module = Some(module);
        let _ = self.grants.register(module, granted);
        assert(self.grants.view() =~= map![module => granted]);
    }

    /// Invoke a protected host operation for the admitted module: refused
    /// without a session, refused and traced as a fault without an open gate
    /// or a grant, refused and traced as a fault past the quota; otherwise the
    /// usage is charged, the start is traced, the operation runs once, and its
    /// status is traced and returned.
    pub fn invoke<F: FnOnce() -> i32>(&mut self, call: ForeignHostCall, operation: F) -> (r: Result<i32, ForeignHostError>)
        requires
            old(self).wf(),
            operation.requires(()),
        ensures
            final(self).wf(),
            final(self).spec_module() == old(self).spec_module(),
            final(self).spec_quota() == old(self).spec_quota(),
            final(self).spec_grants() == old(self).spec_grants(),
            final(self).gate_bits() == old(self).gate_bits(),
            old(self).spec_module() is None ==> r == Err::<i32, ForeignHostError>(ForeignHostError::NotAdmitted)
                && final(self).spec_trace() == old(self).spec_trace() && final(self).spec_usage() == old(self).spec_usage(),
            old(self).spec_module() matches Some(m) ==> {
                let denied = old(self).gate_bits() == 0 || old(self).spec_grants().decision(m, call.capability) is Err;
                let calls = old(self).spec_usage().calls.saturating_add(1);
                let bytes = old(self).spec_usage().bytes.saturating_add(call.bytes);
                let over = calls > old(self).spec_quota().max_calls || bytes > old(self).spec_quota().max_bytes;
                &&& denied ==> r == Err::<i32, ForeignHostError>(ForeignHostError::CapabilityDenied)
                    && final(self).spec_usage() == old(self).spec_usage()
                    && final(self).spec_trace().appended(old(self).spec_trace(), record_of(
                        old(self).spec_trace().spec_next_sequence(), call_input(m, call, CapabilityTraceOp::Fault, false, 0)))
                &&& !denied && over ==> r == Err::<i32, ForeignHostError>(ForeignHostError::QuotaExceeded)
                    && final(self).spec_usage() == old(self).spec_usage()
                    && final(self).spec_trace().appended(old(self).spec_trace(), record_of(
                        old(self).spec_trace().spec_next_sequence(), call_input(m, call, CapabilityTraceOp::Fault, true, 2)))
                &&& !denied && !over ==> exists|status: i32, started: CapabilityTrace<TRACE>| {
                    &&& operation.ensures((), status)
                    &&& r == Ok::<i32, ForeignHostError>(status)
                    &&& final(self).spec_usage() == (ForeignHostUsage { calls, bytes })
                    &&& started.appended(old(self).spec_trace(), record_of(
                        old(self).spec_trace().spec_next_sequence(), call_input(m, call, call.op, true, u32::MAX)))
                    &&& final(self).spec_trace().appended(started, record_of(
                        started.spec_next_sequence(), call_input(m, call, call.op, true, status as u32)))
                }
            },
    {
        let module = match self.module {
            Some(module) => module,
            None => {
                return Err(ForeignHostError::NotAdmitted);
            },
        };
        if !self.gate.is_admitted() || self.grants.authorize(module, call.capability).is_err() {
            self.trace.record(CapabilityTraceInput::new(module, call.capability, CapabilityTraceOp::Fault, call.at_us));
            return Err(ForeignHostError::CapabilityDenied);
        }
        let calls = self.usage.calls.saturating_add(1);
        let used_bytes = self.usage.bytes.saturating_add(call.bytes);
        if calls > self.quota.max_calls || used_bytes > self.quota.max_bytes {
            self.trace.record(
                CapabilityTraceInput::new(module, call.capability, CapabilityTraceOp::Fault, call.at_us).args(
                    call.arg0,
                    call.arg1,
                ).result(2),
            );
            return Err(ForeignHostError::QuotaExceeded);
        }
        self.usage = ForeignHostUsage { calls, bytes: used_bytes };
        self.trace.record(
            CapabilityTraceInput::new(module, call.capability, call.op, call.at_us).args(call.arg0, call.arg1).result(
                u32::MAX,
            ),
        );
        let ghost started = self.trace;
        let result = operation();
        self.trace.record(
            CapabilityTraceInput::new(module, call.capability, call.op, call.at_us).args(call.arg0, call.arg1).result(
                result as u32,
            ),
        );
        Ok(result)
    }

    pub fn usage(&self) -> (r: ForeignHostUsage)
        ensures
            r == self.spec_usage(),
    {
        self.usage
    }

    /// Copy the retained trace, oldest first; returns how many records were copied.
    pub fn copy_trace(&self, out: &mut [CapabilityTraceRecord]) -> (r: usize)
        requires
            self.wf(),
        ensures
            r == vstd::math::min(self.spec_trace()@.len() as int, old(out)@.len() as int),
            final(out)@.len() == old(out)@.len(),
            forall|i: int| 0 <= i < r ==> final(out)@[i] == self.spec_trace()@[i],
    {
        let n = self.trace.copy_replay(CapabilityReplayScope::all(), out);
        proof { crate::capability::lemma_all_scope(self.trace@); }
        n
    }
}

} // verus!
