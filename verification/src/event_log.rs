//! Structured kernel event records.

use vstd::prelude::*;

use crate::error::KernelError;
use crate::health::ModuleId;

verus! {

#[derive(Clone, Copy, Debug, PartialEq, Eq, Structural)]
pub enum EventSeverity {
    Info,
    Warn,
    Error,
    Fatal,
}

#[derive(Clone, Copy, Debug, PartialEq, Eq, Structural)]
pub enum EventKind {
    Host,
    Recovery,
    Fault,
    Deadline,
}

#[derive(Clone, Copy, Debug, PartialEq, Eq, Structural)]
pub enum EventPayload {
    Empty,
    Word(u32),
    Pair(u32, u32),
    Error(KernelError),
}

#[derive(Clone, Copy, Debug, PartialEq, Eq, Structural)]
pub struct EventRecord {
    pub at_us: u64,
    pub module: ModuleId,
    pub severity: EventSeverity,
    pub kind: EventKind,
    pub payload: EventPayload,
}

impl EventRecord {
    pub fn new(at_us: u64, module: ModuleId, severity: EventSeverity, kind: EventKind, payload: EventPayload) -> (r: Self)
        ensures
            r == (EventRecord { at_us, module, severity, kind, payload }),
    {
        EventRecord { at_us, module, severity, kind, payload }
    }
}

} // verus!
