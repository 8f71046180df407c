//! Allocation-free executor timing reports: a bounded recorder of dispatch,
//! selection, and bookkeeping timings, sealed into a fixed-layout report with
//! an FNV-1a checksum that fails closed.

use vstd::prelude::*;

use crate::scan::{first_some, lemma_first_some_hit};

verus! {

pub const EXECUTOR_TIMING_REPORT_MAGIC: u32 = 0x4E42_4554;
pub const EXECUTOR_TIMING_REPORT_VERSION: u32 = 1;
pub const EXECUTOR_TIMING_REPORT_WORDS: usize = 39;

pub const EXECUTOR_FLAG_COUNTER_SATURATED: u32 = 1;
pub const EXECUTOR_FLAG_INCOMPLETE: u32 = 2;
pub const EXECUTOR_FLAG_IDENTITY_MISSING: u32 = 4;
pub const EXECUTOR_FLAG_CLOCK_INVALID: u32 = 8;
pub const EXECUTOR_FLAG_GROUP_TABLE_FULL: u32 = 16;
pub const EXECUTOR_FLAG_SELECTION_REEVALUATED: u32 = 32;
pub const EXECUTOR_FLAG_PARTIAL_RELEASE_GROUP: u32 = 64;
pub const EXECUTOR_FLAG_SELECTION_UNSTABLE: u32 = 128;

/// Flags that make a report incomplete: every flag but selection re-evaluation.
pub const EXECUTOR_FATAL_FLAGS: u32 = 0xdf;
/// Every flag this report version defines.
pub const EXECUTOR_KNOWN_FLAGS: u32 = 0xff;

pub const FNV1A32_OFFSET: u32 = 0x811C_9DC5;
pub const FNV1A32_PRIME: u32 = 0x0100_0193;

/// Flags raised together with a saturated counter.
pub const SATURATED_FLAGS: u32 = 3;
/// Flags raised together with a clock that ran backwards.
pub const CLOCK_INVALID_FLAGS: u32 = 10;

#[derive(Clone, Copy, Debug, Default, PartialEq, Eq, Structural)]
pub struct ReportIdentity {
    pub build_id: u32,
    pub workload_id: u32,
    pub declaration_id: u32,
}

impl ReportIdentity {
    pub fn new(build_id: u32, workload_id: u32, declaration_id: u32) -> (r: Self)
        ensures
            r == (ReportIdentity { build_id, workload_id, declaration_id }),
    {
        ReportIdentity { build_id, workload_id, declaration_id }
    }

    pub fn is_complete(self) -> (r: bool)
        ensures
            r == (self.build_id != 0 && self.workload_id != 0 && self.declaration_id != 0),
    {
        self.build_id != 0 && self.workload_id != 0 && self.declaration_id != 0
    }
}

/// Fixed-layout report of 39 words; durations are in microseconds.
#[derive(Clone, Copy, Debug, Default, PartialEq, Eq, Structural)]
pub struct ExecutorTimingReport {
    pub magic: u32,
    pub version: u32,
    pub completed: u32,
    pub flags: u32,
    pub build_id: u32,
    pub workload_id: u32,
    pub declaration_id: u32,
    pub poll_attempts: u32,
    pub dispatch_samples: u32,
    pub release_dispatch_total_us_lo: u32,
    pub release_dispatch_total_us_hi: u32,
    pub release_dispatch_max_us: u32,
    pub simultaneous_release_groups: u32,
    pub simultaneous_releases: u32,
    pub simultaneous_ordered_dispatches: u32,
    pub simultaneous_max_width: u32,
    pub simultaneous_max_rank: u32,
    pub simultaneous_order_hash: u32,
    pub simultaneous_order_delay_total_us_lo: u32,
    pub simultaneous_order_delay_total_us_hi: u32,
    pub simultaneous_order_delay_max_us: u32,
    pub selection_samples: u32,
    pub selection_sweep_slots_total_lo: u32,
    pub selection_sweep_slots_total_hi: u32,
    pub selection_sweep_slots_max: u32,
    pub selection_due_tasks_total_lo: u32,
    pub selection_due_tasks_total_hi: u32,
    pub selection_due_tasks_max: u32,
    pub selection_duration_total_us_lo: u32,
    pub selection_duration_total_us_hi: u32,
    pub selection_duration_max_us: u32,
    pub poll_bookkeeping_samples: u32,
    pub poll_bookkeeping_total_us_lo: u32,
    pub poll_bookkeeping_total_us_hi: u32,
    pub poll_bookkeeping_max_us: u32,
    pub probe_clock_reads: u32,
    pub probe_scan_slots_total_lo: u32,
    pub probe_scan_slots_total_hi: u32,
    pub checksum: u32,
}

/// One FNV-1a step over one byte.
pub open spec fn fnv_byte(hash: u32, byte: u32) -> u32 {
    vstd::wrapping::u32_specs::wrapping_mul(hash ^ byte, FNV1A32_PRIME)
}

/// FNV-1a over the four little-endian bytes of `value`.
pub open spec fn fnv_word(hash: u32, value: u32) -> u32 {
    let h0 = fnv_byte(hash, value & 0xff);
    let h1 = fnv_byte(h0, (value >> 8u32) & 0xff);
    let h2 = fnv_byte(h1, (value >> 16u32) & 0xff);
    fnv_byte(h2, (value >> 24u32) & 0xff)
}

/// FNV-1a over a word sequence, starting from the offset basis.
pub open spec fn fnv_words(words: Seq<u32>) -> u32
    decreases words.len(),
{
    if words.len() == 0 {
        FNV1A32_OFFSET
    } else {
        fnv_word(fnv_words(words.drop_last()), words.last())
    }
}

/// Every word of a report before its checksum, in layout order.
pub open spec fn report_words(r: ExecutorTimingReport) -> Seq<u32> {
    seq![
        r.magic,
        r.version,
        r.completed,
        r.flags,
        r.build_id,
        r.workload_id,
        r.declaration_id,
        r.poll_attempts,
        r.dispatch_samples,
        r.release_dispatch_total_us_lo,
        r.release_dispatch_total_us_hi,
        r.release_dispatch_max_us,
        r.simultaneous_release_groups,
        r.simultaneous_releases,
        r.simultaneous_ordered_dispatches,
        r.simultaneous_max_width,
        r.simultaneous_max_rank,
        r.simultaneous_order_hash,
        r.simultaneous_order_delay_total_us_lo,
        r.simultaneous_order_delay_total_us_hi,
        r.simultaneous_order_delay_max_us,
        r.selection_samples,
        r.selection_sweep_slots_total_lo,
        r.selection_sweep_slots_total_hi,
        r.selection_sweep_slots_max,
        r.selection_due_tasks_total_lo,
        r.selection_due_tasks_total_hi,
        r.selection_due_tasks_max,
        r.selection_duration_total_us_lo,
        r.selection_duration_total_us_hi,
        r.selection_duration_max_us,
        r.poll_bookkeeping_samples,
        r.poll_bookkeeping_total_us_lo,
        r.poll_bookkeeping_total_us_hi,
        r.poll_bookkeeping_max_us,
        r.probe_clock_reads,
        r.probe_scan_slots_total_lo,
        r.probe_scan_slots_total_hi,
    ]
}

pub open spec fn report_checksum(r: ExecutorTimingReport) -> u32 {
    fnv_words(report_words(r))
}

/// A 64-bit value from its low and high words.
pub open spec fn joined(lo: u32, hi: u32) -> u64 {
    (lo + hi * 0x1_0000_0000) as u64
}

pub open spec fn zeroed_report() -> ExecutorTimingReport {
    ExecutorTimingReport { simultaneous_order_hash: FNV1A32_OFFSET, ..zero_words() }
}

pub open spec fn zero_words() -> ExecutorTimingReport {
    ExecutorTimingReport {
        magic: 0,
        version: 0,
        completed: 0,
        flags: 0,
        build_id: 0,
        workload_id: 0,
        declaration_id: 0,
        poll_attempts: 0,
        dispatch_samples: 0,
        release_dispatch_total_us_lo: 0,
        release_dispatch_total_us_hi: 0,
        release_dispatch_max_us: 0,
        simultaneous_release_groups: 0,
        simultaneous_releases: 0,
        simultaneous_ordered_dispatches: 0,
        simultaneous_max_width: 0,
        simultaneous_max_rank: 0,
        simultaneous_order_hash: 0,
        simultaneous_order_delay_total_us_lo: 0,
        simultaneous_order_delay_total_us_hi: 0,
        simultaneous_order_delay_max_us: 0,
        selection_samples: 0,
        selection_sweep_slots_total_lo: 0,
        selection_sweep_slots_total_hi: 0,
        selection_sweep_slots_max: 0,
        selection_due_tasks_total_lo: 0,
        selection_due_tasks_total_hi: 0,
        selection_due_tasks_max: 0,
        selection_duration_total_us_lo: 0,
        selection_duration_total_us_hi: 0,
        selection_duration_max_us: 0,
        poll_bookkeeping_samples: 0,
        poll_bookkeeping_total_us_lo: 0,
        poll_bookkeeping_total_us_hi: 0,
        poll_bookkeeping_max_us: 0,
        probe_clock_reads: 0,
        probe_scan_slots_total_lo: 0,
        probe_scan_slots_total_hi: 0,
        checksum: 0,
    }
}

/// The acceptance check of a sealed report.
pub open spec fn report_verifies(r: ExecutorTimingReport) -> bool {
    &&& r.magic == EXECUTOR_TIMING_REPORT_MAGIC
    &&& r.version == EXECUTOR_TIMING_REPORT_VERSION
    &&& r.completed == 1
    &&& r.build_id != 0
    &&& r.workload_id != 0
    &&& r.declaration_id != 0
    &&& r.flags & EXECUTOR_FATAL_FLAGS == 0
    &&& r.flags & !EXECUTOR_KNOWN_FLAGS == 0
    &&& r.checksum == report_checksum(r)
}

/// Sealing: header set, missing identity and incomplete samples flagged,
/// completion derived from the fatal flags, checksum over every other word.
pub open spec fn sealed(r: ExecutorTimingReport) -> ExecutorTimingReport {
    let identity_complete = r.build_id != 0 && r.workload_id != 0 && r.declaration_id != 0;
    let samples_complete = r.poll_attempts != 0 && r.poll_attempts == r.dispatch_samples
        && r.dispatch_samples == r.poll_bookkeeping_samples;
    let f1 = if !identity_complete { r.flags | EXECUTOR_FLAG_IDENTITY_MISSING } else { r.flags };
    let f2 = if !samples_complete { f1 | EXECUTOR_FLAG_INCOMPLETE } else { f1 };
    let s = ExecutorTimingReport {
        magic: EXECUTOR_TIMING_REPORT_MAGIC,
        version: EXECUTOR_TIMING_REPORT_VERSION,
        flags: f2,
        completed: if f2 & EXECUTOR_FATAL_FLAGS == 0 { 1 } else { 0 },
        checksum: 0,
        ..r
    };
    ExecutorTimingReport { checksum: report_checksum(s), ..s }
}

fn fnv_hash_word(hash: u32, value: u32) -> (r: u32)
    ensures
        r == fnv_word(hash, value),
{
    let h0 = (hash ^ (value & 0xff)).wrapping_mul(FNV1A32_PRIME);
    let h1 = (h0 ^ ((value >> 8u32) & 0xff)).wrapping_mul(FNV1A32_PRIME);
    let h2 = (h1 ^ ((value >> 16u32) & 0xff)).wrapping_mul(FNV1A32_PRIME);
    (h2 ^ ((value >> 24u32) & 0xff)).wrapping_mul(FNV1A32_PRIME)
}

fn join_u64(lo: u32, hi: u32) -> (r: u64)
    ensures
        r == joined(lo, hi),
{
    let r = (lo as u64) | ((hi as u64) << 32u64);
    assert(((lo as u64) | ((hi as u64) << 32u64)) == (lo as u64) + (hi as u64) * 0x1_0000_0000u64) by (bit_vector);
    r
}

impl ExecutorTimingReport {
    pub fn zeroed() -> (r: Self)
        ensures
            r == zeroed_report(),
    {
        ExecutorTimingReport {
            magic: 0,
            version: 0,
            completed: 0,
            flags: 0,
            build_id: 0,
            workload_id: 0,
            declaration_id: 0,
            poll_attempts: 0,
            dispatch_samples: 0,
            release_dispatch_total_us_lo: 0,
            release_dispatch_total_us_hi: 0,
            release_dispatch_max_us: 0,
            simultaneous_release_groups: 0,
            simultaneous_releases: 0,
            simultaneous_ordered_dispatches: 0,
            simultaneous_max_width: 0,
            simultaneous_max_rank: 0,
            simultaneous_order_hash: FNV1A32_OFFSET,
            simultaneous_order_delay_total_us_lo: 0,
            simultaneous_order_delay_total_us_hi: 0,
            simultaneous_order_delay_max_us: 0,
            selection_samples: 0,
            selection_sweep_slots_total_lo: 0,
            selection_sweep_slots_total_hi: 0,
            selection_sweep_slots_max: 0,
            selection_due_tasks_total_lo: 0,
            selection_due_tasks_total_hi: 0,
            selection_due_tasks_max: 0,
            selection_duration_total_us_lo: 0,
            selection_duration_total_us_hi: 0,
            selection_duration_max_us: 0,
            poll_bookkeeping_samples: 0,
            poll_bookkeeping_total_us_lo: 0,
            poll_bookkeeping_total_us_hi: 0,
            poll_bookkeeping_max_us: 0,
            probe_clock_reads: 0,
            probe_scan_slots_total_lo: 0,
            probe_scan_slots_total_hi: 0,
            checksum: 0,
        }
    }

    /// The words covered by the checksum, in layout order.
    pub fn words(&self) -> (r: Vec<u32>)
        ensures
            r@ == report_words(*self),
    {
        let mut out: Vec<u32> = Vec::new();
        out.push(self.magic);
        out.push(self.version);
        out.push(self.completed);
        out.push(self.flags);
        out.push(self.build_id);
        out.push(self.workload_id);
        out.push(self.declaration_id);
        out.push(self.poll_attempts);
        out.push(self.dispatch_samples);
        out.push(self.release_dispatch_total_us_lo);
        out.push(self.release_dispatch_total_us_hi);
        out.push(self.release_dispatch_max_us);
        out.push(self.simultaneous_release_groups);
        out.push(self.simultaneous_releases);
        out.push(self.simultaneous_ordered_dispatches);
        out.push(self.simultaneous_max_width);
        out.push(self.simultaneous_max_rank);
        out.push(self.simultaneous_order_hash);
        out.push(self.simultaneous_order_delay_total_us_lo);
        out.push(self.simultaneous_order_delay_total_us_hi);
        out.push(self.simultaneous_order_delay_max_us);
        out.push(self.selection_samples);
        out.push(self.selection_sweep_slots_total_lo);
        out.push(self.selection_sweep_slots_total_hi);
        out.push(self.selection_sweep_slots_max);
        out.push(self.selection_due_tasks_total_lo);
        out.push(self.selection_due_tasks_total_hi);
        out.push(self.selection_due_tasks_max);
        out.push(self.selection_duration_total_us_lo);
        out.push(self.selection_duration_total_us_hi);
        out.push(self.selection_duration_max_us);
        out.push(self.poll_bookkeeping_samples);
        out.push(self.poll_bookkeeping_total_us_lo);
        out.push(self.poll_bookkeeping_total_us_hi);
        out.push(self.poll_bookkeeping_max_us);
        out.push(self.probe_clock_reads);
        out.push(self.probe_scan_slots_total_lo);
        out.push(self.probe_scan_slots_total_hi);
        assert(out@ =~= report_words(*self));
        out
    }

    /// FNV-1a checksum over every word but the checksum itself.
    pub fn compute_checksum(&self) -> (r: u32)
        ensures
            r == report_checksum(*self),
    {
        let words = self.words();
        let mut hash = FNV1A32_OFFSET;
        let mut i: usize = 0;
        while i < words.len()
            invariant
                i <= words@.len(),
                hash == fnv_words(words@.subrange(0, i as int)),
            decreases words.len() - i,
        {
            assert(words@.subrange(0, i + 1).drop_last() =~= words@.subrange(0, i as int));
            hash = fnv_hash_word(hash, words[i]);
            i += 1;
        }
        assert(words@.subrange(0, words@.len() as int) =~= words@);
        hash
    }

    pub fn release_dispatch_total_us(&self) -> (r: u64)
        ensures
            r == joined(self.release_dispatch_total_us_lo, self.release_dispatch_total_us_hi),
    {
        join_u64(self.release_dispatch_total_us_lo, self.release_dispatch_total_us_hi)
    }

    pub fn simultaneous_order_delay_total_us(&self) -> (r: u64)
        ensures
            r == joined(self.simultaneous_order_delay_total_us_lo, self.simultaneous_order_delay_total_us_hi),
    {
        join_u64(self.simultaneous_order_delay_total_us_lo, self.simultaneous_order_delay_total_us_hi)
    }

    pub fn selection_sweep_slots_total(&self) -> (r: u64)
        ensures
            r == joined(self.selection_sweep_slots_total_lo, self.selection_sweep_slots_total_hi),
    {
        join_u64(self.selection_sweep_slots_total_lo, self.selection_sweep_slots_total_hi)
    }

    pub fn selection_due_tasks_total(&self) -> (r: u64)
        ensures
            r == joined(self.selection_due_tasks_total_lo, self.selection_due_tasks_total_hi),
    {
        join_u64(self.selection_due_tasks_total_lo, self.selection_due_tasks_total_hi)
    }

    pub fn selection_duration_total_us(&self) -> (r: u64)
        ensures
            r == joined(self.selection_duration_total_us_lo, self.selection_duration_total_us_hi),
    {
        join_u64(self.selection_duration_total_us_lo, self.selection_duration_total_us_hi)
    }

    pub fn poll_bookkeeping_total_us(&self) -> (r: u64)
        ensures
            r == joined(self.poll_bookkeeping_total_us_lo, self.poll_bookkeeping_total_us_hi),
    {
        join_u64(self.poll_bookkeeping_total_us_lo, self.poll_bookkeeping_total_us_hi)
    }

    pub fn probe_scan_slots_total(&self) -> (r: u64)
        ensures
            r == joined(self.probe_scan_slots_total_lo, self.probe_scan_slots_total_hi),
    {
        join_u64(self.probe_scan_slots_total_lo, self.probe_scan_slots_total_hi)
    }

    pub fn counters_saturated(&self) -> (r: bool)
        ensures
            r == (self.flags & EXECUTOR_FLAG_COUNTER_SATURATED != 0),
    {
        self.flags & EXECUTOR_FLAG_COUNTER_SATURATED != 0
    }

    pub fn clock_valid(&self) -> (r: bool)
        ensures
            r == (self.flags & EXECUTOR_FLAG_CLOCK_INVALID == 0),
    {
        self.flags & EXECUTOR_FLAG_CLOCK_INVALID == 0
    }

    /// Whether this is a complete, sealed report of this version with an
    /// intact checksum and no fatal or unknown flag.
    pub fn verify_checksum(&self) -> (r: bool)
        ensures
            r == report_verifies(*self),
    {
        self.magic == EXECUTOR_TIMING_REPORT_MAGIC && self.version == EXECUTOR_TIMING_REPORT_VERSION
            && self.completed == 1 && self.build_id != 0 && self.workload_id != 0 && self.declaration_id != 0
            && self.flags & EXECUTOR_FATAL_FLAGS == 0 && self.flags & !EXECUTOR_KNOWN_FLAGS == 0
            && self.checksum == self.compute_checksum()
    }

    /// Seal the report: header, completeness flags, completion, checksum.
    pub fn seal(&mut self)
        ensures
            *final(self) == sealed(*old(self)),
    {
        self.magic = EXECUTOR_TIMING_REPORT_MAGIC;
        self.version = EXECUTOR_TIMING_REPORT_VERSION;
        let identity_complete = self.build_id != 0 && self.workload_id != 0 && self.declaration_id != 0;
        let samples_complete = self.poll_attempts != 0 && self.poll_attempts == self.dispatch_samples
            && self.dispatch_samples == self.poll_bookkeeping_samples;
        if !identity_complete {
            self.flags = self.flags | EXECUTOR_FLAG_IDENTITY_MISSING;
        }
        if !samples_complete {
            self.flags = self.flags | EXECUTOR_FLAG_INCOMPLETE;
        }
        self.completed = if self.flags & EXECUTOR_FATAL_FLAGS == 0 { 1 } else { 0 };
        self.checksum = 0;
        self.checksum = self.compute_checksum();
    }
}


// ------------------------------------------------------------- counter arithmetic

pub open spec fn elapsed_of(started_us: u64, finished_us: u64) -> u64 {
    if finished_us < started_us { 0 } else { (finished_us - started_us) as u64 }
}

pub open spec fn elapsed_flags(started_us: u64, finished_us: u64, flags: u32) -> u32 {
    if finished_us < started_us { flags | CLOCK_INVALID_FLAGS } else { flags }
}

pub open spec fn clamp_of(value: u64) -> u32 {
    if value > u32::MAX { u32::MAX } else { value as u32 }
}

pub open spec fn clamp_flags(value: u64, flags: u32) -> u32 {
    if value > u32::MAX { flags | SATURATED_FLAGS } else { flags }
}

pub open spec fn sum_of(value: u32, addend: u32) -> u32 {
    if value + addend > u32::MAX { u32::MAX } else { (value + addend) as u32 }
}

pub open spec fn sum_flags(value: u32, addend: u32, flags: u32) -> u32 {
    if value + addend > u32::MAX { flags | SATURATED_FLAGS } else { flags }
}

pub open spec fn split_sum(lo: u32, hi: u32, addend: u64) -> u64 {
    if joined(lo, hi) + addend > u64::MAX { u64::MAX } else { (joined(lo, hi) + addend) as u64 }
}

pub open spec fn split_flags(lo: u32, hi: u32, addend: u64, flags: u32) -> u32 {
    if joined(lo, hi) + addend > u64::MAX { flags | SATURATED_FLAGS } else { flags }
}

pub open spec fn lo_of(value: u64) -> u32 {
    (value % 0x1_0000_0000) as u32
}

pub open spec fn hi_of(value: u64) -> u32 {
    (value / 0x1_0000_0000) as u32
}

pub open spec fn max_u32(a: u32, b: u32) -> u32 {
    if a >= b { a } else { b }
}

/// Elapsed time, with a clock that ran backwards flagged and counted as zero.
pub fn checked_elapsed(started_us: u64, finished_us: u64, flags: &mut u32) -> (r: u64)
    ensures
        r == elapsed_of(started_us, finished_us),
        *final(flags) == elapsed_flags(started_us, finished_us, *old(flags)),
{
    if finished_us < started_us {
        *flags = *flags | CLOCK_INVALID_FLAGS;
        0
    } else {
        finished_us - started_us
    }
}

/// Narrow to 32 bits, saturating and flagging values that do not fit.
pub fn clamp_u32(value: u64, flags: &mut u32) -> (r: u32)
    ensures
        r == clamp_of(value),
        *final(flags) == clamp_flags(value, *old(flags)),
{
    if value > u32::MAX as u64 {
        *flags = *flags | SATURATED_FLAGS;
        u32::MAX
    } else {
        value as u32
    }
}

/// Saturating, flagged counter addition.
pub fn add_u32(value: &mut u32, addend: u32, flags: &mut u32)
    ensures
        *final(value) == sum_of(*old(value), addend),
        *final(flags) == sum_flags(*old(value), addend, *old(flags)),
{
    match value.checked_add(addend) {
        Some(sum) => {
            *value = sum;
        },
        None => {
            *value = u32::MAX;
            *flags = *flags | SATURATED_FLAGS;
        },
    }
}

/// Saturating, flagged addition to a 64-bit counter kept as two words.
pub fn add_split_u64(lo: &mut u32, hi: &mut u32, addend: u64, flags: &mut u32)
    ensures
        *final(lo) == lo_of(split_sum(*old(lo), *old(hi), addend)),
        *final(hi) == hi_of(split_sum(*old(lo), *old(hi), addend)),
        *final(flags) == split_flags(*old(lo), *old(hi), addend, *old(flags)),
{
    let current = join_u64(*lo, *hi);
    let sum = match current.checked_add(addend) {
        Some(sum) => sum,
        None => {
            *flags = *flags | SATURATED_FLAGS;
            u64::MAX
        },
    };
    assert((sum as u32) == (sum % 0x1_0000_0000u64) as u32 && ((sum >> 32u64) as u32) == (sum / 0x1_0000_0000u64) as u32) by (bit_vector);
    *lo = sum as u32;
    *hi = (sum >> 32u64) as u32;
}

// ------------------------------------------------------------- recorder

/// One simultaneous-release group whose dispatches are being tracked.
#[derive(Clone, Copy, Debug, PartialEq, Eq, Structural)]
pub struct ReleaseGroup {
    pub release_us: u64,
    pub first_dispatch_us: u64,
    pub expected_width: u32,
    pub dispatched: u32,
    pub used: bool,
}

pub open spec fn empty_group() -> ReleaseGroup {
    ReleaseGroup { release_us: 0, first_dispatch_us: 0, expected_width: 0, dispatched: 0, used: false }
}

/// The report with selection timings added.
pub open spec fn after_selection(c: ExecutorTimingReport, sweep_slots: u32, due_tasks: u32, started_us: u64, finished_us: u64, probe_clock_reads: u32) -> ExecutorTimingReport {
    let f0 = c.flags;
    let samples = sum_of(c.selection_samples, 1);
    let f1 = sum_flags(c.selection_samples, 1, f0);
    let sweep = split_sum(c.selection_sweep_slots_total_lo, c.selection_sweep_slots_total_hi, sweep_slots as u64);
    let f2 = split_flags(c.selection_sweep_slots_total_lo, c.selection_sweep_slots_total_hi, sweep_slots as u64, f1);
    let due = split_sum(c.selection_due_tasks_total_lo, c.selection_due_tasks_total_hi, due_tasks as u64);
    let f3 = split_flags(c.selection_due_tasks_total_lo, c.selection_due_tasks_total_hi, due_tasks as u64, f2);
    let elapsed = elapsed_of(started_us, finished_us);
    let f4 = elapsed_flags(started_us, finished_us, f3);
    let duration = clamp_of(elapsed);
    let f5 = clamp_flags(elapsed, f4);
    let total = split_sum(c.selection_duration_total_us_lo, c.selection_duration_total_us_hi, duration as u64);
    let f6 = split_flags(c.selection_duration_total_us_lo, c.selection_duration_total_us_hi, duration as u64, f5);
    let reads = sum_of(c.probe_clock_reads, probe_clock_reads);
    let f7 = sum_flags(c.probe_clock_reads, probe_clock_reads, f6);
    ExecutorTimingReport {
        selection_samples: samples,
        selection_sweep_slots_total_lo: lo_of(sweep),
        selection_sweep_slots_total_hi: hi_of(sweep),
        selection_sweep_slots_max: max_u32(c.selection_sweep_slots_max, sweep_slots),
        selection_due_tasks_total_lo: lo_of(due),
        selection_due_tasks_total_hi: hi_of(due),
        selection_due_tasks_max: max_u32(c.selection_due_tasks_max, due_tasks),
        selection_duration_total_us_lo: lo_of(total),
        selection_duration_total_us_hi: hi_of(total),
        selection_duration_max_us: max_u32(c.selection_duration_max_us, duration),
        probe_clock_reads: reads,
        flags: f7,
        ..c
    }
}

/// The report with one poll's bookkeeping time added.
pub open spec fn after_bookkeeping(c: ExecutorTimingReport, started_us: u64, finished_us: u64) -> ExecutorTimingReport {
    let samples = sum_of(c.poll_bookkeeping_samples, 1);
    let f1 = sum_flags(c.poll_bookkeeping_samples, 1, c.flags);
    let elapsed = elapsed_of(started_us, finished_us);
    let f2 = elapsed_flags(started_us, finished_us, f1);
    let duration = clamp_of(elapsed);
    let f3 = clamp_flags(elapsed, f2);
    let total = split_sum(c.poll_bookkeeping_total_us_lo, c.poll_bookkeeping_total_us_hi, duration as u64);
    let f4 = split_flags(c.poll_bookkeeping_total_us_lo, c.poll_bookkeeping_total_us_hi, duration as u64, f3);
    let reads = sum_of(c.probe_clock_reads, 1);
    let f5 = sum_flags(c.probe_clock_reads, 1, f4);
    ExecutorTimingReport {
        poll_bookkeeping_samples: samples,
        poll_bookkeeping_total_us_lo: lo_of(total),
        poll_bookkeeping_total_us_hi: hi_of(total),
        poll_bookkeeping_max_us: max_u32(c.poll_bookkeeping_max_us, duration),
        probe_clock_reads: reads,
        flags: f5,
        ..c
    }
}

/// The report and group after one more ordered dispatch of group `g`: the
/// rank, the delay behind the group's first dispatch, and the order hash
/// over release, width, rank, module, priority, and slot tie-break.
pub open spec fn after_group_dispatch(c: ExecutorTimingReport, g: ReleaseGroup, dispatch_us: u64, module: u32, priority: u32, slot_tie_break: u32) -> (ExecutorTimingReport, ReleaseGroup) {
    let rank = sum_of(g.dispatched, 1);
    let ordered = sum_of(c.simultaneous_ordered_dispatches, 1);
    let f1 = sum_flags(c.simultaneous_ordered_dispatches, 1, c.flags);
    let delay = elapsed_of(g.first_dispatch_us, dispatch_us);
    let f2 = elapsed_flags(g.first_dispatch_us, dispatch_us, f1);
    let delay_us = clamp_of(delay);
    let f3 = clamp_flags(delay, f2);
    let total = split_sum(c.simultaneous_order_delay_total_us_lo, c.simultaneous_order_delay_total_us_hi, delay_us as u64);
    let f4 = split_flags(c.simultaneous_order_delay_total_us_lo, c.simultaneous_order_delay_total_us_hi, delay_us as u64, f3);
    let h0 = c.simultaneous_order_hash;
    let h1 = fnv_word(h0, g.release_us as u32);
    let h2 = fnv_word(h1, (g.release_us >> 32u64) as u32);
    let h3 = fnv_word(h2, g.expected_width);
    let h4 = fnv_word(h3, rank);
    let h5 = fnv_word(h4, module);
    let h6 = fnv_word(h5, priority);
    let h7 = fnv_word(h6, slot_tie_break);
    let report = ExecutorTimingReport {
        simultaneous_ordered_dispatches: ordered,
        simultaneous_max_rank: max_u32(c.simultaneous_max_rank, rank),
        simultaneous_order_delay_total_us_lo: lo_of(total),
        simultaneous_order_delay_total_us_hi: hi_of(total),
        simultaneous_order_delay_max_us: max_u32(c.simultaneous_order_delay_max_us, delay_us),
        simultaneous_order_hash: h7,
        flags: f4,
        ..c
    };
    let group = if rank >= g.expected_width { empty_group() } else { ReleaseGroup { dispatched: rank, ..g } };
    (report, group)
}

pub open spec fn group_hits(groups: Seq<ReleaseGroup>, release_us: u64) -> spec_fn(int) -> Option<int> {
    |i: int| if groups[i].used && groups[i].release_us == release_us { Some(i) } else { None }
}

pub open spec fn free_groups(groups: Seq<ReleaseGroup>) -> spec_fn(int) -> Option<int> {
    |i: int| if !groups[i].used { Some(i) } else { None }
}

/// The report with one dispatch's release-to-dispatch latency added.
pub open spec fn dispatch_base(c: ExecutorTimingReport, release_us: u64, dispatch_us: u64) -> ExecutorTimingReport {
    let samples = sum_of(c.dispatch_samples, 1);
    let f1 = sum_flags(c.dispatch_samples, 1, c.flags);
    let latency = elapsed_of(release_us, dispatch_us);
    let f2 = elapsed_flags(release_us, dispatch_us, f1);
    let latency_us = clamp_of(latency);
    let f3 = clamp_flags(latency, f2);
    let total = split_sum(c.release_dispatch_total_us_lo, c.release_dispatch_total_us_hi, latency_us as u64);
    let f4 = split_flags(c.release_dispatch_total_us_lo, c.release_dispatch_total_us_hi, latency_us as u64, f3);
    ExecutorTimingReport {
        dispatch_samples: samples,
        release_dispatch_total_us_lo: lo_of(total),
        release_dispatch_total_us_hi: hi_of(total),
        release_dispatch_max_us: max_u32(c.release_dispatch_max_us, latency_us),
        flags: f4,
        ..c
    }
}

/// The report and groups after one dispatch: latency always; order
/// tracking for a dispatch of a tracked group, or of a new group wider than
/// one (flagged when the group table is full).
pub open spec fn after_dispatch(c: ExecutorTimingReport, groups: Seq<ReleaseGroup>, release_us: u64, dispatch_us: u64, width: u32, module: u32, priority: u32, slot_tie_break: u32) -> (ExecutorTimingReport, Seq<ReleaseGroup>) {
    let base = dispatch_base(c, release_us, dispatch_us);
    match first_some(group_hits(groups, release_us), groups.len() as int) {
        Some(i) => {
            let (r, g) = after_group_dispatch(base, groups[i], dispatch_us, module, priority, slot_tie_break);
            (r, groups.update(i, g))
        },
        None => if width > 1 {
            match first_some(free_groups(groups), groups.len() as int) {
                None => (ExecutorTimingReport { flags: base.flags | 0x12, ..base }, groups),
                Some(i) => {
                    let fresh = ReleaseGroup { release_us, first_dispatch_us: dispatch_us, expected_width: width, dispatched: 0, used: true };
                    let g1 = sum_of(base.simultaneous_release_groups, 1);
                    let fl1 = sum_flags(base.simultaneous_release_groups, 1, base.flags);
                    let rel = sum_of(base.simultaneous_releases, width);
                    let fl2 = sum_flags(base.simultaneous_releases, width, fl1);
                    let opened = ExecutorTimingReport {
                        simultaneous_release_groups: g1,
                        simultaneous_releases: rel,
                        simultaneous_max_width: max_u32(base.simultaneous_max_width, width),
                        flags: fl2,
                        ..base
                    };
                    let (r, g) = after_group_dispatch(opened, fresh, dispatch_us, module, priority, slot_tie_break);
                    (r, groups.update(i, g))
                },
            }
        } else {
            (base, groups)
        },
    }
}

/// Bounded, caller-owned recorder; `GROUPS` bounds the simultaneous-release
/// groups tracked at once.
#[derive(Clone, Copy, Debug, PartialEq, Eq)]
pub struct ExecutorInstrumentation<const GROUPS: usize> {
    counters: ExecutorTimingReport,
    groups: [ReleaseGroup; GROUPS],
}

pub open spec fn identified(identity: ReportIdentity) -> ExecutorTimingReport {
    ExecutorTimingReport {
        build_id: identity.build_id,
        workload_id: identity.workload_id,
        declaration_id: identity.declaration_id,
        ..zeroed_report()
    }
}

/// The report of a recorder: pending groups flag it partial and incomplete,
/// then it is sealed.
pub open spec fn report_of(c: ExecutorTimingReport, groups: Seq<ReleaseGroup>) -> ExecutorTimingReport {
    let pending = exists|i: int| 0 <= i < groups.len() && #[trigger] groups[i].used;
    let flagged = if pending { ExecutorTimingReport { flags: c.flags | 0x42, ..c } } else { c };
    sealed(flagged)
}

impl<const GROUPS: usize> ExecutorInstrumentation<GROUPS> {
    pub closed spec fn counters(self) -> ExecutorTimingReport {
        self.counters
    }

    pub closed spec fn groups(self) -> Seq<ReleaseGroup> {
        self.groups@
    }

    pub fn new() -> (r: Self)
        ensures
            r.counters() == zeroed_report(),
            forall|i: int| 0 <= i < GROUPS ==> #[trigger] r.groups()[i] == empty_group(),
    {
        Self::with_identity(ReportIdentity::new(0, 0, 0))
    }

    pub fn with_identity(identity: ReportIdentity) -> (r: Self)
        ensures
            r.counters() == identified(identity),
            r.groups().len() == GROUPS,
            forall|i: int| 0 <= i < GROUPS ==> #[trigger] r.groups()[i] == empty_group(),
    {
        let mut counters = ExecutorTimingReport::zeroed();
        counters.build_id = identity.build_id;
        counters.workload_id = identity.workload_id;
        counters.declaration_id = identity.declaration_id;
        let empty = ReleaseGroup { release_us: 0, first_dispatch_us: 0, expected_width: 0, dispatched: 0, used: false };
        ExecutorInstrumentation { counters, groups: [empty; GROUPS] }
    }

    /// Forget everything recorded; the identity stays.
    pub fn reset(&mut self)
        ensures
            final(self).counters() == identified(ReportIdentity {
                build_id: old(self).counters().build_id,
                workload_id: old(self).counters().workload_id,
                declaration_id: old(self).counters().declaration_id,
            }),
            forall|i: int| 0 <= i < GROUPS ==> #[trigger] final(self).groups()[i] == empty_group(),
    {
        let identity = ReportIdentity::new(self.counters.build_id, self.counters.workload_id, self.counters.declaration_id);
        *self = Self::with_identity(identity);
    }

    /// Bytes of recorder state.
    pub fn storage_bytes() -> (r: usize)
        ensures
            r as nat == vstd::layout::size_of::<Self>(),
    {
        core::mem::size_of::<Self>()
    }

    /// The sealed report of everything recorded so far.
    pub fn report(&self) -> (r: ExecutorTimingReport)
        ensures
            r == report_of(self.counters(), self.groups()),
    {
        let mut report = self.counters;
        let mut pending = false;
        let mut i: usize = 0;
        while i < GROUPS
            invariant
                i <= GROUPS,
                pending == exists|k: int| 0 <= k < i && #[trigger] self.groups@[k].used,
            decreases GROUPS - i,
        {
            if self.groups[i].used {
                pending = true;
            }
            i += 1;
        }
        if pending {
            report.flags = report.flags | 0x42;
        }
        report.seal();
        report
    }

    pub fn record_poll_attempt(&mut self)
        ensures
            final(self).counters() == (ExecutorTimingReport {
                poll_attempts: sum_of(old(self).counters().poll_attempts, 1),
                flags: sum_flags(old(self).counters().poll_attempts, 1, old(self).counters().flags),
                ..old(self).counters()
            }),
            final(self).groups() == old(self).groups(),
    {
        add_u32(&mut self.counters.poll_attempts, 1, &mut self.counters.flags);
    }

    pub fn record_selection(&mut self, sweep_slots: u32, due_tasks: u32, started_us: u64, finished_us: u64, probe_clock_reads: u32)
        ensures
            final(self).counters() == after_selection(old(self).counters(), sweep_slots, due_tasks, started_us, finished_us, probe_clock_reads),
            final(self).groups() == old(self).groups(),
    {
        let c = &mut self.counters;
        add_u32(&mut c.selection_samples, 1, &mut c.flags);
        add_split_u64(&mut c.selection_sweep_slots_total_lo, &mut c.selection_sweep_slots_total_hi, sweep_slots as u64, &mut c.flags);
        if sweep_slots > c.selection_sweep_slots_max {
            c.selection_sweep_slots_max = sweep_slots;
        }
        add_split_u64(&mut c.selection_due_tasks_total_lo, &mut c.selection_due_tasks_total_hi, due_tasks as u64, &mut c.flags);
        if due_tasks > c.selection_due_tasks_max {
            c.selection_due_tasks_max = due_tasks;
        }
        let elapsed = checked_elapsed(started_us, finished_us, &mut c.flags);
        let duration_us = clamp_u32(elapsed, &mut c.flags);
        add_split_u64(&mut c.selection_duration_total_us_lo, &mut c.selection_duration_total_us_hi, duration_us as u64, &mut c.flags);
        if duration_us > c.selection_duration_max_us {
            c.selection_duration_max_us = duration_us;
        }
        add_u32(&mut c.probe_clock_reads, probe_clock_reads, &mut c.flags);
    }

    pub fn record_clock_invalid(&mut self)
        ensures
            final(self).counters() == (ExecutorTimingReport { flags: old(self).counters().flags | CLOCK_INVALID_FLAGS, ..old(self).counters() }),
            final(self).groups() == old(self).groups(),
    {
        self.counters.flags = self.counters.flags | CLOCK_INVALID_FLAGS;
    }

    pub fn record_probe_scan_slots(&mut self, slots: u32)
        ensures
            final(self).counters() == (ExecutorTimingReport {
                probe_scan_slots_total_lo: lo_of(split_sum(old(self).counters().probe_scan_slots_total_lo, old(self).counters().probe_scan_slots_total_hi, slots as u64)),
                probe_scan_slots_total_hi: hi_of(split_sum(old(self).counters().probe_scan_slots_total_lo, old(self).counters().probe_scan_slots_total_hi, slots as u64)),
                flags: split_flags(old(self).counters().probe_scan_slots_total_lo, old(self).counters().probe_scan_slots_total_hi, slots as u64, old(self).counters().flags),
                ..old(self).counters()
            }),
            final(self).groups() == old(self).groups(),
    {
        let c = &mut self.counters;
        add_split_u64(&mut c.probe_scan_slots_total_lo, &mut c.probe_scan_slots_total_hi, slots as u64, &mut c.flags);
    }

    pub fn record_probe_clock_reads(&mut self, reads: u32)
        ensures
            final(self).counters() == (ExecutorTimingReport {
                probe_clock_reads: sum_of(old(self).counters().probe_clock_reads, reads),
                flags: sum_flags(old(self).counters().probe_clock_reads, reads, old(self).counters().flags),
                ..old(self).counters()
            }),
            final(self).groups() == old(self).groups(),
    {
        add_u32(&mut self.counters.probe_clock_reads, reads, &mut self.counters.flags);
    }

    pub fn record_selection_reevaluated(&mut self)
        ensures
            final(self).counters() == (ExecutorTimingReport { flags: old(self).counters().flags | EXECUTOR_FLAG_SELECTION_REEVALUATED, ..old(self).counters() }),
            final(self).groups() == old(self).groups(),
    {
        self.counters.flags = self.counters.flags | EXECUTOR_FLAG_SELECTION_REEVALUATED;
    }

    pub fn record_selection_unstable(&mut self)
        ensures
            final(self).counters() == (ExecutorTimingReport { flags: old(self).counters().flags | 0x82, ..old(self).counters() }),
            final(self).groups() == old(self).groups(),
    {
        self.counters.flags = self.counters.flags | 0x82;
    }

    pub fn record_poll_clock(&mut self, started_us: u64, finished_us: u64)
        ensures
            final(self).counters() == (ExecutorTimingReport { flags: elapsed_flags(started_us, finished_us, old(self).counters().flags), ..old(self).counters() }),
            final(self).groups() == old(self).groups(),
    {
        let _ = checked_elapsed(started_us, finished_us, &mut self.counters.flags);
    }

    pub fn record_bookkeeping(&mut self, started_us: u64, finished_us: u64)
        ensures
            final(self).counters() == after_bookkeeping(old(self).counters(), started_us, finished_us),
            final(self).groups() == old(self).groups(),
    {
        let c = &mut self.counters;
        add_u32(&mut c.poll_bookkeeping_samples, 1, &mut c.flags);
        let elapsed = checked_elapsed(started_us, finished_us, &mut c.flags);
        let duration_us = clamp_u32(elapsed, &mut c.flags);
        add_split_u64(&mut c.poll_bookkeeping_total_us_lo, &mut c.poll_bookkeeping_total_us_hi, duration_us as u64, &mut c.flags);
        if duration_us > c.poll_bookkeeping_max_us {
            c.poll_bookkeeping_max_us = duration_us;
        }
        add_u32(&mut c.probe_clock_reads, 1, &mut c.flags);
    }

    fn record_group_dispatch(&mut self, index: usize, dispatch_us: u64, module: u32, priority: u32, slot_tie_break: u32)
        requires
            index < GROUPS,
        ensures
            (final(self).counters(), final(self).groups()[index as int]) == after_group_dispatch(old(self).counters(), old(self).groups()[index as int], dispatch_us, module, priority, slot_tie_break),
            final(self).groups() == old(self).groups().update(index as int, final(self).groups()[index as int]),
    {
        let mut group = self.groups[index];
        group.dispatched = if group.dispatched == u32::MAX { u32::MAX } else { group.dispatched + 1 };
        let rank = group.dispatched;
        let c = &mut self.counters;
        add_u32(&mut c.simultaneous_ordered_dispatches, 1, &mut c.flags);
        if rank > c.simultaneous_max_rank {
            c.simultaneous_max_rank = rank;
        }
        let delay = checked_elapsed(group.first_dispatch_us, dispatch_us, &mut c.flags);
        let delay_us = clamp_u32(delay, &mut c.flags);
        add_split_u64(&mut c.simultaneous_order_delay_total_us_lo, &mut c.simultaneous_order_delay_total_us_hi, delay_us as u64, &mut c.flags);
        if delay_us > c.simultaneous_order_delay_max_us {
            c.simultaneous_order_delay_max_us = delay_us;
        }
        let mut hash = c.simultaneous_order_hash;
        hash = fnv_hash_word(hash, group.release_us as u32);
        hash = fnv_hash_word(hash, (group.release_us >> 32u64) as u32);
        hash = fnv_hash_word(hash, group.expected_width);
        hash = fnv_hash_word(hash, rank);
        hash = fnv_hash_word(hash, module);
        hash = fnv_hash_word(hash, priority);
        hash = fnv_hash_word(hash, slot_tie_break);
        c.simultaneous_order_hash = hash;
        if group.dispatched >= group.expected_width {
            group = ReleaseGroup { release_us: 0, first_dispatch_us: 0, expected_width: 0, dispatched: 0, used: false };
        }
        self.groups[index] = group;
    }

    /// Record one dispatch: release-to-dispatch latency, and the ordering of
    /// dispatches within a simultaneous release group.
    pub fn record_dispatch(&mut self, release_us: u64, dispatch_us: u64, simultaneous_width: u32, module: u32, priority: u32, slot_tie_break: u32)
        ensures
            (final(self).counters(), final(self).groups()) == after_dispatch(old(self).counters(), old(self).groups(), release_us, dispatch_us, simultaneous_width, module, priority, slot_tie_break),
    {
        let c = &mut self.counters;
        add_u32(&mut c.dispatch_samples, 1, &mut c.flags);
        let latency = checked_elapsed(release_us, dispatch_us, &mut c.flags);
        let latency_us = clamp_u32(latency, &mut c.flags);
        add_split_u64(&mut c.release_dispatch_total_us_lo, &mut c.release_dispatch_total_us_hi, latency_us as u64, &mut c.flags);
        if latency_us > c.release_dispatch_max_us {
            c.release_dispatch_max_us = latency_us;
        }
        let ghost groups0 = self.groups@;
        assert(self.counters == dispatch_base(old(self).counters(), release_us, dispatch_us));
        let ghost hits = group_hits(self.groups@, release_us);
        let mut i: usize = 0;
        while i < GROUPS
            invariant
                i <= GROUPS,
                self.groups@ == groups0,
                groups0 == old(self).groups(),
                self.counters == dispatch_base(old(self).counters(), release_us, dispatch_us),
                hits == group_hits(self.groups@, release_us),
                first_some(hits, i as int) is None,
            decreases GROUPS - i,
        {
            assert(hits(i as int) == group_hits(self.groups@, release_us)(i as int));
            if self.groups[i].used && self.groups[i].release_us == release_us {
                proof { lemma_first_some_hit(hits, i as int, GROUPS as int); }
                self.record_group_dispatch(i, dispatch_us, module, priority, slot_tie_break);
                return;
            }
            i += 1;
        }
        if simultaneous_width > 1 {
            self.open_group(release_us, dispatch_us, simultaneous_width, module, priority, slot_tie_break);
        }
    }

    /// Start tracking a new simultaneous group in the first free entry, or
    /// flag the table as full.
    fn open_group(&mut self, release_us: u64, dispatch_us: u64, width: u32, module: u32, priority: u32, slot_tie_break: u32)
        ensures
            (final(self).counters(), final(self).groups()) == match first_some(free_groups(old(self).groups()), GROUPS as int) {
                None => (ExecutorTimingReport { flags: old(self).counters().flags | 0x12, ..old(self).counters() }, old(self).groups()),
                Some(i) => {
                    let c = old(self).counters();
                    let fresh = ReleaseGroup { release_us, first_dispatch_us: dispatch_us, expected_width: width, dispatched: 0, used: true };
                    let opened = ExecutorTimingReport {
                        simultaneous_release_groups: sum_of(c.simultaneous_release_groups, 1),
                        simultaneous_releases: sum_of(c.simultaneous_releases, width),
                        simultaneous_max_width: max_u32(c.simultaneous_max_width, width),
                        flags: sum_flags(c.simultaneous_releases, width, sum_flags(c.simultaneous_release_groups, 1, c.flags)),
                        ..c
                    };
                    let (r, g) = after_group_dispatch(opened, fresh, dispatch_us, module, priority, slot_tie_break);
                    (r, old(self).groups().update(i, g))
                },
            },
    {
        let ghost frees = free_groups(self.groups@);
        let mut k: usize = 0;
        while k < GROUPS
            invariant
                k <= GROUPS,
                *self == *old(self),
                frees == free_groups(self.groups@),
                first_some(frees, k as int) is None,
            decreases GROUPS - k,
        {
            assert(frees(k as int) == free_groups(self.groups@)(k as int));
            if !self.groups[k].used {
                proof { lemma_first_some_hit(frees, k as int, GROUPS as int); }
                self.groups[k] = ReleaseGroup {
                    release_us,
                    first_dispatch_us: dispatch_us,
                    expected_width: width,
                    dispatched: 0,
                    used: true,
                };
                let c = &mut self.counters;
                add_u32(&mut c.simultaneous_release_groups, 1, &mut c.flags);
                add_u32(&mut c.simultaneous_releases, width, &mut c.flags);
                if width > c.simultaneous_max_width {
                    c.simultaneous_max_width = width;
                }
                self.record_group_dispatch(k, dispatch_us, module, priority, slot_tie_break);
                return;
            }
            k += 1;
        }
        self.counters.flags = self.counters.flags | 0x12;
    }
}

/// Setting more flag bits keeps a fatal flag set.
proof fn lemma_fatal_kept(g: u32, m: u32)
    requires
        g & 0xdfu32 != 0,
    ensures
        (g | m) & 0xdfu32 != 0,
{
    assert(g & 0xdfu32 != 0 ==> (g | m) & 0xdfu32 != 0) by (bit_vector);
}

/// Law: a sealed report carries the checksum of its own words.
pub proof fn sealed_report_carries_its_checksum(r: ExecutorTimingReport)
    ensures
        sealed(r).checksum == report_checksum(sealed(r)),
{
    let s = sealed(r);
    let t = ExecutorTimingReport { checksum: 0, ..s };
    assert(report_words(s) =~= report_words(t));
}

/// Law: a report of a recorder with a pending simultaneous group, or with a
/// fatal flag, never verifies.
pub proof fn partial_reports_never_verify(c: ExecutorTimingReport, groups: Seq<ReleaseGroup>)
    requires
        (exists|i: int| 0 <= i < groups.len() && #[trigger] groups[i].used) || c.flags & EXECUTOR_FATAL_FLAGS != 0,
    ensures
        !report_verifies(report_of(c, groups)),
{
    let f = c.flags;
    let pending = exists|i: int| 0 <= i < groups.len() && #[trigger] groups[i].used;
    let g = if pending { f | 0x42u32 } else { f };
    if pending {
        assert((f | 0x42u32) & 0xdfu32 != 0) by (bit_vector);
    }
    lemma_fatal_kept(g, 4);
    lemma_fatal_kept(g, 2);
    lemma_fatal_kept(g | 4u32, 2);
}

} // verus!
