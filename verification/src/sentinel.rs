//! The execution sentinel: a lock-free marker of the poll in flight, which an
//! interrupt handler samples to detect a module running past its deadline
//! while the cooperative loop cannot regain control.
//!
//! The sentinel's words are atomics shared with that handler; nothing is
//! assumed about the values a read returns, so what `check` promises holds of
//! every interleaving.

use core::sync::atomic::AtomicU32;
use core::sync::atomic::Ordering;
use vstd::prelude::*;

verus! {

/// A poll that outlived its deadline.
#[derive(Clone, Copy, Debug, PartialEq, Eq, Structural)]
pub struct StuckPoll {
    pub module_code: u32,
    pub deadline_us: u64,
    pub late_us: u64,
}

fn low_word(x: u64) -> (r: u32)
    ensures
        r == x % 0x1_0000_0000,
{
    let r = x as u32;
    assert(r == x % 0x1_0000_0000) by (bit_vector)
        requires
            r == x as u32,
    ;
    r
}

fn high_word(x: u64) -> (r: u32)
    ensures
        r == x / 0x1_0000_0000,
{
    let r = (x >> 32u64) as u32;
    assert(r == x / 0x1_0000_0000) by (bit_vector)
        requires
            r == (x >> 32u64) as u32,
    ;
    r
}

fn join_words(lo: u32, hi: u32) -> (r: u64)
    ensures
        r == lo + hi * 0x1_0000_0000,
{
    let r = (lo as u64) | ((hi as u64) << 32u64);
    assert(r == lo + hi * 0x1_0000_0000) by (bit_vector)
        requires
            r == (lo as u64) | ((hi as u64) << 32u64),
    ;
    r
}

fn is_odd(x: u32) -> (r: bool)
    ensures
        r == (x % 2 == 1),
{
    x % 2 == 1
}

/// What one sample of the sentinel reports: the words read are the
/// generation before, the module code, the deadline's two words, and the
/// generation after. A stuck poll comes only from one stable (even,
/// unchanged) generation with a module polling past its deadline.
pub open spec fn sample_verdict(before: u32, module_code: u32, deadline_lo: u32, deadline_hi: u32, after: u32, now_us: u64) -> Option<StuckPoll> {
    let deadline_us = deadline_lo + deadline_hi * 0x1_0000_0000;
    if before % 2 == 1 || before != after || module_code == 0 || now_us <= deadline_us {
        None
    } else {
        Some(StuckPoll { module_code, deadline_us: deadline_us as u64, late_us: (now_us - deadline_us) as u64 })
    }
}

/// Decide a sample of the sentinel's words: the poll in flight if it
/// outlived its deadline at `now_us` and the sample is from one stable
/// generation; `None` otherwise.
pub fn stuck_poll(before: u32, module_code: u32, deadline_lo: u32, deadline_hi: u32, after: u32, now_us: u64) -> (r:
    Option<StuckPoll>)
    ensures
        r == sample_verdict(before, module_code, deadline_lo, deadline_hi, after, now_us),
{
    if is_odd(before) {
        return None;
    }
    let deadline_us = join_words(deadline_lo, deadline_hi);
    if before != after || is_odd(after) || module_code == 0 {
        return None;
    }
    if now_us <= deadline_us {
        return None;
    }
    Some(StuckPoll { module_code, deadline_us, late_us: now_us - deadline_us })
}

/// The in-flight poll: a generation counter (even when stable, odd while a
/// writer is mid-update), the polling module's code (zero when idle), and
/// its deadline split into two words for targets without 64-bit atomics.
pub struct ExecutionSentinel {
    sequence: AtomicU32,
    module: AtomicU32,
    deadline_lo: AtomicU32,
    deadline_hi: AtomicU32,
}

impl ExecutionSentinel {
    pub fn new() -> Self {
        ExecutionSentinel {
            sequence: AtomicU32::new(0),
            module: AtomicU32::new(0),
            deadline_lo: AtomicU32::new(0),
            deadline_hi: AtomicU32::new(0),
        }
    }

    /// Publish that the module with nonzero `module_code` is polling and must
    /// yield by `deadline_us`, inside one odd generation.
    pub fn arm(&self, module_code: u32, deadline_us: u64) {
        let _ = self.sequence.fetch_add(1, Ordering::SeqCst);
        self.deadline_lo.store(low_word(deadline_us), Ordering::SeqCst);
        self.deadline_hi.store(high_word(deadline_us), Ordering::SeqCst);
        self.module.store(module_code, Ordering::SeqCst);
        let _ = self.sequence.fetch_add(1, Ordering::SeqCst);
    }

    /// Publish that no poll is in flight.
    pub fn disarm(&self) {
        let _ = self.sequence.fetch_add(1, Ordering::SeqCst);
        self.module.store(0, Ordering::SeqCst);
        let _ = self.sequence.fetch_add(1, Ordering::SeqCst);
    }

    /// Safe from an interrupt handler: the poll in flight if it has outlived
    /// its deadline at `now_us`, from a stable generation only; `None` when
    /// idle, in time, or when a writer was mid-update.
    pub fn check(&self, now_us: u64) -> (r: Option<StuckPoll>)
        ensures
            exists|before: u32, module_code: u32, lo: u32, hi: u32, after: u32|
                r == sample_verdict(before, module_code, lo, hi, after, now_us),
    {
        let before = self.sequence.load(Ordering::SeqCst);
        if is_odd(before) {
            assert(None::<StuckPoll> == sample_verdict(before, 0, 0, 0, before, now_us));
            return None;
        }
        let module_code = self.module.load(Ordering::SeqCst);
        let lo = self.deadline_lo.load(Ordering::SeqCst);
        let hi = self.deadline_hi.load(Ordering::SeqCst);
        let after = self.sequence.load(Ordering::SeqCst);
        let r = stuck_poll(before, module_code, lo, hi, after, now_us);
        assert(r == sample_verdict(before, module_code, lo, hi, after, now_us));
        r
    }
}

} // verus!
