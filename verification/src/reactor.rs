//! The wake-driven, fuel-bounded reactor executor: tasks are polled only
//! when their bit in the shared ready word is set, at most `fuel` polls per
//! pass, lowest slot first.
//!
//! The ready word is shared with the tasks' wakers, which may set bits from
//! any context at any time; the executor claims a batch of bits at once and
//! hands unpolled bits back when its fuel runs out. Nothing is assumed about
//! the values the ready word holds.

use core::sync::atomic::AtomicU32;
use core::sync::atomic::Ordering;
use vstd::prelude::*;

use crate::async_exec::occupied_count;
use crate::async_rt::{ReactorError, ReactorStats};

verus! {

/// A task of the reactor: one poll of the task in slot `index`, whose waker
/// sets that slot's ready bit. Reports whether the task finished.
pub trait ReactorTask {
    fn poll_ready(&mut self, index: usize) -> bool;
}

/// Clear every ready bit.
fn clear_ready(ready: &AtomicU32) {
    ready.store(0, Ordering::Release);
}

/// Claim the set ready bits, clearing them.
fn claim_ready(ready: &AtomicU32) -> u32 {
    ready.fetch_and(0, Ordering::AcqRel)
}

/// Set the ready bits of `bits`.
fn mark_ready(ready: &AtomicU32, bits: u32) {
    let _ = ready.fetch_or(bits, Ordering::AcqRel);
}

/// Whether any ready bit is set.
fn any_ready(ready: &AtomicU32) -> bool {
    ready.load(Ordering::Acquire) != 0
}

/// A word with only bit `index` set.
fn slot_bit(index: usize) -> (r: u32)
    requires
        index < 32,
    ensures
        r == 1u32 << index,
{
    1u32 << index
}

fn word_of(count: usize) -> (r: u32)
    requires
        count <= 32,
    ensures
        r == count,
{
    count as u32
}

/// A fuel-bounded, wake-driven executor over `N <= 32` caller tasks.
pub struct ReactorExecutor<'r, T, const N: usize> {
    ready: &'r AtomicU32,
    core_identity: usize,
    slots: Vec<Option<T>>,
    count: usize,
}

impl<'r, T: ReactorTask, const N: usize> ReactorExecutor<'r, T, N> {
    /// Which slots hold a task.
    pub closed spec fn occupied(self) -> Seq<bool> {
        self.slots@.map_values(|s: Option<T>| s is Some)
    }

    /// The number of live tasks.
    pub open spec fn live_count(self) -> nat {
        occupied_count(self.occupied(), N as int)
    }

    pub closed spec fn spec_core_identity(self) -> usize {
        self.core_identity
    }

    pub closed spec fn wf(self) -> bool {
        &&& N <= 32
        &&& self.slots@.len() == N
        &&& self.count == self.live_count()
    }

    /// Bind an executor to the ready word of the core whose identity
    /// (address) is `core_identity`, clearing stale wakes.
    pub fn bind(ready: &'r AtomicU32, core_identity: usize) -> (r: Self)
        requires
            N <= 32,
        ensures
            r.wf(),
            r.live_count() == 0,
            r.occupied() == Seq::new(N as nat, |i: int| false),
            r.spec_core_identity() == core_identity,
    {
        clear_ready(ready);
        let mut slots: Vec<Option<T>> = Vec::new();
        let mut i: usize = 0;
        while i < N
            invariant
                i <= N,
                slots@.len() == i,
                forall|j: int| 0 <= j < i ==> slots@[j] is None,
            decreases N - i,
        {
            slots.push(None);
            i += 1;
        }
        let r = ReactorExecutor { ready, core_identity, slots, count: 0 };
        assert(r.occupied() =~= Seq::new(N as nat, |i: int| false));
        proof { crate::async_exec::lemma_none_occupied(r.occupied(), N as int); }
        r
    }

    /// Register a task in the first free slot and mark it ready for its
    /// first poll; [`ReactorError::Full`] when every slot is taken.
    pub fn spawn(&mut self, task: T) -> (r: Result<usize, ReactorError>)
        requires
            old(self).wf(),
        ensures
            final(self).wf(),
            final(self).spec_core_identity() == old(self).spec_core_identity(),
            r matches Ok(i) ==> {
                &&& i < N && !old(self).occupied()[i as int]
                &&& forall|j: int| 0 <= j < i ==> #[trigger] old(self).occupied()[j]
                &&& final(self).occupied() == old(self).occupied().update(i as int, true)
                &&& final(self).live_count() == old(self).live_count() + 1
            },
            r is Err ==> r == Err::<usize, ReactorError>(ReactorError::Full)
                && (forall|j: int| 0 <= j < N ==> #[trigger] old(self).occupied()[j])
                && *final(self) == *old(self),
    {
        let ghost occ = self.occupied();
        let mut i: usize = 0;
        while i < N
            invariant
                self.wf(),
                *self == *old(self),
                occ == self.occupied(),
                i <= N,
                forall|j: int| 0 <= j < i ==> #[trigger] occ[j],
            decreases N - i,
        {
            if self.slots[i].is_none() {
                proof {
                    crate::async_exec::lemma_occupied_count_update(occ, i as int, true, N as int);
                    crate::async_exec::lemma_occupied_count_bound(occ.update(i as int, true), N as int);
                }
                self.slots.set(i, Some(task));
                assert(self.occupied() =~= occ.update(i as int, true));
                self.count = self.count + 1;
                mark_ready(self.ready, slot_bit(i));
                return Ok(i);
            }
            i += 1;
        }
        Err(ReactorError::Full)
    }

    pub fn live(&self) -> (r: usize)
        requires
            self.wf(),
        ensures
            r == self.live_count(),
    {
        self.count
    }

    pub fn core_identity(&self) -> (r: usize)
        ensures
            r == self.spec_core_identity(),
    {
        self.core_identity
    }

    /// Whether a wake is pending. The ready word is shared with the wakers,
    /// so nothing is known of the answer beyond the moment it was read.
    pub fn has_ready(&self) -> bool {
        any_ready(self.ready)
    }

    /// Poll ready tasks only, spending at most `fuel` polls, lowest ready
    /// slot first. Wakes that arrive during a poll are honored on a later
    /// batch (one bit per slot), so a self-waking task cannot starve its
    /// peers or overrun the budget. Bits left unpolled when the fuel runs
    /// out go back to the ready word. A batch that polls no live task ends
    /// the pass.
    pub fn run_ready(&mut self, fuel: u32) -> (r: ReactorStats)
        requires
            old(self).wf(),
        ensures
            final(self).wf(),
            final(self).spec_core_identity() == old(self).spec_core_identity(),
            r.polled <= fuel,
            r.completed <= r.polled,
            r.live == final(self).live_count(),
            final(self).live_count() + r.completed == old(self).live_count(),
            r.fuel_exhausted ==> r.polled == fuel,
            forall|i: int| 0 <= i < N && #[trigger] final(self).occupied()[i] ==> old(self).occupied()[i],
    {
        let mut polled: u32 = 0;
        let mut completed: u32 = 0;
        let mut budget: u32 = fuel;
        let mut exhausted = false;
        loop
            invariant_except_break
                !exhausted,
            invariant
                self.wf(),
                self.spec_core_identity() == old(self).spec_core_identity(),
                budget + polled == fuel,
                completed <= polled,
                self.live_count() + completed == old(self).live_count(),
                forall|i: int| 0 <= i < N && #[trigger] self.occupied()[i] ==> old(self).occupied()[i],
            ensures
                self.wf(),
                self.spec_core_identity() == old(self).spec_core_identity(),
                budget + polled == fuel,
                completed <= polled,
                self.live_count() + completed == old(self).live_count(),
                exhausted ==> budget == 0,
                forall|i: int| 0 <= i < N && #[trigger] self.occupied()[i] ==> old(self).occupied()[i],
            decreases budget,
        {
            let batch = claim_ready(self.ready);
            if batch == 0 {
                break;
            }
            let spent_before = budget;
            let (out_of_fuel, rest) = self.run_batch(batch, &mut budget, &mut polled, &mut completed);
            if out_of_fuel {
                mark_ready(self.ready, rest);
                exhausted = true;
                break;
            }
            if budget == 0 {
                if any_ready(self.ready) {
                    exhausted = true;
                }
                break;
            }
            if budget == spent_before {
                break;
            }
        }
        proof { crate::async_exec::lemma_occupied_count_bound(self.occupied(), N as int); }
        ReactorStats { polled, completed, live: word_of(self.count), fuel_exhausted: exhausted }
    }

    /// Poll the live tasks whose bits are set in `batch`, lowest slot first,
    /// one fuel unit each. Returns whether the fuel ran out at a set bit, and
    /// then the bits not yet handled.
    fn run_batch(&mut self, batch: u32, budget: &mut u32, polled: &mut u32, completed: &mut u32) -> (r: (bool, u32))
        requires
            old(self).wf(),
            *old(budget) + *old(polled) <= u32::MAX,
            *old(completed) <= *old(polled),
        ensures
            final(self).wf(),
            final(self).spec_core_identity() == old(self).spec_core_identity(),
            *final(budget) + *final(polled) == *old(budget) + *old(polled),
            *final(budget) <= *old(budget),
            *final(completed) - *old(completed) <= *final(polled) - *old(polled),
            *final(completed) >= *old(completed),
            final(self).live_count() + *final(completed) == old(self).live_count() + *old(completed),
            r.0 ==> *final(budget) == 0,
            forall|i: int| 0 <= i < N && #[trigger] final(self).occupied()[i] ==> old(self).occupied()[i],
    {
        let mut rest: u32 = batch;
        let mut index: usize = 0;
        while index < 32
            invariant
                self.wf(),
                self.spec_core_identity() == old(self).spec_core_identity(),
                *budget + *polled == *old(budget) + *old(polled),
                *old(budget) + *old(polled) <= u32::MAX,
                *old(completed) <= *old(polled),
                *budget <= *old(budget),
                *completed - *old(completed) <= *polled - *old(polled),
                *completed >= *old(completed),
                self.live_count() + *completed == old(self).live_count() + *old(completed),
                forall|i: int| 0 <= i < N && #[trigger] self.occupied()[i] ==> old(self).occupied()[i],
                index <= 32,
            decreases 32 - index,
        {
            let bit = slot_bit(index);
            if (rest & bit) != 0 {
                if *budget == 0 {
                    return (true, rest);
                }
                rest = rest & !bit;
                if index < N && self.slots[index].is_some() {
                    *budget = *budget - 1;
                    *polled = *polled + 1;
                    let ghost before = self.occupied();
                    let ghost cur = self.slots@;
                    let mut slot: Option<T> = None;
                    self.slots.set_and_swap(index, &mut slot);
                    assert(slot == cur[index as int]);
                    match slot {
                        Some(mut task) => {
                            if task.poll_ready(index) {
                                *completed = *completed + 1;
                                assert(self.occupied() =~= before.update(index as int, false));
                                proof {
                                    crate::async_exec::lemma_occupied_count_update(before, index as int, false, N as int);
                                }
                                self.count = self.count - 1;
                            } else {
                                self.slots.set(index, Some(task));
                                assert(self.occupied() =~= before);
                            }
                        },
                        None => {
                            assert(self.occupied() =~= before);
                        },
                    }
                }
            }
            index += 1;
        }
        (false, rest)
    }
}

} // verus!
