//! Bounded cooperative executor: a fixed table of `N` caller tasks, each
//! polled once per pass until it finishes, with no allocation past the table
//! and a round budget that turns a task that never finishes into an error.

use vstd::prelude::*;

verus! {

/// One unit of cooperative work: each poll advances it and reports whether
/// it has finished. What a poll does is the task's own business.
pub trait AsyncTask {
    fn poll_once(&mut self) -> bool;
}

#[derive(Clone, Copy, Debug, PartialEq, Eq, Structural)]
pub enum AsyncError {
    /// The task table is full (`spawn` past capacity `N`).
    Full,
    /// `run_to_idle` used its round budget with tasks still pending.
    Stalled,
}

/// Outcome of a single [`BoundedExecutor::run_once`] pass.
#[derive(Clone, Copy, Debug, Default, PartialEq, Eq, Structural)]
pub struct RunStats {
    /// Tasks polled this pass: those pending at its start.
    pub polled: u32,
    /// Tasks that finished during this pass.
    pub completed: u32,
    /// Tasks still pending after this pass.
    pub pending: u32,
}

/// How many of the first `k` slots hold a task.
pub open spec fn occupied_count(occupied: Seq<bool>, k: int) -> nat
    decreases k,
{
    if k <= 0 {
        0
    } else {
        occupied_count(occupied, k - 1) + if occupied[k - 1] { 1nat } else { 0nat }
    }
}

pub(crate) proof fn lemma_occupied_count_bound(occupied: Seq<bool>, k: int)
    requires
        0 <= k <= occupied.len(),
    ensures
        occupied_count(occupied, k) <= k,
    decreases k,
{
    if k > 0 {
        lemma_occupied_count_bound(occupied, k - 1);
    }
}

pub(crate) proof fn lemma_occupied_count_update(occupied: Seq<bool>, i: int, v: bool, k: int)
    requires
        0 <= i < occupied.len(),
        0 <= k <= occupied.len(),
    ensures
        occupied_count(occupied.update(i, v), k) == if i < k {
            occupied_count(occupied, k) - (if occupied[i] { 1int } else { 0int }) + (if v { 1int } else { 0int })
        } else {
            occupied_count(occupied, k) as int
        },
    decreases k,
{
    if k > 0 {
        lemma_occupied_count_update(occupied, i, v, k - 1);
    }
}

/// A fixed-capacity cooperative executor over `N` task slots.
pub struct BoundedExecutor<T, const N: usize> {
    slots: Vec<Option<T>>,
    count: usize,
}

impl<T: AsyncTask, const N: usize> BoundedExecutor<T, N> {
    /// Which slots hold a task.
    pub closed spec fn occupied(self) -> Seq<bool> {
        self.slots@.map_values(|s: Option<T>| s is Some)
    }

    /// The number of live tasks.
    pub open spec fn live(self) -> nat {
        occupied_count(self.occupied(), N as int)
    }

    pub closed spec fn wf(self) -> bool {
        &&& self.slots@.len() == N
        &&& N <= u32::MAX
        &&& self.count == self.live()
    }

    pub fn new() -> (r: Self)
        requires
            N <= u32::MAX,
        ensures
            r.wf(),
            r.occupied() == Seq::new(N as nat, |i: int| false),
            r.live() == 0,
    {
        let mut slots: Vec<Option<T>> = Vec::new();
        let mut i: usize = 0;
        while i < N
            invariant
                i <= N,
                slots@.len() == i,
                forall|j: int| 0 <= j < i ==> slots@[j] is None,
            decreases N - i,
        {
            slots.push(None);
            i += 1;
        }
        let r = BoundedExecutor { slots, count: 0 };
        assert(r.occupied() =~= Seq::new(N as nat, |i: int| false));
        proof { lemma_none_occupied(r.occupied(), N as int); }
        r
    }

    /// Number of live (spawned, not yet finished) tasks.
    pub fn len(&self) -> (r: usize)
        requires
            self.wf(),
        ensures
            r == self.live(),
    {
        self.count
    }

    pub fn is_empty(&self) -> (r: bool)
        requires
            self.wf(),
        ensures
            r == (self.live() == 0),
    {
        self.count == 0
    }

    pub fn capacity(&self) -> (r: usize)
        ensures
            r == N,
    {
        N
    }

    /// Register a task in the first free slot and return its index, or
    /// [`AsyncError::Full`] when every slot is taken.
    pub fn spawn(&mut self, task: T) -> (r: Result<usize, AsyncError>)
        requires
            old(self).wf(),
        ensures
            final(self).wf(),
            r matches Ok(i) ==> {
                &&& i < N && !old(self).occupied()[i as int]
                &&& forall|j: int| 0 <= j < i ==> #[trigger] old(self).occupied()[j]
                &&& final(self).occupied() == old(self).occupied().update(i as int, true)
                &&& final(self).live() == old(self).live() + 1
            },
            r is Err ==> r == Err::<usize, AsyncError>(AsyncError::Full)
                && (forall|j: int| 0 <= j < N ==> #[trigger] old(self).occupied()[j])
                && *final(self) == *old(self),
    {
        let ghost occ = self.occupied();
        let mut i: usize = 0;
        while i < N
            invariant
                self.wf(),
                *self == *old(self),
                occ == self.occupied(),
                i <= N,
                forall|j: int| 0 <= j < i ==> #[trigger] occ[j],
            decreases N - i,
        {
            if self.slots[i].is_none() {
                proof {
                    lemma_occupied_count_update(occ, i as int, true, N as int);
                    lemma_occupied_count_bound(occ.update(i as int, true), N as int);
                }
                self.slots.set(i, Some(task));
                assert(self.occupied() =~= occ.update(i as int, true));
                self.count = self.count + 1;
                return Ok(i);
            }
            i += 1;
        }
        Err(AsyncError::Full)
    }

    /// Tasks that have not yet finished.
    pub fn pending(&self) -> (r: usize)
        requires
            self.wf(),
        ensures
            r == self.live(),
    {
        let mut n: usize = 0;
        let mut i: usize = 0;
        while i < N
            invariant
                self.wf(),
                i <= N,
                n == occupied_count(self.occupied(), i as int),
            decreases N - i,
        {
            proof { lemma_occupied_count_bound(self.occupied(), i as int); }
            if self.slots[i].is_some() {
                n = n + 1;
            }
            i += 1;
        }
        n
    }

    /// Poll every live task exactly once, in slot order; a task that
    /// finishes frees its slot at once. No slot gains a task.
    pub fn run_once(&mut self) -> (r: RunStats)
        requires
            old(self).wf(),
        ensures
            final(self).wf(),
            r.polled == old(self).live(),
            r.pending == final(self).live(),
            r.completed + r.pending == r.polled,
            forall|i: int| 0 <= i < N && #[trigger] final(self).occupied()[i] ==> old(self).occupied()[i],
    {
        let ghost start = self.occupied();
        let mut polled: u32 = 0;
        let mut completed: u32 = 0;
        let mut i: usize = 0;
        while i < N
            invariant
                self.wf(),
                start.len() == N,
                i <= N,
                polled == occupied_count(start, i as int),
                completed <= polled,
                self.live() + completed == occupied_count(start, N as int),
                forall|j: int| i <= j < N ==> #[trigger] self.occupied()[j] == start[j],
                forall|j: int| 0 <= j < N && #[trigger] self.occupied()[j] ==> start[j],
            decreases N - i,
        {
            proof {
                lemma_occupied_count_bound(start, i as int + 1);
            }
            let ghost before = self.occupied();
            let ghost cur = self.slots@;
            assert(before[i as int] == start[i as int]);
            let mut slot: Option<T> = None;
            self.slots.set_and_swap(i, &mut slot);
            assert(slot == cur[i as int]);
            match slot {
                Some(mut task) => {
                    polled = polled + 1;
                    if task.poll_once() {
                        completed = completed + 1;
                        assert(self.occupied() =~= before.update(i as int, false));
                        proof { lemma_occupied_count_update(before, i as int, false, N as int); }
                        self.count = self.count - 1;
                    } else {
                        self.slots.set(i, Some(task));
                        assert(self.occupied() =~= before);
                    }
                },
                None => {
                    assert(self.occupied() =~= before);
                },
            }
            i += 1;
        }
        let pending = self.count as u32;
        RunStats { polled, completed, pending }
    }

    /// Drive tasks to completion within `max_rounds` passes: the number of
    /// passes used once none is pending, else [`AsyncError::Stalled`].
    pub fn run_to_idle(&mut self, max_rounds: u32) -> (r: Result<u32, AsyncError>)
        requires
            old(self).wf(),
        ensures
            final(self).wf(),
            r is Ok <==> final(self).live() == 0,
            r matches Ok(k) ==> k <= max_rounds && (max_rounds > 0 ==> k >= 1),
            r is Err ==> r == Err::<u32, AsyncError>(AsyncError::Stalled),
            old(self).live() == 0 && max_rounds > 0 ==> r == Ok::<u32, AsyncError>(1),
            old(self).live() == 0 && max_rounds == 0 ==> r == Ok::<u32, AsyncError>(0),
    {
        let mut round: u64 = 1;
        while round <= max_rounds as u64
            invariant
                self.wf(),
                1 <= round <= max_rounds as u64 + 1,
                round > 1 ==> self.live() > 0 && old(self).live() > 0,
                round == 1 ==> *self == *old(self),
            decreases max_rounds as u64 + 1 - round,
        {
            let stats = self.run_once();
            if stats.pending == 0 {
                return Ok(round as u32);
            }
            round = round + 1;
        }
        if self.pending() == 0 {
            Ok(max_rounds)
        } else {
            Err(AsyncError::Stalled)
        }
    }
}

pub(crate) proof fn lemma_none_occupied(occupied: Seq<bool>, k: int)
    requires
        0 <= k <= occupied.len(),
        forall|j: int| 0 <= j < occupied.len() ==> !occupied[j],
    ensures
        occupied_count(occupied, k) == 0,
    decreases k,
{
    if k > 0 {
        lemma_none_occupied(occupied, k - 1);
    }
}

} // verus!
