//! Fair multi-waiter parking: a fixed-capacity FIFO of task wakers, plus the
//! attributed errors of the bounded multi-producer, multi-consumer surface.
//!
//! Enqueue deduplicates by `Waker::will_wake`, and wake order is arrival
//! order, so no waiter is starved and a wake storm collapses to one entry per
//! task.

use core::task::Waker;
use std::collections::VecDeque;
use vstd::prelude::*;

use crate::waker::{waker_clone, waker_wake, waker_will_wake};

verus! {

/// Why a waiter could not be parked or a group could not admit a member.
#[derive(Clone, Copy, Debug, PartialEq, Eq, Structural)]
pub enum WaitError {
    /// The fixed waiter capacity `W` is exhausted.
    WaitersFull,
}

/// Why a non-blocking send could not accept the value.
#[derive(Clone, Copy, Debug, PartialEq, Eq)]
pub enum MpmcTrySendError<T> {
    /// The ring is at capacity; retry after a receiver makes space.
    Full(T),
    /// The channel is closed and will never accept another value.
    Closed(T),
}

impl<T> MpmcTrySendError<T> {
    /// The value that was not sent.
    pub fn into_inner(self) -> (r: T)
        ensures
            r == match self {
                MpmcTrySendError::Full(v) => v,
                MpmcTrySendError::Closed(v) => v,
            },
    {
        match self {
            MpmcTrySendError::Full(value) => value,
            MpmcTrySendError::Closed(value) => value,
        }
    }
}

/// Terminal failure of a blocking send.
#[derive(Clone, Copy, Debug, PartialEq, Eq)]
pub enum MpmcSendError<T> {
    /// The channel closed before the value could be delivered.
    Closed(T),
    /// The admitted sender-waiter capacity was exhausted.
    WaitersFull(T),
}

impl<T> MpmcSendError<T> {
    /// The value that was not sent.
    pub fn into_inner(self) -> (r: T)
        ensures
            r == match self {
                MpmcSendError::Closed(v) => v,
                MpmcSendError::WaitersFull(v) => v,
            },
    {
        match self {
            MpmcSendError::Closed(value) => value,
            MpmcSendError::WaitersFull(value) => value,
        }
    }
}

/// Registration key of a waiter parked through `park`.
pub const UNTRACKED: usize = 0;

/// One parked waiter: its registration key and its waker.
pub struct WaitSlot {
    registration: usize,
    waker: Waker,
}

/// A fixed-capacity FIFO of wakers with arrival-order fairness and dedup.
pub struct WaitQueue<const W: usize> {
    slots: Vec<WaitSlot>,
}

pub open spec fn reg_hits(regs: Seq<usize>, registration: usize) -> spec_fn(int) -> Option<int> {
    |p: int| if regs[p] == registration { Some(p) } else { None }
}

/// The first parked waiter with `registration`.
pub open spec fn reg_index(regs: Seq<usize>, registration: usize) -> Option<int> {
    crate::scan::first_some(reg_hits(regs, registration), regs.len() as int)
}

/// The registration keys once `registration` is withdrawn.
pub open spec fn regs_without(regs: Seq<usize>, registration: usize) -> Seq<usize> {
    match reg_index(regs, registration) {
        Some(p) => regs.remove(p),
        None => regs,
    }
}

/// The registration keys once the oldest waiter has been woken.
pub open spec fn regs_after_wake_one(regs: Seq<usize>) -> Seq<usize> {
    if regs.len() > 0 { regs.drop_first() } else { regs }
}

/// Whether a registration under `registration` is admitted by a queue of
/// `W` places holding `regs`: a known key always is, a new one needs room.
pub open spec fn admits(regs: Seq<usize>, registration: usize, w: usize) -> bool {
    reg_index(regs, registration) is Some || regs.len() < w
}

/// The registration keys once `registration` has been admitted.
pub open spec fn regs_registered(regs: Seq<usize>, registration: usize) -> Seq<usize> {
    if reg_index(regs, registration) is Some { regs } else { regs.push(registration) }
}

impl<const W: usize> WaitQueue<W> {
    /// Registration keys of the parked waiters, oldest first.
    pub closed spec fn regs(self) -> Seq<usize> {
        self.slots@.map_values(|s: WaitSlot| s.registration)
    }

    /// Wakers of the parked waiters, oldest first.
    pub closed spec fn wakers(self) -> Seq<Waker> {
        self.slots@.map_values(|s: WaitSlot| s.waker)
    }

    pub closed spec fn wf(self) -> bool {
        self.slots@.len() <= W
    }

    pub fn new() -> (r: Self)
        ensures
            r.wf(),
            r.regs().len() == 0,
            r.wakers().len() == 0,
    {
        WaitQueue { slots: Vec::new() }
    }

    /// Park `waker` at the back unless a parked waker would wake the same
    /// task; refused only when all `W` places are taken.
    pub fn park(&mut self, waker: &Waker) -> (r: Result<(), WaitError>)
        requires
            old(self).wf(),
        ensures
            final(self).wf(),
            r is Err ==> r == Err::<(), WaitError>(WaitError::WaitersFull) && old(self).regs().len() == W && *final(self) == *old(self),
            old(self).regs().len() < W ==> r is Ok,
            r is Ok ==> *final(self) == *old(self) || (final(self).regs() == old(self).regs().push(UNTRACKED)
                && final(self).wakers().drop_last() == old(self).wakers()),
    {
        let mut i: usize = 0;
        while i < self.slots.len()
            invariant
                i <= self.slots@.len(),
                self.wf(),
                *self == *old(self),
            decreases self.slots@.len() - i,
        {
            if waker_will_wake(&self.slots[i].waker, waker) {
                return Ok(());
            }
            i += 1;
        }
        if self.slots.len() >= W {
            return Err(WaitError::WaitersFull);
        }
        let w = waker_clone(waker);
        self.slots.push(WaitSlot { registration: UNTRACKED, waker: w });
        proof {
            assert(self.regs() =~= old(self).regs().push(UNTRACKED));
            assert(self.wakers().drop_last() =~= old(self).wakers());
        }
        Ok(())
    }

    /// Register one future under its own key, independently of other futures
    /// sharing its task waker: a known key keeps its place (its waker may be
    /// refreshed), a new key joins at the back unless the queue is full.
    pub fn register(&mut self, registration: usize, waker: &Waker) -> (r: Result<(), WaitError>)
        requires
            old(self).wf(),
        ensures
            final(self).wf(),
            reg_index(old(self).regs(), registration) is Some ==> r is Ok && final(self).regs() == old(self).regs()
                && final(self).wakers().len() == old(self).wakers().len(),
            reg_index(old(self).regs(), registration) is None && old(self).regs().len() >= W
                ==> r == Err::<(), WaitError>(WaitError::WaitersFull) && *final(self) == *old(self),
            reg_index(old(self).regs(), registration) is None && old(self).regs().len() < W
                ==> r is Ok && final(self).regs() == old(self).regs().push(registration)
                && final(self).wakers().drop_last() == old(self).wakers(),
    {
        match self.position_of(registration) {
            Some(p) => {
                if !waker_will_wake(&self.slots[p].waker, waker) {
                    let w = waker_clone(waker);
                    self.slots.set(p, WaitSlot { registration, waker: w });
                    proof {
                        assert(self.regs() =~= old(self).regs());
                    }
                }
                Ok(())
            },
            None => {
                if self.slots.len() >= W {
                    return Err(WaitError::WaitersFull);
                }
                let w = waker_clone(waker);
                self.slots.push(WaitSlot { registration, waker: w });
                proof {
                    assert(self.regs() =~= old(self).regs().push(registration));
                    assert(self.wakers().drop_last() =~= old(self).wakers());
                }
                Ok(())
            },
        }
    }

    fn position_of(&self, registration: usize) -> (r: Option<usize>)
        ensures
            r matches Some(p) ==> reg_index(self.regs(), registration) == Some(p as int) && p < self.regs().len()
                && self.regs()[p as int] == registration,
            r is None ==> reg_index(self.regs(), registration) is None,
    {
        let ghost f = reg_hits(self.regs(), registration);
        let mut p: usize = 0;
        while p < self.slots.len()
            invariant
                p <= self.slots@.len(),
                f == reg_hits(self.regs(), registration),
                crate::scan::first_some(f, p as int) is None,
            decreases self.slots@.len() - p,
        {
            assert(f(p as int) == reg_hits(self.regs(), registration)(p as int));
            if self.slots[p].registration == registration {
                proof { crate::scan::lemma_first_some_hit(f, p as int, self.slots@.len() as int); }
                return Some(p);
            }
            p += 1;
        }
        None
    }

    /// Wake the oldest waiter and remove it; returns whether one woke.
    pub fn wake_one(&mut self) -> (r: bool)
        requires
            old(self).wf(),
        ensures
            final(self).wf(),
            r == (old(self).regs().len() > 0),
            r ==> final(self).regs() == old(self).regs().drop_first() && final(self).wakers() == old(self).wakers().drop_first(),
            !r ==> *final(self) == *old(self),
    {
        if self.slots.len() == 0 {
            return false;
        }
        let waiter = self.slots.remove(0);
        proof {
            assert(self.regs() =~= old(self).regs().drop_first());
            assert(self.wakers() =~= old(self).wakers().drop_first());
        }
        waker_wake(waiter.waker);
        true
    }

    /// Wake every parked waiter, oldest first, and empty the queue.
    pub fn wake_all(&mut self)
        requires
            old(self).wf(),
        ensures
            final(self).wf(),
            final(self).regs().len() == 0,
            final(self).wakers().len() == 0,
    {
        while self.slots.len() > 0
            invariant
                self.wf(),
            decreases self.slots@.len(),
        {
            let waiter = self.slots.remove(0);
            waker_wake(waiter.waker);
        }
    }

    /// Remove one parked waker that would wake the same task as `waker`;
    /// returns whether one was removed.
    pub fn remove(&mut self, waker: &Waker) -> (r: bool)
        requires
            old(self).wf(),
        ensures
            final(self).wf(),
            !r ==> *final(self) == *old(self),
            r ==> exists|p: int| 0 <= p < old(self).regs().len() && final(self).regs() == old(self).regs().remove(p)
                && final(self).wakers() == old(self).wakers().remove(p),
    {
        let mut i: usize = 0;
        while i < self.slots.len()
            invariant
                i <= self.slots@.len(),
                self.wf(),
                *self == *old(self),
            decreases self.slots@.len() - i,
        {
            if waker_will_wake(&self.slots[i].waker, waker) {
                self.remove_index(i);
                return true;
            }
            i += 1;
        }
        false
    }

    /// Remove the waiter registered under `registration`; returns whether
    /// one was.
    pub fn unregister(&mut self, registration: usize) -> (r: bool)
        requires
            old(self).wf(),
        ensures
            final(self).wf(),
            r == reg_index(old(self).regs(), registration) is Some,
            !r ==> *final(self) == *old(self),
            r ==> ({
                let p = reg_index(old(self).regs(), registration).unwrap();
                final(self).regs() == old(self).regs().remove(p) && final(self).wakers() == old(self).wakers().remove(p)
            }),
    {
        match self.position_of(registration) {
            Some(p) => {
                self.remove_index(p);
                true
            },
            None => false,
        }
    }

    fn remove_index(&mut self, index: usize)
        requires
            old(self).wf(),
            index < old(self).regs().len(),
        ensures
            final(self).wf(),
            final(self).regs() == old(self).regs().remove(index as int),
            final(self).wakers() == old(self).wakers().remove(index as int),
    {
        let _ = self.slots.remove(index);
        proof {
            assert(self.regs() =~= old(self).regs().remove(index as int));
            assert(self.wakers() =~= old(self).wakers().remove(index as int));
        }
    }

    pub fn len(&self) -> (r: usize)
        ensures
            r == self.regs().len(),
    {
        self.slots.len()
    }

    pub fn is_empty(&self) -> (r: bool)
        ensures
            r == (self.regs().len() == 0),
    {
        self.slots.len() == 0
    }
}

impl<const W: usize> Default for WaitQueue<W> {
    fn default() -> (r: Self)
        ensures
            r.wf(),
            r.regs().len() == 0,
    {
        Self::new()
    }
}


/// What one poll of a blocking send decided.
#[derive(Debug, PartialEq, Eq)]
pub enum MpmcSendStep<T> {
    /// The send finished: delivered, or failed with the undelivered value.
    Ready(Result<(), MpmcSendError<T>>),
    /// The sender is parked; the value is handed back for the next poll.
    Pending(T),
}

/// What one poll of a blocking receive decided; `None` inside `Ready` is
/// end-of-stream (closed and drained).
#[derive(Debug, PartialEq, Eq)]
pub enum MpmcRecvStep<T> {
    Ready(Result<Option<T>, WaitError>),
    Pending,
}

/// A bounded multi-producer, multi-consumer channel: a FIFO of at most `C`
/// values, served by one fair wait queue of `W` places per side.
pub struct MpmcChannel<T, const C: usize, const W: usize> {
    queue: VecDeque<T>,
    closed: bool,
    recv_waiters: WaitQueue<W>,
    send_waiters: WaitQueue<W>,
}

impl<T, const C: usize, const W: usize> MpmcChannel<T, C, W> {
    /// The buffered values, oldest first.
    pub closed spec fn items(self) -> Seq<T> {
        self.queue@
    }

    pub closed spec fn spec_closed(self) -> bool {
        self.closed
    }

    /// Registration keys of the parked receivers, oldest first.
    pub closed spec fn recv_regs(self) -> Seq<usize> {
        self.recv_waiters.regs()
    }

    /// Registration keys of the parked senders, oldest first.
    pub closed spec fn send_regs(self) -> Seq<usize> {
        self.send_waiters.regs()
    }

    pub closed spec fn wf(self) -> bool {
        &&& self.queue@.len() <= C
        &&& self.recv_waiters.wf()
        &&& self.send_waiters.wf()
    }

    pub fn new() -> (r: Self)
        ensures
            r.wf(),
            r.items().len() == 0,
            !r.spec_closed(),
            r.recv_regs().len() == 0,
            r.send_regs().len() == 0,
    {
        MpmcChannel { queue: VecDeque::new(), closed: false, recv_waiters: WaitQueue::new(), send_waiters: WaitQueue::new() }
    }

    /// Push without blocking; on failure the value comes back with no reason.
    pub fn try_send(&mut self, value: T) -> (r: Result<(), T>)
        requires
            old(self).wf(),
        ensures
            final(self).wf(),
            (old(self).spec_closed() || old(self).items().len() >= C) ==> r == Err::<(), T>(value) && *final(self) == *old(self),
            !(old(self).spec_closed() || old(self).items().len() >= C) ==> r is Ok
                && final(self).items() == old(self).items().push(value)
                && final(self).spec_closed() == old(self).spec_closed()
                && final(self).recv_regs() == regs_after_wake_one(old(self).recv_regs())
                && final(self).send_regs() == old(self).send_regs(),
    {
        match self.try_send_checked(value) {
            Ok(()) => Ok(()),
            Err(e) => Err(e.into_inner()),
        }
    }

    /// Push without blocking, keeping the reason and the value on failure.
    /// A delivered value wakes the oldest parked receiver.
    pub fn try_send_checked(&mut self, value: T) -> (r: Result<(), MpmcTrySendError<T>>)
        requires
            old(self).wf(),
        ensures
            final(self).wf(),
            old(self).spec_closed() ==> r == Err::<(), MpmcTrySendError<T>>(MpmcTrySendError::Closed(value))
                && *final(self) == *old(self),
            !old(self).spec_closed() && old(self).items().len() >= C
                ==> r == Err::<(), MpmcTrySendError<T>>(MpmcTrySendError::Full(value)) && *final(self) == *old(self),
            !old(self).spec_closed() && old(self).items().len() < C ==> r is Ok
                && final(self).items() == old(self).items().push(value)
                && final(self).spec_closed() == old(self).spec_closed()
                && final(self).recv_regs() == regs_after_wake_one(old(self).recv_regs())
                && final(self).send_regs() == old(self).send_regs(),
    {
        if self.closed {
            return Err(MpmcTrySendError::Closed(value));
        }
        if self.queue.len() >= C {
            return Err(MpmcTrySendError::Full(value));
        }
        self.queue.push_back(value);
        self.recv_waiters.wake_one();
        Ok(())
    }

    /// Pop without blocking; `None` when empty. A taken value wakes the
    /// oldest parked sender.
    pub fn try_recv(&mut self) -> (r: Option<T>)
        requires
            old(self).wf(),
        ensures
            final(self).wf(),
            old(self).items().len() == 0 ==> r is None && *final(self) == *old(self),
            old(self).items().len() > 0 ==> r == Some(old(self).items()[0])
                && final(self).items() == old(self).items().drop_first()
                && final(self).spec_closed() == old(self).spec_closed()
                && final(self).send_regs() == regs_after_wake_one(old(self).send_regs())
                && final(self).recv_regs() == old(self).recv_regs(),
    {
        if self.queue.len() == 0 {
            return None;
        }
        let value = self.queue.pop_front();
        self.send_waiters.wake_one();
        value
    }

    /// Close the channel: later sends fail and every parked waiter wakes.
    pub fn close(&mut self)
        requires
            old(self).wf(),
        ensures
            final(self).wf(),
            final(self).spec_closed(),
            final(self).items() == old(self).items(),
            final(self).recv_regs().len() == 0,
            final(self).send_regs().len() == 0,
    {
        self.closed = true;
        self.recv_waiters.wake_all();
        self.send_waiters.wake_all();
    }

    pub fn is_closed(&self) -> (r: bool)
        ensures
            r == self.spec_closed(),
    {
        self.closed
    }

    pub fn len(&self) -> (r: usize)
        ensures
            r == self.items().len(),
    {
        self.queue.len()
    }

    pub fn is_empty(&self) -> (r: bool)
        ensures
            r == (self.items().len() == 0),
    {
        self.queue.len() == 0
    }

    /// Withdraw the parked sender registered under `registration`, if any.
    pub fn remove_sender(&mut self, registration: usize)
        requires
            old(self).wf(),
        ensures
            final(self).wf(),
            final(self).items() == old(self).items(),
            final(self).spec_closed() == old(self).spec_closed(),
            final(self).recv_regs() == old(self).recv_regs(),
            final(self).send_regs() == regs_without(old(self).send_regs(), registration),
    {
        let _ = self.send_waiters.unregister(registration);
    }

    /// Withdraw the parked receiver registered under `registration`, if any.
    pub fn remove_receiver(&mut self, registration: usize)
        requires
            old(self).wf(),
        ensures
            final(self).wf(),
            final(self).items() == old(self).items(),
            final(self).spec_closed() == old(self).spec_closed(),
            final(self).send_regs() == old(self).send_regs(),
            final(self).recv_regs() == regs_without(old(self).recv_regs(), registration),
    {
        let _ = self.recv_waiters.unregister(registration);
    }

    /// One poll of a blocking send by the sender registered under
    /// `registration`: deliver if there is room; fail with the value if the
    /// channel is closed or no sender place is left; else park and wait.
    pub fn poll_send(&mut self, registration: usize, value: T, waker: &Waker) -> (r: MpmcSendStep<T>)
        requires
            old(self).wf(),
        ensures
            final(self).wf(),
            old(self).spec_closed() ==> r == MpmcSendStep::Ready(Err::<(), MpmcSendError<T>>(MpmcSendError::Closed(value)))
                && final(self).items() == old(self).items()
                && final(self).spec_closed()
                && final(self).recv_regs() == old(self).recv_regs()
                && final(self).send_regs() == regs_without(old(self).send_regs(), registration),
            !old(self).spec_closed() && old(self).items().len() < C ==> r == MpmcSendStep::<T>::Ready(Ok(()))
                && final(self).items() == old(self).items().push(value)
                && !final(self).spec_closed()
                && final(self).recv_regs() == regs_after_wake_one(old(self).recv_regs())
                && final(self).send_regs() == regs_without(old(self).send_regs(), registration),
            !old(self).spec_closed() && old(self).items().len() >= C && !admits(old(self).send_regs(), registration, W)
                ==> r == MpmcSendStep::Ready(Err::<(), MpmcSendError<T>>(MpmcSendError::WaitersFull(value)))
                && *final(self) == *old(self),
            !old(self).spec_closed() && old(self).items().len() >= C && admits(old(self).send_regs(), registration, W)
                ==> r == MpmcSendStep::Pending(value)
                && final(self).items() == old(self).items()
                && !final(self).spec_closed()
                && final(self).recv_regs() == old(self).recv_regs()
                && final(self).send_regs() == regs_registered(old(self).send_regs(), registration),
    {
        match self.try_send_checked(value) {
            Ok(()) => {
                self.remove_sender(registration);
                MpmcSendStep::Ready(Ok(()))
            },
            Err(MpmcTrySendError::Closed(value)) => {
                self.remove_sender(registration);
                MpmcSendStep::Ready(Err(MpmcSendError::Closed(value)))
            },
            Err(MpmcTrySendError::Full(value)) => {
                match self.send_waiters.register(registration, waker) {
                    Err(WaitError::WaitersFull) => MpmcSendStep::Ready(Err(MpmcSendError::WaitersFull(value))),
                    Ok(()) => MpmcSendStep::Pending(value),
                }
            },
        }
    }

    /// One poll of a blocking receive by the receiver registered under
    /// `registration`: take the oldest value if there is one; report
    /// end-of-stream on a closed, drained channel; fail if no receiver place
    /// is left; else park and wait.
    pub fn poll_recv(&mut self, registration: usize, waker: &Waker) -> (r: MpmcRecvStep<T>)
        requires
            old(self).wf(),
        ensures
            final(self).wf(),
            final(self).spec_closed() == old(self).spec_closed(),
            old(self).items().len() > 0 ==> r == MpmcRecvStep::Ready(Ok::<Option<T>, WaitError>(Some(old(self).items()[0])))
                && final(self).items() == old(self).items().drop_first()
                && final(self).send_regs() == regs_after_wake_one(old(self).send_regs())
                && final(self).recv_regs() == regs_without(old(self).recv_regs(), registration),
            old(self).items().len() == 0 && old(self).spec_closed() ==> r == MpmcRecvStep::Ready(Ok::<Option<T>, WaitError>(None))
                && final(self).items() == old(self).items()
                && final(self).send_regs() == old(self).send_regs()
                && final(self).recv_regs() == regs_without(old(self).recv_regs(), registration),
            old(self).items().len() == 0 && !old(self).spec_closed() && !admits(old(self).recv_regs(), registration, W)
                ==> r == MpmcRecvStep::Ready(Err::<Option<T>, WaitError>(WaitError::WaitersFull)) && *final(self) == *old(self),
            old(self).items().len() == 0 && !old(self).spec_closed() && admits(old(self).recv_regs(), registration, W)
                ==> r == MpmcRecvStep::<T>::Pending
                && final(self).items() == old(self).items()
                && final(self).send_regs() == old(self).send_regs()
                && final(self).recv_regs() == regs_registered(old(self).recv_regs(), registration),
    {
        match self.try_recv() {
            Some(value) => {
                self.remove_receiver(registration);
                MpmcRecvStep::Ready(Ok(Some(value)))
            },
            None => {
                if self.closed {
                    self.remove_receiver(registration);
                    return MpmcRecvStep::Ready(Ok(None));
                }
                match self.recv_waiters.register(registration, waker) {
                    Err(e) => MpmcRecvStep::Ready(Err(e)),
                    Ok(()) => MpmcRecvStep::Pending,
                }
            },
        }
    }
}

/// A scoped set of at most `N` related tasks sharing one cancellation signal
/// and a completion tally.
pub struct TaskGroup<const N: usize> {
    cancelled: bool,
    done: Vec<bool>,
    members: usize,
    waiters: WaitQueue<N>,
}

impl<const N: usize> TaskGroup<N> {
    /// Completion flags, one per member place.
    pub closed spec fn done_flags(self) -> Seq<bool> {
        self.done@
    }

    pub closed spec fn spec_members(self) -> nat {
        self.members as nat
    }

    pub closed spec fn spec_cancelled(self) -> bool {
        self.cancelled
    }

    /// Registration keys of the parked cancellation waiters, oldest first.
    pub closed spec fn waiter_regs(self) -> Seq<usize> {
        self.waiters.regs()
    }

    pub closed spec fn wf(self) -> bool {
        &&& self.done@.len() == N
        &&& self.members <= N
        &&& self.waiters.wf()
    }

    /// Every reserved member has marked itself done, and there is one.
    pub open spec fn spec_all_done(self) -> bool {
        &&& self.spec_members() > 0
        &&& forall|i: int| 0 <= i < self.spec_members() ==> #[trigger] self.done_flags()[i]
    }

    pub fn new() -> (r: Self)
        ensures
            r.wf(),
            !r.spec_cancelled(),
            r.spec_members() == 0,
            r.done_flags() == Seq::new(N as nat, |i: int| false),
            r.waiter_regs().len() == 0,
    {
        let mut done: Vec<bool> = Vec::new();
        let mut i: usize = 0;
        while i < N
            invariant
                i <= N,
                done@ == Seq::new(i as nat, |j: int| false),
            decreases N - i,
        {
            done.push(false);
            i += 1;
        }
        TaskGroup { cancelled: false, done, members: 0, waiters: WaitQueue::new() }
    }

    /// Reserve the next member place and return its index.
    pub fn join_member(&mut self) -> (r: Result<usize, WaitError>)
        requires
            old(self).wf(),
        ensures
            final(self).wf(),
            old(self).spec_members() == N ==> r == Err::<usize, WaitError>(WaitError::WaitersFull) && *final(self) == *old(self),
            old(self).spec_members() < N ==> r == Ok::<usize, WaitError>(old(self).spec_members() as usize)
                && final(self).spec_members() == old(self).spec_members() + 1
                && final(self).done_flags() == old(self).done_flags()
                && final(self).spec_cancelled() == old(self).spec_cancelled()
                && final(self).waiter_regs() == old(self).waiter_regs(),
    {
        if self.members == N {
            return Err(WaitError::WaitersFull);
        }
        let index = self.members;
        self.members = self.members + 1;
        Ok(index)
    }

    pub fn is_cancelled(&self) -> (r: bool)
        ensures
            r == self.spec_cancelled(),
    {
        self.cancelled
    }

    /// Cancel the whole group and wake every parked waiter.
    pub fn cancel_all(&mut self)
        requires
            old(self).wf(),
        ensures
            final(self).wf(),
            final(self).spec_cancelled(),
            final(self).waiter_regs().len() == 0,
            final(self).spec_members() == old(self).spec_members(),
            final(self).done_flags() == old(self).done_flags(),
    {
        self.cancelled = true;
        self.waiters.wake_all();
    }

    /// Mark member `index` finished; an index past `N` is ignored.
    pub fn mark_done(&mut self, index: usize)
        requires
            old(self).wf(),
        ensures
            final(self).wf(),
            index < N ==> final(self).done_flags() == old(self).done_flags().update(index as int, true),
            index >= N ==> final(self).done_flags() == old(self).done_flags(),
            final(self).spec_members() == old(self).spec_members(),
            final(self).spec_cancelled() == old(self).spec_cancelled(),
            final(self).waiter_regs() == old(self).waiter_regs(),
    {
        if index < self.done.len() {
            self.done.set(index, true);
        }
    }

    /// True once every reserved member has marked itself done.
    pub fn all_done(&self) -> (r: bool)
        requires
            self.wf(),
        ensures
            r == self.spec_all_done(),
    {
        if self.members == 0 {
            return false;
        }
        let mut i: usize = 0;
        while i < self.members
            invariant
                self.wf(),
                i <= self.members,
                forall|j: int| 0 <= j < i ==> #[trigger] self.done@[j],
            decreases self.members - i,
        {
            if !self.done[i] {
                assert(!self.done_flags()[i as int]);
                return false;
            }
            i += 1;
        }
        true
    }

    /// Withdraw the cancellation waiter registered under `registration`.
    pub fn remove_waiter(&mut self, registration: usize)
        requires
            old(self).wf(),
        ensures
            final(self).wf(),
            final(self).waiter_regs() == regs_without(old(self).waiter_regs(), registration),
            final(self).spec_members() == old(self).spec_members(),
            final(self).spec_cancelled() == old(self).spec_cancelled(),
            final(self).done_flags() == old(self).done_flags(),
    {
        let _ = self.waiters.unregister(registration);
    }

    /// One poll of a cancellation wait by the waiter registered under
    /// `registration`: `Some(Ok(()))` once cancelled, `Some(Err(..))` when no
    /// waiter place is left, `None` when parked.
    pub fn poll_cancelled(&mut self, registration: usize, waker: &Waker) -> (r: Option<Result<(), WaitError>>)
        requires
            old(self).wf(),
        ensures
            final(self).wf(),
            final(self).spec_members() == old(self).spec_members(),
            final(self).spec_cancelled() == old(self).spec_cancelled(),
            final(self).done_flags() == old(self).done_flags(),
            old(self).spec_cancelled() ==> r == Some(Ok::<(), WaitError>(()))
                && final(self).waiter_regs() == regs_without(old(self).waiter_regs(), registration),
            !old(self).spec_cancelled() && !admits(old(self).waiter_regs(), registration, N)
                ==> r == Some(Err::<(), WaitError>(WaitError::WaitersFull)) && *final(self) == *old(self),
            !old(self).spec_cancelled() && admits(old(self).waiter_regs(), registration, N)
                ==> r is None && final(self).waiter_regs() == regs_registered(old(self).waiter_regs(), registration),
    {
        if self.cancelled {
            self.remove_waiter(registration);
            return Some(Ok(()));
        }
        match self.waiters.register(registration, waker) {
            Err(e) => Some(Err(e)),
            Ok(()) => None,
        }
    }
}

} // verus!
