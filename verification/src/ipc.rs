//! Typed, allocation-bounded IPC for payloads larger than a two-word message.
//!
//! Each payload lives in one generation-tagged pool slot. Destination queues
//! store only typed handles, so a multicast shares one payload instead of
//! copying it. Receivers borrow through a callback and the router releases the
//! reference when the callback returns.

use core::marker::PhantomData;
use vstd::prelude::*;

use crate::health::{same_module, ModuleId};

verus! {

/// A typed reference to one pool slot at one identity (epoch, generation).
#[derive(Debug, PartialEq, Eq)]
pub struct PayloadHandle<T> {
    slot: u16,
    epoch: u16,
    generation: u32,
    marker: PhantomData<T>,
}

impl<T> Clone for PayloadHandle<T> {
    fn clone(&self) -> (r: Self)
        ensures
            r == *self,
    {
        *self
    }
}

impl<T> Copy for PayloadHandle<T> {
}

impl<T> PayloadHandle<T> {
    pub closed spec fn spec_slot(self) -> u16 {
        self.slot
    }

    pub closed spec fn spec_epoch(self) -> u16 {
        self.epoch
    }

    pub closed spec fn spec_generation(self) -> u32 {
        self.generation
    }

    pub fn slot(self) -> (r: u16)
        ensures
            r == self.spec_slot(),
    {
        self.slot
    }

    pub fn generation(self) -> (r: u32)
        ensures
            r == self.spec_generation(),
    {
        self.generation
    }

    pub fn epoch(self) -> (r: u16)
        ensures
            r == self.spec_epoch(),
    {
        self.epoch
    }
}

#[derive(Clone, Copy, Debug, PartialEq, Eq, Structural)]
pub enum PayloadPoolError {
    Full,
    InvalidHandle,
    WrongOwner,
    SharedPayload,
    RefcountOverflow,
    IdentityExhausted,
    Expired,
    InvalidExpiry,
}

/// Who may use a slot's payload.
#[derive(Clone, Copy, Debug, PartialEq, Eq, Structural)]
pub enum PayloadOwnership {
    Vacant,
    Exclusive(ModuleId),
    Shared,
}

/// Everything a slot records besides its payload.
#[derive(Clone, Copy, Debug, PartialEq, Eq, Structural)]
pub struct SlotState {
    pub epoch: u16,
    pub generation: u32,
    pub ownership: PayloadOwnership,
    pub references: u16,
    pub source: ModuleId,
    pub expires_at_us: u64,
}

pub open spec fn occupied(s: SlotState) -> bool {
    !(s.ownership is Vacant)
}

/// A vacant slot can take a fresh identity.
pub open spec fn reusable(s: SlotState) -> bool {
    s.generation < u32::MAX || s.epoch < u16::MAX
}

/// The identity a slot takes on its next allocation.
pub open spec fn next_identity(s: SlotState) -> (u16, u32) {
    if s.generation < u32::MAX {
        (s.epoch, (s.generation + 1) as u32)
    } else {
        ((s.epoch + 1) as u16, 1u32)
    }
}

/// The handle names the slot's current occupant.
pub open spec fn resolves<T>(states: Seq<SlotState>, h: PayloadHandle<T>) -> bool {
    &&& h.spec_slot() < states.len()
    &&& occupied(states[h.spec_slot() as int])
    &&& states[h.spec_slot() as int].epoch == h.spec_epoch()
    &&& states[h.spec_slot() as int].generation == h.spec_generation()
}

/// Why a live use of the handle at `now_us` fails, before ownership is checked.
pub open spec fn live_fault<T>(states: Seq<SlotState>, h: PayloadHandle<T>, now_us: u64) -> Option<PayloadPoolError> {
    if !resolves(states, h) {
        Some(PayloadPoolError::InvalidHandle)
    } else if now_us >= states[h.spec_slot() as int].expires_at_us {
        Some(PayloadPoolError::Expired)
    } else {
        None
    }
}

/// Why an exclusive operation by `owner` on a resolved slot fails.
pub open spec fn ownership_fault(s: SlotState, owner: ModuleId) -> Option<PayloadPoolError> {
    match s.ownership {
        PayloadOwnership::Exclusive(actual) => if actual == owner { None } else { Some(PayloadPoolError::WrongOwner) },
        PayloadOwnership::Shared => Some(PayloadPoolError::SharedPayload),
        PayloadOwnership::Vacant => Some(PayloadPoolError::InvalidHandle),
    }
}

pub open spec fn free_hits(states: Seq<SlotState>) -> spec_fn(int) -> Option<int> {
    |i: int| if !occupied(states[i]) && reusable(states[i]) { Some(i) } else { None }
}

/// The slot a new payload takes: the first vacant one with identities left.
pub open spec fn free_slot(states: Seq<SlotState>) -> Option<int> {
    crate::scan::first_some(free_hits(states), states.len() as int)
}

/// Number of occupied slots among the first `k`.
pub open spec fn occupied_count(states: Seq<SlotState>, k: int) -> nat
    decreases k,
{
    if k <= 0 {
        0
    } else {
        occupied_count(states, k - 1) + if occupied(states[k - 1]) { 1nat } else { 0nat }
    }
}

/// The state a slot takes when freed: its identity stays, nothing else.
pub open spec fn retired(s: SlotState) -> SlotState {
    SlotState { ownership: PayloadOwnership::Vacant, references: 0, expires_at_us: 0, ..s }
}

/// Outcome of allocating a payload for `owner`.
pub open spec fn allocate_verdict(states: Seq<SlotState>, expires_at_us: u64, now_us: u64) -> Option<PayloadPoolError> {
    if expires_at_us <= now_us {
        Some(PayloadPoolError::InvalidExpiry)
    } else {
        match free_slot(states) {
            None => if exists|i: int| 0 <= i < states.len() && !occupied(#[trigger] states[i]) {
                Some(PayloadPoolError::IdentityExhausted)
            } else {
                Some(PayloadPoolError::Full)
            },
            Some(i) => if i > u16::MAX { Some(PayloadPoolError::RefcountOverflow) } else { None },
        }
    }
}

/// Why `owner` cannot use or pass on the payload exclusively at `now_us`.
pub open spec fn exclusive_fault<T>(states: Seq<SlotState>, h: PayloadHandle<T>, owner: ModuleId, now_us: u64) -> Option<PayloadPoolError> {
    match live_fault(states, h, now_us) {
        Some(e) => Some(e),
        None => ownership_fault(states[h.spec_slot() as int], owner),
    }
}

/// Why `owner` cannot free the payload (expiry does not matter).
pub open spec fn release_fault<T>(states: Seq<SlotState>, h: PayloadHandle<T>, owner: ModuleId) -> Option<PayloadPoolError> {
    if !resolves(states, h) {
        Some(PayloadPoolError::InvalidHandle)
    } else {
        ownership_fault(states[h.spec_slot() as int], owner)
    }
}

/// Why a shared reference cannot be used at `now_us`.
pub open spec fn shared_fault<T>(states: Seq<SlotState>, h: PayloadHandle<T>, now_us: u64) -> Option<PayloadPoolError> {
    match live_fault(states, h, now_us) {
        Some(e) => Some(e),
        None => if !(states[h.spec_slot() as int].ownership is Shared) {
            Some(PayloadPoolError::InvalidHandle)
        } else {
            None
        },
    }
}

/// Why a shared reference cannot be dropped (expiry does not matter).
pub open spec fn unshare_fault<T>(states: Seq<SlotState>, h: PayloadHandle<T>) -> Option<PayloadPoolError> {
    if !resolves(states, h) || !(states[h.spec_slot() as int].ownership is Shared) {
        Some(PayloadPoolError::InvalidHandle)
    } else {
        None
    }
}

/// Why the owner cannot turn the payload into `references` shared references.
pub open spec fn share_fault<T>(states: Seq<SlotState>, h: PayloadHandle<T>, owner: ModuleId, references: usize, now_us: u64) -> Option<PayloadPoolError> {
    if references > u16::MAX || references == 0 {
        Some(PayloadPoolError::RefcountOverflow)
    } else {
        exclusive_fault(states, h, owner, now_us)
    }
}

struct PayloadSlot<T> {
    value: Option<T>,
    state: SlotState,
}

/// Fixed-capacity typed payload storage. Handles never expose an address.
pub struct PayloadPool<T, const N: usize> {
    slots: Vec<PayloadSlot<T>>,
    len: usize,
}

impl<T, const N: usize> PayloadPool<T, N> {
    /// The slot records, by slot.
    pub closed spec fn states(self) -> Seq<SlotState> {
        self.slots@.map_values(|s: PayloadSlot<T>| s.state)
    }

    /// The stored payloads, by slot.
    pub closed spec fn values(self) -> Seq<Option<T>> {
        self.slots@.map_values(|s: PayloadSlot<T>| s.value)
    }

    pub closed spec fn spec_len(self) -> usize {
        self.len
    }

    /// Records, payloads and occupied count together.
    pub open spec fn model(self) -> (Seq<SlotState>, Seq<Option<T>>, int) {
        (self.states(), self.values(), self.spec_len() as int)
    }

    /// `N` slots; a slot holds a payload exactly when occupied; an exclusive
    /// payload has one reference, a shared one at least one, a vacant slot
    /// none; `len` counts the occupied slots.
    pub closed spec fn wf(self) -> bool {
        &&& self.slots@.len() == N
        &&& forall|i: int| 0 <= i < N ==> ((#[trigger] self.slots@[i]).value is Some <==> occupied(self.slots@[i].state))
        &&& forall|i: int| 0 <= i < N ==> slot_refs_ok(#[trigger] self.slots@[i].state)
        &&& self.len == occupied_count(self.states(), N as int)
    }

    pub fn new() -> (r: Self)
        ensures
            r.wf(),
            r.spec_len() == 0,
            r.states() == Seq::new(N as nat, |i: int| empty_state()),
            forall|i: int| 0 <= i < N ==> #[trigger] r.values()[i] is None,
    {
        let mut slots: Vec<PayloadSlot<T>> = Vec::new();
        let mut i: usize = 0;
        while i < N
            invariant
                i <= N,
                slots@.len() == i,
                forall|k: int| 0 <= k < i ==> (#[trigger] slots@[k]).state == empty_state() && slots@[k].value is None,
            decreases N - i,
        {
            slots.push(PayloadSlot { value: None, state: empty_slot_state() });
            i += 1;
        }
        let r = PayloadPool { slots, len: 0 };
        proof {
            assert(r.slots@.len() == N);
            assert forall|i: int| 0 <= i < N implies (#[trigger] r.slots@[i]).value is Some <==> occupied(r.slots@[i].state) by {
                assert(r.slots@[i].state == empty_state());
            }
            assert forall|i: int| 0 <= i < N implies slot_refs_ok(#[trigger] r.slots@[i].state) by {
                assert(r.slots@[i].state == empty_state());
            }
            assert(r.states() =~= Seq::new(N as nat, |i: int| empty_state()));
            assert forall|i: int| 0 <= i < N implies !occupied(#[trigger] r.states()[i]) by {
                assert(r.states()[i] == empty_state());
            }
            lemma_no_occupied(r.states(), N as int);
            assert(r.len == occupied_count(r.states(), N as int));
        }
        r
    }

    pub fn len(&self) -> (r: usize)
        ensures
            r == self.spec_len(),
    {
        self.len
    }

    pub fn is_empty(&self) -> (r: bool)
        ensures
            r == (self.spec_len() == 0),
    {
        self.len == 0
    }

    pub fn capacity(&self) -> (r: usize)
        ensures
            r == N,
    {
        N
    }

    /// The slot a handle names, when it resolves.
    fn lookup(&self, handle: PayloadHandle<T>) -> (r: Option<usize>)
        requires
            self.wf(),
        ensures
            resolves(self.states(), handle) ==> r == Some(handle.spec_slot() as usize),
            !resolves(self.states(), handle) ==> r is None,
    {
        let index = handle.slot as usize;
        if index >= self.slots.len() {
            return None;
        }
        let s = self.slots[index].state;
        if !s.is_occupied() || s.epoch != handle.epoch || s.generation != handle.generation {
            return None;
        }
        Some(index)
    }

    fn find_free(&self) -> (r: Option<usize>)
        requires
            self.wf(),
        ensures
            r matches Some(i) ==> free_slot(self.states()) == Some(i as int) && i < N,
            r is None ==> free_slot(self.states()) is None,
    {
        let ghost f = free_hits(self.states());
        let mut index: usize = 0;
        while index < self.slots.len()
            invariant
                self.wf(),
                f == free_hits(self.states()),
                index <= N,
                crate::scan::first_some(f, index as int) is None,
            decreases N - index,
        {
            let s = self.slots[index].state;
            assert(s == self.states()[index as int]);
            assert(f(index as int) == free_hits(self.states())(index as int));
            if !s.is_occupied() && (s.generation < u32::MAX || s.epoch < u16::MAX) {
                proof { crate::scan::lemma_first_some_hit(f, index as int, N as int); }
                return Some(index);
            }
            index += 1;
        }
        None
    }

    fn any_vacant(&self) -> (r: bool)
        requires
            self.wf(),
        ensures
            r == exists|i: int| 0 <= i < self.states().len() && !occupied(#[trigger] self.states()[i]),
    {
        let mut index: usize = 0;
        while index < self.slots.len()
            invariant
                self.wf(),
                index <= N,
                forall|k: int| 0 <= k < index ==> occupied(#[trigger] self.states()[k]),
            decreases N - index,
        {
            let s = self.slots[index].state;
            assert(s == self.states()[index as int]);
            if !s.is_occupied() {
                return true;
            }
            index += 1;
        }
        false
    }

    /// Store `value` for `owner` until `expires_at_us`, in the first vacant
    /// slot with identities left, under that slot's next identity.
    pub fn allocate(&mut self, owner: ModuleId, value: T, expires_at_us: u64, now_us: u64) -> (r: Result<PayloadHandle<T>, PayloadPoolError>)
        requires
            old(self).wf(),
        ensures
            final(self).wf(),
            allocate_verdict(old(self).states(), expires_at_us, now_us) matches Some(e)
                ==> r == Err::<PayloadHandle<T>, PayloadPoolError>(e) && *final(self) == *old(self),
            allocate_verdict(old(self).states(), expires_at_us, now_us) is None ==> (r matches Ok(h) && {
                let i = free_slot(old(self).states()).unwrap();
                let (epoch, generation) = next_identity(old(self).states()[i]);
                &&& h.spec_slot() == i
                &&& h.spec_epoch() == epoch
                &&& h.spec_generation() == generation
                &&& final(self).states() == old(self).states().update(i, SlotState {
                    epoch,
                    generation,
                    ownership: PayloadOwnership::Exclusive(owner),
                    references: 1,
                    source: owner,
                    expires_at_us,
                })
                &&& final(self).values() == old(self).values().update(i, Some(value))
                &&& final(self).spec_len() == old(self).spec_len() + 1
            }),
    {
        if expires_at_us <= now_us {
            return Err(PayloadPoolError::InvalidExpiry);
        }
        let ghost states0 = self.states();
        let index = match self.find_free() {
            Some(index) => index,
            None => {
                return Err(if self.any_vacant() { PayloadPoolError::IdentityExhausted } else { PayloadPoolError::Full });
            },
        };
        proof {
            let w = crate::scan::lemma_first_some_witness(free_hits(states0), N as int);
            assert(free_hits(states0)(w) == Some(index as int));
            assert(!occupied(states0[index as int]));
        }
        if index > u16::MAX as usize {
            return Err(PayloadPoolError::RefcountOverflow);
        }
        let old_state = self.slots[index].state;
        let (epoch, generation) = if old_state.generation < u32::MAX {
            (old_state.epoch, old_state.generation + 1)
        } else {
            (old_state.epoch + 1, 1u32)
        };
        let new_state = SlotState {
            epoch,
            generation,
            ownership: PayloadOwnership::Exclusive(owner),
            references: 1,
            source: owner,
            expires_at_us,
        };
        let ghost values0 = self.values();
        let ghost len0 = self.len;
        self.slots.set(index, PayloadSlot { value: Some(value), state: new_state });
        proof {
            assert(self.states() =~= states0.update(index as int, new_state));
            assert(self.values() =~= values0.update(index as int, Some(value)));
            lemma_count_update(states0, index as int, new_state, N as int);
            lemma_count_update(self.states(), index as int, new_state, N as int);
            assert(occupied_count(self.states(), N as int) == occupied_count(states0, N as int) + 1);
            assert(len0 == occupied_count(states0, N as int));
        }
        self.len = self.len + 1;
        proof {
            assert forall|i: int| 0 <= i < N implies (#[trigger] self.slots@[i]).value is Some <==> occupied(self.slots@[i].state) by {
                if i != index {
                    assert(self.slots@[i] == old(self).slots@[i]);
                }
            }
            assert forall|i: int| 0 <= i < N implies slot_refs_ok(#[trigger] self.slots@[i].state) by {
                if i != index {
                    assert(self.slots@[i] == old(self).slots@[i]);
                }
            }
        }
        Ok(PayloadHandle { slot: index as u16, epoch, generation, marker: PhantomData })
    }
    /// Hand an exclusive payload from `from` to `to` while it is live.
    pub fn transfer(&mut self, handle: PayloadHandle<T>, from: ModuleId, to: ModuleId, now_us: u64) -> (r: Result<(), PayloadPoolError>)
        requires
            old(self).wf(),
        ensures
            final(self).wf(),
            exclusive_fault(old(self).states(), handle, from, now_us) matches Some(e)
                ==> r == Err::<(), PayloadPoolError>(e) && *final(self) == *old(self),
            exclusive_fault(old(self).states(), handle, from, now_us) is None ==> {
                let i = handle.spec_slot() as int;
                &&& r is Ok
                &&& final(self).states() == old(self).states().update(i, SlotState {
                    ownership: PayloadOwnership::Exclusive(to),
                    ..old(self).states()[i]
                })
                &&& final(self).values() == old(self).values()
                &&& final(self).spec_len() == old(self).spec_len()
            },
    {
        let index = match self.lookup(handle) {
            Some(index) => index,
            None => {
                return Err(PayloadPoolError::InvalidHandle);
            },
        };
        let state = self.slots[index].state;
        assert(state == self.states()[index as int]);
        if now_us >= state.expires_at_us {
            return Err(PayloadPoolError::Expired);
        }
        match state.ownership {
            PayloadOwnership::Exclusive(owner) => {
                if !same_module(owner, from) {
                    return Err(PayloadPoolError::WrongOwner);
                }
            },
            PayloadOwnership::Shared => {
                return Err(PayloadPoolError::SharedPayload);
            },
            PayloadOwnership::Vacant => {
                return Err(PayloadPoolError::InvalidHandle);
            },
        }
        let new_state = SlotState { ownership: PayloadOwnership::Exclusive(to), ..state };
        self.set_state(index, new_state);
        Ok(())
    }

    /// Borrow an exclusive payload as its owner while it is live.
    pub fn borrow(&self, handle: PayloadHandle<T>, owner: ModuleId, now_us: u64) -> (r: Result<&T, PayloadPoolError>)
        requires
            self.wf(),
        ensures
            exclusive_fault(self.states(), handle, owner, now_us) matches Some(e) ==> r == Err::<&T, PayloadPoolError>(e),
            exclusive_fault(self.states(), handle, owner, now_us) is None
                ==> (r matches Ok(v) && *v == self.values()[handle.spec_slot() as int].unwrap()),
    {
        let index = match self.lookup(handle) {
            Some(index) => index,
            None => {
                return Err(PayloadPoolError::InvalidHandle);
            },
        };
        let state = self.slots[index].state;
        assert(state == self.states()[index as int]);
        if now_us >= state.expires_at_us {
            return Err(PayloadPoolError::Expired);
        }
        match state.ownership {
            PayloadOwnership::Exclusive(actual) => {
                if !same_module(actual, owner) {
                    return Err(PayloadPoolError::WrongOwner);
                }
            },
            PayloadOwnership::Shared => {
                return Err(PayloadPoolError::SharedPayload);
            },
            PayloadOwnership::Vacant => {
                return Err(PayloadPoolError::InvalidHandle);
            },
        }
        self.value_at(index)
    }

    fn value_at(&self, index: usize) -> (r: Result<&T, PayloadPoolError>)
        requires
            self.wf(),
            index < N,
            occupied(self.states()[index as int]),
        ensures
            r matches Ok(v) && *v == self.values()[index as int].unwrap(),
    {
        assert(self.slots@[index as int].state == self.states()[index as int]);
        match &self.slots[index].value {
            Some(v) => Ok(v),
            None => Err(PayloadPoolError::InvalidHandle),
        }
    }

    /// Free an exclusive payload as its owner.
    pub fn release(&mut self, handle: PayloadHandle<T>, owner: ModuleId) -> (r: Result<(), PayloadPoolError>)
        requires
            old(self).wf(),
        ensures
            final(self).wf(),
            release_fault(old(self).states(), handle, owner) matches Some(e)
                ==> r == Err::<(), PayloadPoolError>(e) && *final(self) == *old(self),
            release_fault(old(self).states(), handle, owner) is None ==> {
                let i = handle.spec_slot() as int;
                &&& r is Ok
                &&& final(self).states() == old(self).states().update(i, retired(old(self).states()[i]))
                &&& final(self).values() == old(self).values().update(i, None)
                &&& final(self).spec_len() == old(self).spec_len() - 1
            },
    {
        let index = match self.lookup(handle) {
            Some(index) => index,
            None => {
                return Err(PayloadPoolError::InvalidHandle);
            },
        };
        let state = self.slots[index].state;
        assert(state == self.states()[index as int]);
        match state.ownership {
            PayloadOwnership::Exclusive(actual) => {
                if !same_module(actual, owner) {
                    return Err(PayloadPoolError::WrongOwner);
                }
            },
            PayloadOwnership::Shared => {
                return Err(PayloadPoolError::SharedPayload);
            },
            PayloadOwnership::Vacant => {
                return Err(PayloadPoolError::InvalidHandle);
            },
        }
        self.retire(index);
        Ok(())
    }

    /// Turn an exclusive payload into `references` shared references.
    fn share(&mut self, handle: PayloadHandle<T>, owner: ModuleId, references: usize, now_us: u64) -> (r: Result<(), PayloadPoolError>)
        requires
            old(self).wf(),
        ensures
            final(self).wf(),
            share_fault(old(self).states(), handle, owner, references, now_us) matches Some(e)
                ==> r == Err::<(), PayloadPoolError>(e) && *final(self) == *old(self),
            share_fault(old(self).states(), handle, owner, references, now_us) is None ==> {
                let i = handle.spec_slot() as int;
                &&& r is Ok
                &&& final(self).states() == old(self).states().update(i, SlotState {
                    ownership: PayloadOwnership::Shared,
                    references: references as u16,
                    ..old(self).states()[i]
                })
                &&& final(self).values() == old(self).values()
                &&& final(self).spec_len() == old(self).spec_len()
            },
    {
        if references > u16::MAX as usize || references == 0 {
            return Err(PayloadPoolError::RefcountOverflow);
        }
        let index = match self.lookup(handle) {
            Some(index) => index,
            None => {
                return Err(PayloadPoolError::InvalidHandle);
            },
        };
        let state = self.slots[index].state;
        assert(state == self.states()[index as int]);
        if now_us >= state.expires_at_us {
            return Err(PayloadPoolError::Expired);
        }
        match state.ownership {
            PayloadOwnership::Exclusive(actual) => {
                if !same_module(actual, owner) {
                    return Err(PayloadPoolError::WrongOwner);
                }
            },
            PayloadOwnership::Shared => {
                return Err(PayloadPoolError::SharedPayload);
            },
            PayloadOwnership::Vacant => {
                return Err(PayloadPoolError::InvalidHandle);
            },
        }
        let new_state = SlotState { ownership: PayloadOwnership::Shared, references: references as u16, ..state };
        self.set_state(index, new_state);
        Ok(())
    }

    /// Borrow a shared payload while it is live.
    fn borrow_shared(&self, handle: PayloadHandle<T>, now_us: u64) -> (r: Result<&T, PayloadPoolError>)
        requires
            self.wf(),
        ensures
            shared_fault(self.states(), handle, now_us) matches Some(e) ==> r == Err::<&T, PayloadPoolError>(e),
            shared_fault(self.states(), handle, now_us) is None
                ==> (r matches Ok(v) && *v == self.values()[handle.spec_slot() as int].unwrap()),
    {
        let index = match self.lookup(handle) {
            Some(index) => index,
            None => {
                return Err(PayloadPoolError::InvalidHandle);
            },
        };
        let state = self.slots[index].state;
        assert(state == self.states()[index as int]);
        if now_us >= state.expires_at_us {
            return Err(PayloadPoolError::Expired);
        }
        match state.ownership {
            PayloadOwnership::Shared => {},
            _ => {
                return Err(PayloadPoolError::InvalidHandle);
            },
        }
        if state.references == 0 {
            return Err(PayloadPoolError::InvalidHandle);
        }
        self.value_at(index)
    }

    /// Drop one shared reference; the last one frees the payload.
    fn release_shared(&mut self, handle: PayloadHandle<T>) -> (r: Result<(), PayloadPoolError>)
        requires
            old(self).wf(),
        ensures
            final(self).wf(),
            unshare_fault(old(self).states(), handle) matches Some(e)
                ==> r == Err::<(), PayloadPoolError>(e) && *final(self) == *old(self),
            unshare_fault(old(self).states(), handle) is None ==> {
                let i = handle.spec_slot() as int;
                let s = old(self).states()[i];
                &&& r is Ok
                &&& final(self).states() == final_unshared(old(self).states(), i)
                &&& final(self).values() == if s.references == 1 { old(self).values().update(i, None) } else { old(self).values() }
                &&& final(self).spec_len() == if s.references == 1 { old(self).spec_len() - 1 } else { old(self).spec_len() as int }
            },
            final(self).model() == unshared_model(old(self).model(), handle),
    {
        let index = match self.lookup(handle) {
            Some(index) => index,
            None => {
                return Err(PayloadPoolError::InvalidHandle);
            },
        };
        let state = self.slots[index].state;
        assert(state == self.states()[index as int]);
        match state.ownership {
            PayloadOwnership::Shared => {},
            _ => {
                return Err(PayloadPoolError::InvalidHandle);
            },
        }
        if state.references == 0 {
            return Err(PayloadPoolError::InvalidHandle);
        }
        if state.references == 1 {
            self.retire(index);
        } else {
            let new_state = SlotState { references: state.references - 1, ..state };
            self.set_state(index, new_state);
        }
        Ok(())
    }

    /// When the payload a handle names expires.
    fn expires_at(&self, handle: PayloadHandle<T>) -> (r: Result<u64, PayloadPoolError>)
        requires
            self.wf(),
        ensures
            !resolves(self.states(), handle) ==> r == Err::<u64, PayloadPoolError>(PayloadPoolError::InvalidHandle),
            resolves(self.states(), handle) ==> r == Ok::<u64, PayloadPoolError>(self.states()[handle.spec_slot() as int].expires_at_us),
    {
        match self.lookup(handle) {
            Some(index) => {
                assert(self.slots@[index as int].state == self.states()[index as int]);
                Ok(self.slots[index].state.expires_at_us)
            },
            None => Err(PayloadPoolError::InvalidHandle),
        }
    }

    /// Replace the record of an occupied slot with another occupied record.
    fn set_state(&mut self, index: usize, state: SlotState)
        requires
            old(self).wf(),
            index < N,
            occupied(old(self).states()[index as int]),
            occupied(state),
            slot_refs_ok(state),
        ensures
            final(self).wf(),
            final(self).states() == old(self).states().update(index as int, state),
            final(self).values() == old(self).values(),
            final(self).spec_len() == old(self).spec_len(),
    {
        let ghost states0 = self.states();
        let ghost values0 = self.values();
        let value = self.take_value(index);
        self.slots.set(index, PayloadSlot { value, state });
        proof {
            assert(self.states() =~= states0.update(index as int, state));
            assert(self.values() =~= values0);
            lemma_count_update(states0, index as int, state, N as int);
            assert forall|i: int| 0 <= i < N implies ((#[trigger] self.slots@[i]).value is Some <==> occupied(self.slots@[i].state)) by {
                if i != index {
                    assert(self.slots@[i] == old(self).slots@[i]);
                }
            }
            assert forall|i: int| 0 <= i < N implies slot_refs_ok(#[trigger] self.slots@[i].state) by {
                if i != index {
                    assert(self.slots@[i] == old(self).slots@[i]);
                }
            }
        }
    }

    /// Move a slot's payload out, leaving the slot otherwise as it was.
    fn take_value(&mut self, index: usize) -> (r: Option<T>)
        requires
            old(self).wf(),
            index < N,
        ensures
            r == old(self).values()[index as int],
            final(self).slots@ == old(self).slots@.update(index as int, PayloadSlot { value: None, state: old(self).slots@[index as int].state }),
            final(self).len == old(self).len,
    {
        let state = self.slots[index].state;
        let mut slot = PayloadSlot { value: None, state };
        core::mem::swap(&mut self.slots[index], &mut slot);
        slot.value
    }

    /// Free an occupied slot, dropping its payload and keeping its identity.
    fn retire(&mut self, index: usize)
        requires
            old(self).wf(),
            index < N,
            occupied(old(self).states()[index as int]),
        ensures
            final(self).wf(),
            final(self).states() == old(self).states().update(index as int, retired(old(self).states()[index as int])),
            final(self).values() == old(self).values().update(index as int, None),
            final(self).spec_len() == old(self).spec_len() - 1,
    {
        let ghost states0 = self.states();
        let ghost values0 = self.values();
        let state = self.slots[index].state;
        assert(state == states0[index as int]);
        let new_state = SlotState { ownership: PayloadOwnership::Vacant, references: 0, expires_at_us: 0, ..state };
        self.slots.set(index, PayloadSlot { value: None, state: new_state });
        proof {
            assert(self.states() =~= states0.update(index as int, new_state));
            assert(self.values() =~= values0.update(index as int, None));
            lemma_count_update(states0, index as int, new_state, N as int);
            assert forall|i: int| 0 <= i < N implies ((#[trigger] self.slots@[i]).value is Some <==> occupied(self.slots@[i].state)) by {
                if i != index {
                    assert(self.slots@[i] == old(self).slots@[i]);
                }
            }
            assert forall|i: int| 0 <= i < N implies slot_refs_ok(#[trigger] self.slots@[i].state) by {
                if i != index {
                    assert(self.slots@[i] == old(self).slots@[i]);
                }
            }
        }
        self.len = self.len - 1;
    }
}

impl<T, const N: usize> Default for PayloadPool<T, N> {
    fn default() -> (r: Self)
        ensures
            r.wf(),
            r.spec_len() == 0,
            r.states() == Seq::new(N as nat, |i: int| empty_state()),
    {
        Self::new()
    }
}

/// The records after one shared reference to slot `i` is dropped.
pub open spec fn final_unshared(states: Seq<SlotState>, i: int) -> Seq<SlotState> {
    let s = states[i];
    if s.references == 1 {
        states.update(i, retired(s))
    } else {
        states.update(i, SlotState { references: (s.references - 1) as u16, ..s })
    }
}

/// The pool model after dropping one shared reference (unchanged when the
/// handle names no shared payload).
pub open spec fn unshared_model<T>(m: (Seq<SlotState>, Seq<Option<T>>, int), h: PayloadHandle<T>) -> (Seq<SlotState>, Seq<Option<T>>, int) {
    if unshare_fault(m.0, h) is Some {
        m
    } else {
        let i = h.spec_slot() as int;
        if m.0[i].references == 1 {
            (final_unshared(m.0, i), m.1.update(i, None), m.2 - 1)
        } else {
            (final_unshared(m.0, i), m.1, m.2)
        }
    }
}

/// The record of a never-used slot.
pub open spec fn empty_state() -> SlotState {
    SlotState {
        epoch: 0,
        generation: 0,
        ownership: PayloadOwnership::Vacant,
        references: 0,
        source: ModuleId::Kernel,
        expires_at_us: 0,
    }
}

/// Reference counts match ownership.
pub open spec fn slot_refs_ok(s: SlotState) -> bool {
    match s.ownership {
        PayloadOwnership::Vacant => s.references == 0,
        PayloadOwnership::Exclusive(_) => s.references == 1,
        PayloadOwnership::Shared => s.references >= 1,
    }
}

fn empty_slot_state() -> (r: SlotState)
    ensures
        r == empty_state(),
{
    SlotState {
        epoch: 0,
        generation: 0,
        ownership: PayloadOwnership::Vacant,
        references: 0,
        source: ModuleId::Kernel,
        expires_at_us: 0,
    }
}

impl SlotState {
    fn is_occupied(&self) -> (r: bool)
        ensures
            r == occupied(*self),
    {
        match self.ownership {
            PayloadOwnership::Vacant => false,
            _ => true,
        }
    }
}

proof fn lemma_no_occupied(states: Seq<SlotState>, k: int)
    requires
        0 <= k <= states.len(),
        forall|i: int| 0 <= i < k ==> !occupied(#[trigger] states[i]),
    ensures
        occupied_count(states, k) == 0,
    decreases k,
{
    if k > 0 {
        lemma_no_occupied(states, k - 1);
    }
}

/// Replacing one slot record changes the count by the change in occupancy.
proof fn lemma_count_update(states: Seq<SlotState>, i: int, s: SlotState, k: int)
    requires
        0 <= i < states.len(),
        0 <= k <= states.len(),
    ensures
        occupied_count(states.update(i, s), k) + (if i < k && occupied(states[i]) { 1int } else { 0int })
            == occupied_count(states, k) + (if i < k && occupied(s) { 1int } else { 0int }),
        occupied_count(states, k) <= k,
    decreases k,
{
    if k > 0 {
        lemma_count_update(states, i, s, k - 1);
    }
}

/// An occupied slot is counted.
proof fn lemma_count_positive(states: Seq<SlotState>, i: int, k: int)
    requires
        0 <= i < k <= states.len(),
        occupied(states[i]),
    ensures
        occupied_count(states, k) >= 1,
    decreases k,
{
    if k - 1 > i {
        lemma_count_positive(states, i, k - 1);
    }
}

// ------------------------------------------------------------- router

/// Delivery priority; a higher rank is delivered first.
#[derive(Clone, Copy, Debug, Default, PartialEq, Eq, PartialOrd, Ord, Structural)]
pub enum IpcPriority {
    #[default]
    Normal,
    Urgent,
    Control,
}

pub open spec fn priority_rank(p: IpcPriority) -> int {
    match p {
        IpcPriority::Normal => 0,
        IpcPriority::Urgent => 1,
        IpcPriority::Control => 2,
    }
}

impl IpcPriority {
    fn rank(self) -> (r: u8)
        ensures
            r == priority_rank(self),
    {
        match self {
            IpcPriority::Normal => 0,
            IpcPriority::Urgent => 1,
            IpcPriority::Control => 2,
        }
    }
}

#[derive(Clone, Copy, Debug, PartialEq, Eq, Structural)]
pub enum IpcPushError {
    NoDestination,
    DestinationRegistryFull,
    DuplicateDestination(ModuleId),
    DestinationUnknown(ModuleId),
    DestinationQuota(ModuleId),
    ControlReserve,
    GlobalCapacity,
    PayloadPoolFull,
    PayloadIdentityExhausted,
    InvalidExpiry,
    FanoutTooLarge,
}

#[derive(Clone, Copy, Debug, PartialEq, Eq, Structural)]
pub enum IpcReceiveError {
    DestinationUnknown(ModuleId),
    Payload(PayloadPoolError),
}

#[derive(Debug, PartialEq, Eq)]
pub struct IpcPublishReceipt<T> {
    pub handle: PayloadHandle<T>,
    pub destinations: u16,
}

impl<T> Clone for IpcPublishReceipt<T> {
    fn clone(&self) -> (r: Self)
        ensures
            r == *self,
    {
        *self
    }
}

impl<T> Copy for IpcPublishReceipt<T> {
}

#[derive(Clone, Copy, Debug, Default, PartialEq, Eq, Structural)]
pub struct IpcSnapshot {
    pub payloads: usize,
    pub queued: usize,
    pub global_capacity: usize,
    pub control_reserve: usize,
    pub rejected_global: u32,
    pub rejected_reserve: u32,
    pub rejected_destination: u32,
    pub expired: u32,
    pub cancelled: u32,
}

/// One queued delivery of a shared payload.
#[derive(Debug)]
pub struct IpcEnvelope<T> {
    pub source: ModuleId,
    pub destination: ModuleId,
    pub priority: IpcPriority,
    pub handle: PayloadHandle<T>,
}

impl<T> Clone for IpcEnvelope<T> {
    fn clone(&self) -> (r: Self)
        ensures
            r == *self,
    {
        *self
    }
}

impl<T> Copy for IpcEnvelope<T> {
}

/// First queue registered for `d`.
pub open spec fn queue_hits(dests: Seq<Option<ModuleId>>, d: ModuleId) -> spec_fn(int) -> Option<int> {
    |q: int| if dests[q] == Some(d) { Some(q) } else { None }
}

pub open spec fn queue_of(dests: Seq<Option<ModuleId>>, d: ModuleId) -> Option<int> {
    crate::scan::first_some(queue_hits(dests, d), dests.len() as int)
}

pub open spec fn free_queue_hits(dests: Seq<Option<ModuleId>>) -> spec_fn(int) -> Option<int> {
    |q: int| if dests[q] is None { Some(q) } else { None }
}

/// Why a destination cannot be registered with `quota`.
pub open spec fn register_verdict(dests: Seq<Option<ModuleId>>, queue_cap: int, d: ModuleId, quota: usize) -> Option<IpcPushError> {
    if quota == 0 || quota > queue_cap {
        Some(IpcPushError::DestinationQuota(d))
    } else if queue_of(dests, d) is Some {
        Some(IpcPushError::DuplicateDestination(d))
    } else if crate::scan::first_some(free_queue_hits(dests), dests.len() as int) is None {
        Some(IpcPushError::DestinationRegistryFull)
    } else {
        None
    }
}

/// Total queued deliveries in the first `k` queues.
pub open spec fn total_len<T>(queues: Seq<Seq<IpcEnvelope<T>>>, k: int) -> nat
    decreases k,
{
    if k <= 0 {
        0
    } else {
        total_len(queues, k - 1) + queues[k - 1].len()
    }
}

/// Why delivering to target `i` is refused: an earlier repeat, an unknown
/// destination, or a destination queue at its quota.
pub open spec fn target_faults<T>(
    dests: Seq<Option<ModuleId>>,
    quotas: Seq<usize>,
    queues: Seq<Seq<IpcEnvelope<T>>>,
    targets: Seq<ModuleId>,
) -> spec_fn(int) -> Option<IpcPushError> {
    |i: int|
        if exists|j: int| 0 <= j < i && #[trigger] targets[j] == targets[i] {
            Some(IpcPushError::DuplicateDestination(targets[i]))
        } else {
            match queue_of(dests, targets[i]) {
                None => Some(IpcPushError::DestinationUnknown(targets[i])),
                Some(q) => if queues[q].len() >= quotas[q] {
                    Some(IpcPushError::DestinationQuota(targets[i]))
                } else {
                    None
                },
            }
        }
}

pub open spec fn pool_push_error(e: PayloadPoolError) -> IpcPushError {
    match e {
        PayloadPoolError::Full => IpcPushError::PayloadPoolFull,
        PayloadPoolError::IdentityExhausted => IpcPushError::PayloadIdentityExhausted,
        _ => IpcPushError::InvalidExpiry,
    }
}

pub open spec fn sat_sub_usize(a: usize, b: usize) -> int {
    if a >= b { a - b } else { 0 }
}

pub open spec fn sat_inc(x: u32) -> u32 {
    if x == u32::MAX { x } else { (x + 1) as u32 }
}

pub open spec fn sat_u32(x: int) -> u32 {
    if x > u32::MAX { u32::MAX } else { x as u32 }
}

/// Why a publication is refused, if it is: no target, too many targets, an
/// expiry not after `now_us`, a refused target, the global capacity, the
/// control reserve, or the payload pool.
pub open spec fn publish_verdict<T>(
    dests: Seq<Option<ModuleId>>,
    quotas: Seq<usize>,
    queues: Seq<Seq<IpcEnvelope<T>>>,
    queued: int,
    reserve: usize,
    global: usize,
    states: Seq<SlotState>,
    targets: Seq<ModuleId>,
    priority: IpcPriority,
    expires_at_us: u64,
    now_us: u64,
) -> Option<IpcPushError> {
    if targets.len() == 0 {
        Some(IpcPushError::NoDestination)
    } else if targets.len() > u16::MAX {
        Some(IpcPushError::FanoutTooLarge)
    } else if expires_at_us <= now_us {
        Some(IpcPushError::InvalidExpiry)
    } else {
        match crate::scan::first_some(target_faults(dests, quotas, queues, targets), targets.len() as int) {
            Some(e) => Some(e),
            None => if queued + targets.len() > global {
                Some(IpcPushError::GlobalCapacity)
            } else if priority != IpcPriority::Control && queued + targets.len() > sat_sub_usize(global, reserve) {
                Some(IpcPushError::ControlReserve)
            } else {
                match allocate_verdict(states, expires_at_us, now_us) {
                    Some(e) => Some(pool_push_error(e)),
                    None => None,
                }
            },
        }
    }
}

/// The counters after a refused publication: quota, global and reserve
/// refusals are counted (saturating).
pub open spec fn refusal_counted(c: IpcSnapshot, e: IpcPushError) -> IpcSnapshot {
    match e {
        IpcPushError::DestinationQuota(_) => IpcSnapshot { rejected_destination: sat_inc(c.rejected_destination), ..c },
        IpcPushError::GlobalCapacity => IpcSnapshot { rejected_global: sat_inc(c.rejected_global), ..c },
        IpcPushError::ControlReserve => IpcSnapshot { rejected_reserve: sat_inc(c.rejected_reserve), ..c },
        _ => c,
    }
}

/// The queues after one delivery to each target: the queue registered for a
/// target gets an envelope for it at its back.
pub open spec fn delivered<T>(
    dests: Seq<Option<ModuleId>>,
    queues: Seq<Seq<IpcEnvelope<T>>>,
    targets: Seq<ModuleId>,
    source: ModuleId,
    priority: IpcPriority,
    handle: PayloadHandle<T>,
) -> Seq<Seq<IpcEnvelope<T>>> {
    Seq::new(queues.len(), |q: int| match dests[q] {
        Some(d) => if targets.contains(d) {
            queues[q].push(IpcEnvelope { source, destination: d, priority, handle })
        } else {
            queues[q]
        },
        None => queues[q],
    })
}

/// Sweep the first `k` deliveries of a queue: a delivery whose payload no
/// longer resolves or has expired at `now_us` drops its reference and leaves
/// the queue; the others stay in order.
pub open spec fn expire_prefix<T>(
    m: (Seq<SlotState>, Seq<Option<T>>, int),
    es: Seq<IpcEnvelope<T>>,
    now_us: u64,
    k: int,
) -> ((Seq<SlotState>, Seq<Option<T>>, int), Seq<IpcEnvelope<T>>)
    decreases k,
{
    if k <= 0 {
        (m, Seq::empty())
    } else {
        let (m1, kept) = expire_prefix(m, es, now_us, k - 1);
        let e = es[k - 1];
        if live_fault(m1.0, e.handle, now_us) is Some {
            (unshared_model(m1, e.handle), kept)
        } else {
            (m1, kept.push(e))
        }
    }
}

/// Sweep the first `q` queues in order.
pub open spec fn expire_queues<T>(
    m: (Seq<SlotState>, Seq<Option<T>>, int),
    qs: Seq<Seq<IpcEnvelope<T>>>,
    now_us: u64,
    q: int,
) -> ((Seq<SlotState>, Seq<Option<T>>, int), Seq<Seq<IpcEnvelope<T>>>)
    decreases q,
{
    if q <= 0 {
        (m, qs)
    } else {
        let (m1, qs1) = expire_queues(m, qs, now_us, q - 1);
        let (m2, kept) = expire_prefix(m1, qs1[q - 1], now_us, qs1[q - 1].len() as int);
        (m2, qs1.update(q - 1, kept))
    }
}

/// Whether a delivery involves `module` as its source or destination.
pub open spec fn involves<T>(e: IpcEnvelope<T>, module: ModuleId) -> bool {
    e.source == module || e.destination == module
}

/// Cancel the first `k` deliveries of a queue that involve `module`.
pub open spec fn cancel_prefix<T>(
    m: (Seq<SlotState>, Seq<Option<T>>, int),
    es: Seq<IpcEnvelope<T>>,
    module: ModuleId,
    k: int,
) -> ((Seq<SlotState>, Seq<Option<T>>, int), Seq<IpcEnvelope<T>>)
    decreases k,
{
    if k <= 0 {
        (m, Seq::empty())
    } else {
        let (m1, kept) = cancel_prefix(m, es, module, k - 1);
        let e = es[k - 1];
        if involves(e, module) {
            (unshared_model(m1, e.handle), kept)
        } else {
            (m1, kept.push(e))
        }
    }
}

/// Cancel in the first `q` queues in order.
pub open spec fn cancel_queues<T>(
    m: (Seq<SlotState>, Seq<Option<T>>, int),
    qs: Seq<Seq<IpcEnvelope<T>>>,
    module: ModuleId,
    q: int,
) -> ((Seq<SlotState>, Seq<Option<T>>, int), Seq<Seq<IpcEnvelope<T>>>)
    decreases q,
{
    if q <= 0 {
        (m, qs)
    } else {
        let (m1, qs1) = cancel_queues(m, qs, module, q - 1);
        let (m2, kept) = cancel_prefix(m1, qs1[q - 1], module, qs1[q - 1].len() as int);
        (m2, qs1.update(q - 1, kept))
    }
}

/// The delivery a receive takes: the first of the highest priority.
pub open spec fn best_prefix<T>(es: Seq<IpcEnvelope<T>>, k: int) -> int
    decreases k,
{
    if k <= 1 {
        0
    } else {
        let b = best_prefix(es, k - 1);
        if priority_rank(es[k - 1].priority) > priority_rank(es[b].priority) { k - 1 } else { b }
    }
}

/// The delivery a receive hands out, among the first `n` of a queue, has the
/// highest priority present there, and every earlier delivery has a strictly
/// lower priority: deliveries of one priority leave in the order they came.
pub proof fn receive_takes_oldest_of_highest_priority<T>(es: Seq<IpcEnvelope<T>>, n: int)
    requires
        0 < n <= es.len(),
    ensures
        0 <= best_prefix(es, n) < n,
        forall|k: int| 0 <= k < n ==> priority_rank(#[trigger] es[k].priority) <= priority_rank(es[best_prefix(es, n)].priority),
        forall|k: int| 0 <= k < best_prefix(es, n) ==> priority_rank(#[trigger] es[k].priority) < priority_rank(es[best_prefix(es, n)].priority),
    decreases n,
{
    if n > 1 {
        receive_takes_oldest_of_highest_priority(es, n - 1);
    }
}

/// Deliveries in `es` naming slot `i`.
pub open spec fn held_in<T>(es: Seq<IpcEnvelope<T>>, i: int) -> nat
    decreases es.len(),
{
    if es.len() == 0 {
        0
    } else {
        held_in(es.drop_last(), i) + if es.last().handle.spec_slot() == i { 1nat } else { 0nat }
    }
}

/// Deliveries in the first `k` queues naming slot `i`.
pub open spec fn held<T>(qs: Seq<Seq<IpcEnvelope<T>>>, i: int, k: int) -> nat
    decreases k,
{
    if k <= 0 {
        0
    } else {
        held(qs, i, k - 1) + held_in(qs[k - 1], i)
    }
}

/// The handle names a live-identity shared payload.
pub open spec fn shared_live<T>(states: Seq<SlotState>, h: PayloadHandle<T>) -> bool {
    resolves(states, h) && states[h.spec_slot() as int].ownership is Shared
}

/// Every queued delivery names a shared payload at its current identity, no
/// payload is held exclusively, and each shared payload's reference count is
/// the number of deliveries naming it.
pub open spec fn refs_match<T>(states: Seq<SlotState>, qs: Seq<Seq<IpcEnvelope<T>>>) -> bool {
    &&& forall|q: int, k: int| 0 <= q < qs.len() && 0 <= k < qs[q].len() ==> shared_live(states, #[trigger] qs[q][k].handle)
    &&& forall|i: int| 0 <= i < states.len() ==> !(#[trigger] states[i].ownership is Exclusive)
    &&& forall|i: int| 0 <= i < states.len() && (#[trigger] states[i].ownership) is Shared ==> states[i].references == held(qs, i, qs.len() as int)
}

proof fn lemma_held_in_push<T>(es: Seq<IpcEnvelope<T>>, e: IpcEnvelope<T>, i: int)
    ensures
        held_in(es.push(e), i) == held_in(es, i) + if e.handle.spec_slot() == i { 1int } else { 0int },
{
    assert(es.push(e).drop_last() =~= es);
}

proof fn lemma_held_in_concat<T>(a: Seq<IpcEnvelope<T>>, b: Seq<IpcEnvelope<T>>, i: int)
    ensures
        held_in(a + b, i) == held_in(a, i) + held_in(b, i),
    decreases b.len(),
{
    if b.len() == 0 {
        assert(a + b =~= a);
    } else {
        assert((a + b).drop_last() =~= a + b.drop_last());
        lemma_held_in_concat(a, b.drop_last(), i);
    }
}

proof fn lemma_held_in_remove<T>(es: Seq<IpcEnvelope<T>>, k: int, i: int)
    requires
        0 <= k < es.len(),
    ensures
        held_in(es.remove(k), i) + (if es[k].handle.spec_slot() == i { 1int } else { 0int }) == held_in(es, i),
{
    let a = es.take(k);
    let b = es.skip(k + 1);
    assert(es.remove(k) =~= a + b);
    assert(es =~= a.push(es[k]) + b);
    lemma_held_in_concat(a, b, i);
    lemma_held_in_concat(a.push(es[k]), b, i);
    lemma_held_in_push(a, es[k], i);
}

/// Nothing counted means nothing names the slot.
proof fn lemma_held_in_zero<T>(es: Seq<IpcEnvelope<T>>, i: int)
    requires
        held_in(es, i) == 0,
    ensures
        forall|k: int| 0 <= k < es.len() ==> (#[trigger] es[k]).handle.spec_slot() != i,
    decreases es.len(),
{
    if es.len() > 0 {
        lemma_held_in_zero(es.drop_last(), i);
        assert forall|k: int| 0 <= k < es.len() implies (#[trigger] es[k]).handle.spec_slot() != i by {
            if k < es.len() - 1 {
                assert(es[k] == es.drop_last()[k]);
            }
        }
    }
}

/// A named slot is counted.
proof fn lemma_held_in_positive<T>(es: Seq<IpcEnvelope<T>>, k: int)
    requires
        0 <= k < es.len(),
    ensures
        held_in(es, es[k].handle.spec_slot() as int) >= 1,
{
    lemma_held_in_remove(es, k, es[k].handle.spec_slot() as int);
}

proof fn lemma_held_update<T>(qs: Seq<Seq<IpcEnvelope<T>>>, q: int, es: Seq<IpcEnvelope<T>>, i: int, k: int)
    requires
        0 <= q < qs.len(),
        0 <= k <= qs.len(),
    ensures
        held(qs.update(q, es), i, k) + (if q < k { held_in(qs[q], i) as int } else { 0int })
            == held(qs, i, k) + (if q < k { held_in(es, i) as int } else { 0int }),
    decreases k,
{
    if k > 0 {
        lemma_held_update(qs, q, es, i, k - 1);
    }
}

proof fn lemma_held_zero<T>(qs: Seq<Seq<IpcEnvelope<T>>>, i: int, k: int)
    requires
        held(qs, i, k) == 0,
        0 <= k <= qs.len(),
    ensures
        forall|q: int, j: int| 0 <= q < k && 0 <= j < qs[q].len() ==> (#[trigger] qs[q][j]).handle.spec_slot() != i,
    decreases k,
{
    if k > 0 {
        lemma_held_zero(qs, i, k - 1);
        lemma_held_in_zero(qs[k - 1], i);
    }
}

proof fn lemma_held_empty<T>(qs: Seq<Seq<IpcEnvelope<T>>>, i: int, k: int)
    requires
        0 <= k <= qs.len(),
        forall|q: int| 0 <= q < k ==> (#[trigger] qs[q]).len() == 0,
    ensures
        held(qs, i, k) == 0,
    decreases k,
{
    if k > 0 {
        lemma_held_empty(qs, i, k - 1);
    }
}

/// Taking delivery `k` out of queue `q` and dropping its shared reference
/// keeps the counts matched, and leaves every remaining delivery's payload
/// record as it was except for its reference count.
proof fn lemma_drop_delivery<T>(m: (Seq<SlotState>, Seq<Option<T>>, int), qs: Seq<Seq<IpcEnvelope<T>>>, q: int, k: int)
    requires
        refs_match(m.0, qs),
        0 <= q < qs.len(),
        0 <= k < qs[q].len(),
    ensures
        ({
            let e = qs[q][k];
            let qs2 = qs.update(q, qs[q].remove(k));
            let m2 = unshared_model(m, e.handle);
            &&& unshare_fault(m.0, e.handle) is None
            &&& refs_match(m2.0, qs2)
            &&& m2.0.len() == m.0.len()
            &&& forall|a: int, b: int| 0 <= a < qs2.len() && 0 <= b < qs2[a].len() ==>
                (#[trigger] m2.0[qs2[a][b].handle.spec_slot() as int]).expires_at_us == m.0[qs2[a][b].handle.spec_slot() as int].expires_at_us
        }),
{
    let e = qs[q][k];
    let s = e.handle.spec_slot() as int;
    let qs2 = qs.update(q, qs[q].remove(k));
    let m2 = unshared_model(m, e.handle);
    let st = m.0;
    assert(shared_live(st, e.handle));
    let n = qs.len() as int;
    assert forall|j: int| true implies held(qs2, j, n) + (if s == j { 1int } else { 0int }) == held(qs, j, n) by {
        lemma_held_update(qs, q, qs[q].remove(k), j, n);
        lemma_held_in_remove(qs[q], k, j);
    }
    assert(held(qs, s, n) >= 1) by {
        lemma_held_in_positive(qs[q], k);
        lemma_held_update(qs, q, qs[q], s, n);
        assert(qs.update(q, qs[q]) =~= qs);
        lemma_held_ge(qs, q, s, n);
    }
    let st2 = m2.0;
    if st[s].references == 1 {
        assert(held(qs2, s, n) == 0);
        lemma_held_zero(qs2, s, n);
    }
    assert forall|a: int, b: int| 0 <= a < qs2.len() && 0 <= b < qs2[a].len() implies
        shared_live(st2, #[trigger] qs2[a][b].handle) && st2[qs2[a][b].handle.spec_slot() as int].expires_at_us
            == st[qs2[a][b].handle.spec_slot() as int].expires_at_us by {
        let h = qs2[a][b].handle;
        if a == q {
            let j = if b < k { b } else { b + 1 };
            assert(qs2[a][b] == qs[q][j]);
            assert(shared_live(st, qs[q][j].handle));
        } else {
            assert(qs2[a][b] == qs[a][b]);
            assert(shared_live(st, qs[a][b].handle));
        }
        if h.spec_slot() as int == s && st[s].references == 1 {
            assert(false);
        }
    }
    assert forall|i: int| 0 <= i < st2.len() && (#[trigger] st2[i].ownership) is Shared implies st2[i].references == held(qs2, i, n) by {
        assert(held(qs2, i, n) + (if s == i { 1int } else { 0int }) == held(qs, i, n));
    }
}

/// One payload serves a whole multicast: in every well-formed router each
/// queued delivery names a shared payload at its current identity, no payload
/// stays exclusive, and each shared payload's reference count is exactly the
/// number of deliveries still naming it, so it is freed when the last of them
/// is received, expires or is cancelled, and not before.
pub proof fn shared_payload_counts_its_deliveries<
    T,
    const PAYLOADS: usize,
    const DESTINATIONS: usize,
    const QUEUE: usize,
    const GLOBAL: usize,
>(router: IpcRouter<T, PAYLOADS, DESTINATIONS, QUEUE, GLOBAL>)
    requires
        router.wf(),
    ensures
        refs_match(router.spec_pool().states(), router.queues()),
        router.counters().queued == total_len(router.queues(), DESTINATIONS as int),
{
}

/// Nothing names a slot that no delivery names.
proof fn lemma_held_none<T>(qs: Seq<Seq<IpcEnvelope<T>>>, i: int, k: int)
    requires
        0 <= k <= qs.len(),
        forall|a: int, b: int| 0 <= a < qs.len() && 0 <= b < qs[a].len() ==> (#[trigger] qs[a][b]).handle.spec_slot() != i,
    ensures
        held(qs, i, k) == 0,
    decreases k,
{
    if k > 0 {
        lemma_held_none(qs, i, k - 1);
        lemma_held_in_none(qs[k - 1], i);
    }
}

proof fn lemma_held_in_none<T>(es: Seq<IpcEnvelope<T>>, i: int)
    requires
        forall|b: int| 0 <= b < es.len() ==> (#[trigger] es[b]).handle.spec_slot() != i,
    ensures
        held_in(es, i) == 0,
    decreases es.len(),
{
    if es.len() > 0 {
        assert forall|b: int| 0 <= b < es.drop_last().len() implies (#[trigger] es.drop_last()[b]).handle.spec_slot() != i by {
            assert(es.drop_last()[b] == es[b]);
        }
        lemma_held_in_none(es.drop_last(), i);
    }
}

/// A queue's count is part of the total.
proof fn lemma_held_ge<T>(qs: Seq<Seq<IpcEnvelope<T>>>, q: int, i: int, k: int)
    requires
        0 <= q < k <= qs.len(),
    ensures
        held(qs, i, k) >= held_in(qs[q], i),
    decreases k,
{
    if k - 1 > q {
        lemma_held_ge(qs, q, i, k - 1);
    }
}

/// Fixed-pool payloads plus independent bounded destination queues.
pub struct IpcRouter<T, const PAYLOADS: usize, const DESTINATIONS: usize, const QUEUE: usize, const GLOBAL: usize> {
    pool: PayloadPool<T, PAYLOADS>,
    destinations: Vec<Option<ModuleId>>,
    quotas: Vec<usize>,
    queues: Vec<Vec<IpcEnvelope<T>>>,
    queued: usize,
    control_reserve: usize,
    rejected_global: u32,
    rejected_reserve: u32,
    rejected_destination: u32,
    expired: u32,
    cancelled: u32,
}

impl<T, const PAYLOADS: usize, const DESTINATIONS: usize, const QUEUE: usize, const GLOBAL: usize> IpcRouter<
    T,
    PAYLOADS,
    DESTINATIONS,
    QUEUE,
    GLOBAL,
> {
    pub closed spec fn spec_pool(self) -> PayloadPool<T, PAYLOADS> {
        self.pool
    }

    pub closed spec fn dests(self) -> Seq<Option<ModuleId>> {
        self.destinations@
    }

    pub closed spec fn quotas(self) -> Seq<usize> {
        self.quotas@
    }

    pub closed spec fn queues(self) -> Seq<Seq<IpcEnvelope<T>>> {
        self.queues@.map_values(|q: Vec<IpcEnvelope<T>>| q@)
    }

    /// The counters `snapshot` reports.
    pub closed spec fn counters(self) -> IpcSnapshot {
        IpcSnapshot {
            payloads: self.pool.spec_len(),
            queued: self.queued,
            global_capacity: GLOBAL,
            control_reserve: self.control_reserve,
            rejected_global: self.rejected_global,
            rejected_reserve: self.rejected_reserve,
            rejected_destination: self.rejected_destination,
            expired: self.expired,
            cancelled: self.cancelled,
        }
    }

    /// The pool is well formed; one registration slot, quota and queue per
    /// destination; registered destinations are distinct; a queue holds at
    /// most its quota, and an unregistered slot holds nothing; `queued`
    /// counts every queued delivery.
    pub closed spec fn wf(self) -> bool {
        &&& self.pool.wf()
        &&& self.destinations@.len() == DESTINATIONS
        &&& self.quotas@.len() == DESTINATIONS
        &&& self.queues@.len() == DESTINATIONS
        &&& forall|a: int, b: int| 0 <= a < b < DESTINATIONS && #[trigger] self.destinations@[a] is Some
            ==> self.destinations@[a] != #[trigger] self.destinations@[b]
        &&& forall|q: int| 0 <= q < DESTINATIONS ==> (#[trigger] self.queues@[q])@.len() <= self.quotas@[q] <= QUEUE
        &&& forall|q: int| 0 <= q < DESTINATIONS && (#[trigger] self.destinations@[q]) is None ==> self.quotas@[q] == 0
        &&& self.queued == total_len(self.queues(), DESTINATIONS as int)
        &&& self.control_reserve <= GLOBAL
        &&& refs_match(self.pool.states(), self.queues())
    }

    /// An empty router keeping `control_reserve` (at most `GLOBAL`) of the
    /// global capacity for control-priority traffic.
    pub fn new(control_reserve: usize) -> (r: Self)
        ensures
            r.wf(),
            r.spec_pool().spec_len() == 0,
            r.spec_pool().states() == Seq::new(PAYLOADS as nat, |i: int| empty_state()),
            r.dests() == Seq::new(DESTINATIONS as nat, |q: int| None::<ModuleId>),
            r.queues() == Seq::new(DESTINATIONS as nat, |q: int| Seq::<IpcEnvelope<T>>::empty()),
            r.counters() == (IpcSnapshot {
                payloads: 0,
                queued: 0,
                global_capacity: GLOBAL,
                control_reserve: if control_reserve > GLOBAL { GLOBAL } else { control_reserve },
                rejected_global: 0,
                rejected_reserve: 0,
                rejected_destination: 0,
                expired: 0,
                cancelled: 0,
            }),
    {
        let mut destinations: Vec<Option<ModuleId>> = Vec::new();
        let mut quotas: Vec<usize> = Vec::new();
        let mut queues: Vec<Vec<IpcEnvelope<T>>> = Vec::new();
        let mut q: usize = 0;
        while q < DESTINATIONS
            invariant
                q <= DESTINATIONS,
                destinations@.len() == q && quotas@.len() == q && queues@.len() == q,
                forall|k: int| 0 <= k < q ==> (#[trigger] destinations@[k]) is None,
                forall|k: int| 0 <= k < q ==> #[trigger] quotas@[k] == 0,
                forall|k: int| 0 <= k < q ==> (#[trigger] queues@[k])@.len() == 0,
            decreases DESTINATIONS - q,
        {
            destinations.push(None);
            quotas.push(0);
            queues.push(Vec::new());
            q += 1;
        }
        let r = IpcRouter {
            pool: PayloadPool::new(),
            destinations,
            quotas,
            queues,
            queued: 0,
            control_reserve: if control_reserve > GLOBAL { GLOBAL } else { control_reserve },
            rejected_global: 0,
            rejected_reserve: 0,
            rejected_destination: 0,
            expired: 0,
            cancelled: 0,
        };
        proof {
            assert(r.dests() =~= Seq::new(DESTINATIONS as nat, |q: int| None::<ModuleId>));
            assert forall|k: int| 0 <= k < DESTINATIONS implies #[trigger] r.queues()[k] == Seq::<IpcEnvelope<T>>::empty() by {
                assert(r.queues@[k]@.len() == 0);
                assert(r.queues()[k] =~= Seq::<IpcEnvelope<T>>::empty());
            }
            assert(r.queues() =~= Seq::new(DESTINATIONS as nat, |q: int| Seq::<IpcEnvelope<T>>::empty()));
            lemma_total_empty(r.queues(), DESTINATIONS as int);
        }
        r
    }

    fn queue_index(&self, destination: ModuleId) -> (r: Option<usize>)
        requires
            self.wf(),
        ensures
            r matches Some(q) ==> queue_of(self.dests(), destination) == Some(q as int) && q < DESTINATIONS,
            r is None ==> queue_of(self.dests(), destination) is None,
    {
        let ghost f = queue_hits(self.destinations@, destination);
        let mut q: usize = 0;
        while q < self.destinations.len()
            invariant
                self.wf(),
                f == queue_hits(self.destinations@, destination),
                q <= DESTINATIONS,
                crate::scan::first_some(f, q as int) is None,
            decreases DESTINATIONS - q,
        {
            assert(f(q as int) == queue_hits(self.destinations@, destination)(q as int));
            let hit = match self.destinations[q] {
                Some(d) => same_module(d, destination),
                None => false,
            };
            if hit {
                proof { crate::scan::lemma_first_some_hit(f, q as int, DESTINATIONS as int); }
                return Some(q);
            }
            q += 1;
        }
        None
    }

    /// Register a destination queue holding at most `quota` deliveries.
    pub fn register_destination(&mut self, destination: ModuleId, quota: usize) -> (r: Result<(), IpcPushError>)
        requires
            old(self).wf(),
        ensures
            final(self).wf(),
            register_verdict(old(self).dests(), QUEUE as int, destination, quota) matches Some(e)
                ==> r == Err::<(), IpcPushError>(e) && *final(self) == *old(self),
            register_verdict(old(self).dests(), QUEUE as int, destination, quota) is None ==> ({
                let q = crate::scan::first_some(free_queue_hits(old(self).dests()), DESTINATIONS as int).unwrap();
                &&& r is Ok
                &&& final(self).dests() == old(self).dests().update(q, Some(destination))
                &&& final(self).quotas() == old(self).quotas().update(q, quota)
                &&& final(self).queues() == old(self).queues()
                &&& final(self).spec_pool() == old(self).spec_pool()
                &&& final(self).counters() == old(self).counters()
            }),
    {
        if quota == 0 || quota > QUEUE {
            return Err(IpcPushError::DestinationQuota(destination));
        }
        if self.queue_index(destination).is_some() {
            return Err(IpcPushError::DuplicateDestination(destination));
        }
        let q = match self.free_queue() {
            Some(q) => q,
            None => {
                return Err(IpcPushError::DestinationRegistryFull);
            },
        };
        let ghost dests0 = self.destinations@;
        proof {
            let w = crate::scan::lemma_first_some_witness(free_queue_hits(dests0), DESTINATIONS as int);
            assert(free_queue_hits(dests0)(w) == Some(q as int));
            assert(dests0[q as int] is None);
            if exists|k: int| 0 <= k < DESTINATIONS && dests0[k] == Some(destination) {
                let k = choose|k: int| 0 <= k < DESTINATIONS && dests0[k] == Some(destination);
                crate::scan::lemma_first_some_none_all(queue_hits(dests0, destination), DESTINATIONS as int);
                assert(queue_hits(dests0, destination)(k) is None);
            }
        }
        self.destinations.set(q, Some(destination));
        self.quotas.set(q, quota);
        proof {
            assert forall|a: int, b: int| 0 <= a < b < DESTINATIONS && #[trigger] self.destinations@[a] is Some
                implies self.destinations@[a] != #[trigger] self.destinations@[b] by {
                if a != q && b != q {
                    assert(dests0[a] != dests0[b]);
                }
            }
            assert forall|k: int| 0 <= k < DESTINATIONS implies (#[trigger] self.queues@[k])@.len() <= self.quotas@[k] <= QUEUE by {
                if k == q {
                    assert(old(self).destinations@[k] is None);
                    assert(old(self).quotas@[k] == 0);
                    assert(old(self).queues@[k]@.len() <= 0);
                } else {
                    assert(self.quotas@[k] == old(self).quotas@[k]);
                    assert(old(self).queues@[k]@.len() <= old(self).quotas@[k] <= QUEUE);
                }
            }
        }
        Ok(())
    }

    fn appears_before(targets: &[ModuleId], i: usize) -> (r: bool)
        requires
            i < targets@.len(),
        ensures
            r == exists|j: int| 0 <= j < i && #[trigger] targets@[j] == targets@[i as int],
    {
        let mut j: usize = 0;
        while j < i
            invariant
                j <= i < targets@.len(),
                forall|k: int| 0 <= k < j ==> #[trigger] targets@[k] != targets@[i as int],
            decreases i - j,
        {
            if same_module(targets[j], targets[i]) {
                return true;
            }
            j += 1;
        }
        false
    }

    /// Share one payload among every target queue: all targets are checked
    /// before anything is stored, so a refusal leaves queues and pool as they
    /// were (counting quota, global and reserve refusals).
    pub fn publish(
        &mut self,
        source: ModuleId,
        destinations: &[ModuleId],
        priority: IpcPriority,
        expires_at_us: u64,
        now_us: u64,
        value: T,
    ) -> (r: Result<IpcPublishReceipt<T>, IpcPushError>)
        requires
            old(self).wf(),
        ensures
            final(self).wf(),
            final(self).dests() == old(self).dests(),
            final(self).quotas() == old(self).quotas(),
            ({
                let verdict = publish_verdict(
                    old(self).dests(),
                    old(self).quotas(),
                    old(self).queues(),
                    old(self).counters().queued as int,
                    old(self).counters().control_reserve,
                    GLOBAL,
                    old(self).spec_pool().states(),
                    destinations@,
                    priority,
                    expires_at_us,
                    now_us,
                );
                match verdict {
                    Some(e) => {
                        &&& r == Err::<IpcPublishReceipt<T>, IpcPushError>(e)
                        &&& final(self).spec_pool() == old(self).spec_pool()
                        &&& final(self).queues() == old(self).queues()
                        &&& final(self).counters() == refusal_counted(old(self).counters(), e)
                    },
                    None => r matches Ok(receipt) && {
                        let states = old(self).spec_pool().states();
                        let i = free_slot(states).unwrap();
                        let (epoch, generation) = next_identity(states[i]);
                        let n = destinations@.len();
                        &&& receipt.destinations == n
                        &&& receipt.handle.spec_slot() == i
                        &&& receipt.handle.spec_epoch() == epoch
                        &&& receipt.handle.spec_generation() == generation
                        &&& final(self).spec_pool().states() == states.update(i, SlotState {
                            epoch,
                            generation,
                            ownership: PayloadOwnership::Shared,
                            references: n as u16,
                            source,
                            expires_at_us,
                        })
                        &&& final(self).spec_pool().values() == old(self).spec_pool().values().update(i, Some(value))
                        &&& final(self).queues() == delivered(old(self).dests(), old(self).queues(), destinations@, source, priority, receipt.handle)
                        &&& final(self).counters() == (IpcSnapshot {
                            payloads: (old(self).counters().payloads + 1) as usize,
                            queued: (old(self).counters().queued + n) as usize,
                            ..old(self).counters()
                        })
                    },
                }
            }),
    {
        let n = destinations.len();
        if n == 0 {
            return Err(IpcPushError::NoDestination);
        }
        if n > u16::MAX as usize {
            return Err(IpcPushError::FanoutTooLarge);
        }
        if expires_at_us <= now_us {
            return Err(IpcPushError::InvalidExpiry);
        }
        let ghost f = target_faults(self.dests(), self.quotas(), self.queues(), destinations@);
        let mut i: usize = 0;
        while i < n
            invariant
                self.wf(),
                *self == *old(self),
                n == destinations@.len(),
                0 < n <= u16::MAX,
                expires_at_us > now_us,
                i <= n,
                f == target_faults(self.dests(), self.quotas(), self.queues(), destinations@),
                crate::scan::first_some(f, i as int) is None,
            decreases n - i,
        {
            let d = destinations[i];
            assert(f(i as int) == target_faults(self.dests(), self.quotas(), self.queues(), destinations@)(i as int));
            if Self::appears_before(destinations, i) {
                proof { crate::scan::lemma_first_some_hit(f, i as int, n as int); }
                return Err(IpcPushError::DuplicateDestination(d));
            }
            let q = match self.queue_index(d) {
                Some(q) => q,
                None => {
                    proof { crate::scan::lemma_first_some_hit(f, i as int, n as int); }
                    return Err(IpcPushError::DestinationUnknown(d));
                },
            };
            assert(self.queues()[q as int] == self.queues@[q as int]@);
            if self.queues[q].len() >= self.quotas[q] {
                proof { crate::scan::lemma_first_some_hit(f, i as int, n as int); }
                self.rejected_destination = if self.rejected_destination == u32::MAX { u32::MAX } else { self.rejected_destination + 1 };
                return Err(IpcPushError::DestinationQuota(d));
            }
            i += 1;
        }
        let next = match self.queued.checked_add(n) {
            Some(next) => next,
            None => {
                self.rejected_global = if self.rejected_global == u32::MAX { u32::MAX } else { self.rejected_global + 1 };
                return Err(IpcPushError::GlobalCapacity);
            },
        };
        if next > GLOBAL {
            self.rejected_global = if self.rejected_global == u32::MAX { u32::MAX } else { self.rejected_global + 1 };
            return Err(IpcPushError::GlobalCapacity);
        }
        let limit = if GLOBAL >= self.control_reserve { GLOBAL - self.control_reserve } else { 0 };
        if priority != IpcPriority::Control && next > limit {
            self.rejected_reserve = if self.rejected_reserve == u32::MAX { u32::MAX } else { self.rejected_reserve + 1 };
            return Err(IpcPushError::ControlReserve);
        }
        let ghost values0 = self.pool.values();
        let handle = match self.pool.allocate(source, value, expires_at_us, now_us) {
            Ok(handle) => handle,
            Err(error) => {
                return Err(match error {
                    PayloadPoolError::Full => IpcPushError::PayloadPoolFull,
                    PayloadPoolError::IdentityExhausted => IpcPushError::PayloadIdentityExhausted,
                    _ => IpcPushError::InvalidExpiry,
                });
            },
        };
        proof {
            let states0 = old(self).pool.states();
            let w = crate::scan::lemma_first_some_witness(free_hits(states0), PAYLOADS as int);
        }
        match self.pool.share(handle, source, n, now_us) {
            Ok(()) => {},
            Err(_) => {
                let _ = self.pool.release(handle, source);
                return Err(IpcPushError::FanoutTooLarge);
            },
        }
        let ghost queues0 = self.queues();
        let ghost dests = self.dests();
        let ghost quotas0 = self.quotas();
        let ghost pool1 = self.pool;
        let ghost g = target_faults(dests, quotas0, queues0, destinations@);
        let ghost slot = handle.spec_slot() as int;
        let ghost states0 = old(self).pool.states();
        proof {
            crate::scan::lemma_first_some_none_all(g, n as int);
            let w = crate::scan::lemma_first_some_witness(free_hits(states0), PAYLOADS as int);
            assert(free_hits(states0)(w) == Some(slot));
            assert(!occupied(states0[slot]));
            assert(pool1.states() =~= states0.update(slot, SlotState {
                epoch: handle.spec_epoch(),
                generation: handle.spec_generation(),
                ownership: PayloadOwnership::Shared,
                references: n as u16,
                source,
                expires_at_us,
            }));
            assert forall|a: int, b: int| 0 <= a < queues0.len() && 0 <= b < queues0[a].len()
                implies shared_live(pool1.states(), #[trigger] queues0[a][b].handle) && queues0[a][b].handle.spec_slot() != slot by {
                assert(shared_live(states0, queues0[a][b].handle));
            }
            lemma_held_none(queues0, slot, DESTINATIONS as int);
        }
        let mut k: usize = 0;
        while k < n
            invariant
                n == destinations@.len(),
                k <= n,
                self.pool.wf(),
                self.pool == pool1,
                dests == self.dests(),
                quotas0 == self.quotas(),
                self.destinations == old(self).destinations,
                self.quotas == old(self).quotas,
                self.queued == old(self).queued,
                self.control_reserve == old(self).control_reserve,
                self.rejected_global == old(self).rejected_global,
                self.rejected_reserve == old(self).rejected_reserve,
                self.rejected_destination == old(self).rejected_destination,
                self.expired == old(self).expired,
                self.cancelled == old(self).cancelled,
                old(self).wf(),
                queues0 == old(self).queues(),
                dests == old(self).dests(),
                quotas0 == old(self).quotas(),
                self.queues@.len() == DESTINATIONS,
                g == target_faults(dests, quotas0, queues0, destinations@),
                forall|i: int| 0 <= i < n ==> (#[trigger] g(i)) is None,
                self.queues() == delivered(dests, queues0, destinations@.take(k as int), source, priority, handle),
                total_len(self.queues(), DESTINATIONS as int) == total_len(queues0, DESTINATIONS as int) + k,
                slot == handle.spec_slot(),
                shared_live(pool1.states(), handle),
                forall|j: int| #![trigger held(self.queues(), j, DESTINATIONS as int)]
                    held(self.queues(), j, DESTINATIONS as int) == held(queues0, j, DESTINATIONS as int) + (if j == slot { k as int } else { 0int }),
                forall|a: int, b: int| 0 <= a < self.queues().len() && 0 <= b < self.queues()[a].len()
                    ==> shared_live(pool1.states(), #[trigger] self.queues()[a][b].handle),
            decreases n - k,
        {
            let d = destinations[k];
            assert(g(k as int) == target_faults(dests, quotas0, queues0, destinations@)(k as int));
            assert(g(k as int) is None);
            let q = match self.queue_index_of(d) {
                Some(q) => q,
                None => {
                    k += 1;
                    continue;
                },
            };
            let ghost before = self.queues();
            let env = IpcEnvelope { source, destination: d, priority, handle };
            self.queues[q].push(env);
            proof {
                assert(self.queues() =~= before.update(q as int, before[q as int].push(env)));
                lemma_deliver_step(dests, queues0, destinations@, k as int, q as int, source, priority, handle);
                lemma_total_push(before, q as int, env, DESTINATIONS as int);
                assert forall|j: int| #![trigger held(self.queues(), j, DESTINATIONS as int)]
                    held(self.queues(), j, DESTINATIONS as int) == held(queues0, j, DESTINATIONS as int) + (if j == slot { k + 1 } else { 0int }) by {
                    lemma_held_update(before, q as int, before[q as int].push(env), j, DESTINATIONS as int);
                    lemma_held_in_push(before[q as int], env, j);
                    assert(held(before, j, DESTINATIONS as int) == held(queues0, j, DESTINATIONS as int) + (if j == slot { k as int } else { 0int }));
                }
                assert forall|a: int, b: int| 0 <= a < self.queues().len() && 0 <= b < self.queues()[a].len()
                    implies shared_live(pool1.states(), #[trigger] self.queues()[a][b].handle) by {
                    if a == q && b == before[q as int].len() {
                        assert(self.queues()[a][b] == env);
                    } else {
                        assert(self.queues()[a][b] == before[a][b]);
                    }
                }
            }
            k += 1;
        }
        proof {
            assert(destinations@.take(n as int) =~= destinations@);
            assert forall|q: int| 0 <= q < DESTINATIONS implies (#[trigger] self.queues@[q])@.len() <= self.quotas@[q] <= QUEUE by {
                assert(self.queues()[q] == self.queues@[q]@);
                assert(old(self).queues()[q] == old(self).queues@[q]@);
                lemma_delivered_fits(dests, quotas0, queues0, destinations@, source, priority, handle, q);
            }
        }
        self.queued = next;
        proof {
            let states0 = old(self).spec_pool().states();
            let i = free_slot(states0).unwrap();
            let (epoch, generation) = next_identity(states0[i]);
            assert(self.pool.states() =~= states0.update(i, SlotState {
                epoch,
                generation,
                ownership: PayloadOwnership::Shared,
                references: n as u16,
                source,
                expires_at_us,
            }));
            let st = self.pool.states();
            assert forall|j: int| 0 <= j < st.len() && (#[trigger] st[j].ownership) is Shared
                implies st[j].references == held(self.queues(), j, self.queues().len() as int) by {
                assert(held(self.queues(), j, DESTINATIONS as int) == held(queues0, j, DESTINATIONS as int) + (if j == slot { n as int } else { 0int }));
                if j != slot {
                    assert(st[j] == states0[j]);
                }
            }
            assert forall|j: int| 0 <= j < st.len() implies !(#[trigger] st[j].ownership is Exclusive) by {
                if j != slot {
                    assert(st[j] == states0[j]);
                }
            }
        }
        Ok(IpcPublishReceipt { handle, destinations: n as u16 })
    }

    /// `queue_index` without the well-formedness demand on the queues.
    fn queue_index_of(&self, destination: ModuleId) -> (r: Option<usize>)
        requires
            self.destinations@.len() == DESTINATIONS,
            self.queues@.len() == DESTINATIONS,
        ensures
            r matches Some(q) ==> queue_of(self.dests(), destination) == Some(q as int) && q < DESTINATIONS,
            r is None ==> queue_of(self.dests(), destination) is None,
    {
        let ghost f = queue_hits(self.destinations@, destination);
        let mut q: usize = 0;
        while q < self.destinations.len()
            invariant
                self.destinations@.len() == DESTINATIONS,
                f == queue_hits(self.destinations@, destination),
                q <= DESTINATIONS,
                crate::scan::first_some(f, q as int) is None,
            decreases DESTINATIONS - q,
        {
            assert(f(q as int) == queue_hits(self.destinations@, destination)(q as int));
            let hit = match self.destinations[q] {
                Some(d) => same_module(d, destination),
                None => false,
            };
            if hit {
                proof { crate::scan::lemma_first_some_hit(f, q as int, DESTINATIONS as int); }
                return Some(q);
            }
            q += 1;
        }
        None
    }

    /// Sweep one queue (see `expire_prefix`); returns how many left it.
    fn expire_queue(&mut self, qi: usize, now_us: u64) -> (removed: usize)
        requires
            old(self).wf(),
            qi < DESTINATIONS,
        ensures
            final(self).wf(),
            ({
                let (m, kept) = expire_prefix(old(self).spec_pool().model(), old(self).queues()[qi as int], now_us, old(self).queues()[qi as int].len() as int);
                &&& final(self).spec_pool().model() == m
                &&& final(self).queues() == old(self).queues().update(qi as int, kept)
                &&& removed == old(self).queues()[qi as int].len() - kept.len()
            }),
            removed <= old(self).counters().queued,
            forall|j: int| 0 <= j < final(self).queues()[qi as int].len() ==> live_fault(
                final(self).spec_pool().states(),
                #[trigger] final(self).queues()[qi as int][j].handle,
                now_us,
            ) is None,
            final(self).dests() == old(self).dests(),
            final(self).quotas() == old(self).quotas(),
            final(self).counters() == (IpcSnapshot {
                payloads: final(self).spec_pool().spec_len(),
                queued: (old(self).counters().queued - removed) as usize,
                expired: sat_u32(old(self).counters().expired + removed),
                ..old(self).counters()
            }),
    {
        let ghost queues0 = self.queues();
        let ghost m0 = self.pool.model();
        let mut es: Vec<IpcEnvelope<T>> = Vec::new();
        core::mem::swap(&mut self.queues[qi], &mut es);
        assert(es@ == queues0[qi as int]);
        let ghost mid_queues = self.queues@;
        let mut kept: Vec<IpcEnvelope<T>> = Vec::new();
        proof {
            assert(kept@ + es@.skip(0) =~= es@);
            assert(queues0.update(qi as int, es@) =~= queues0);
        }
        let mut k: usize = 0;
        while k < es.len()
            invariant
                k <= es@.len(),
                qi < DESTINATIONS,
                queues0 == old(self).queues(),
                queues0.len() == DESTINATIONS,
                es@ == queues0[qi as int],
                self.queues@ == mid_queues,
                mid_queues.len() == DESTINATIONS,
                self.destinations == old(self).destinations,
                self.quotas == old(self).quotas,
                self.queued == old(self).queued,
                self.control_reserve == old(self).control_reserve,
                self.rejected_global == old(self).rejected_global,
                self.rejected_reserve == old(self).rejected_reserve,
                self.rejected_destination == old(self).rejected_destination,
                self.expired == old(self).expired,
                self.cancelled == old(self).cancelled,
                self.pool.wf(),
                (self.pool.model(), kept@) == expire_prefix(m0, es@, now_us, k as int),
                kept@.len() <= k,
                refs_match(self.pool.states(), queues0.update(qi as int, kept@ + es@.skip(k as int))),
                forall|j: int| 0 <= j < kept@.len() ==> live_fault(self.pool.states(), #[trigger] kept@[j].handle, now_us) is None,
            decreases es@.len() - k,
        {
            let e = es[k];
            let ghost virt = queues0.update(qi as int, kept@ + es@.skip(k as int));
            let ghost m_before = self.pool.model();
            let ghost kept0 = kept@;
            proof {
                assert(virt[qi as int][kept@.len() as int] == e);
                assert(virt[qi as int].remove(kept@.len() as int) =~= kept@ + es@.skip(k + 1));
            }
            let stale = match self.pool.expires_at(e.handle) {
                Ok(deadline) => now_us >= deadline,
                Err(_) => true,
            };
            if stale {
                proof {
                    lemma_drop_delivery(m_before, virt, qi as int, kept@.len() as int);
                    assert(virt.update(qi as int, virt[qi as int].remove(kept@.len() as int)) =~= queues0.update(qi as int, kept@ + es@.skip(k + 1)));
                }
                let _ = self.pool.release_shared(e.handle);
                proof {
                    assert forall|j: int| 0 <= j < kept@.len() implies live_fault(self.pool.states(), #[trigger] kept@[j].handle, now_us) is None by {
                        let qs2 = queues0.update(qi as int, kept@ + es@.skip(k + 1));
                        assert(qs2[qi as int][j] == kept@[j]);
                        assert(shared_live(self.pool.states(), qs2[qi as int][j].handle));
                    }
                }
            } else {
                kept.push(e);
                proof {
                    assert(kept@ + es@.skip(k + 1) =~= kept0 + es@.skip(k as int));
                    assert(kept@[kept0.len() as int] == e);
                }
            }
            k += 1;
        }
        let removed = es.len() - kept.len();
        let ghost kept_seq = kept@;
        proof {
            assert(kept_seq + es@.skip(es@.len() as int) =~= kept_seq);
        }
        self.queues.set(qi, kept);
        proof {
            assert(self.queues() =~= queues0.update(qi as int, kept_seq));
            lemma_total_shrink(queues0, qi as int, kept_seq, DESTINATIONS as int);
            assert forall|q: int| 0 <= q < DESTINATIONS implies (#[trigger] self.queues@[q])@.len() <= self.quotas@[q] <= QUEUE by {
                assert(old(self).queues@[q]@ == queues0[q]);
            }
        }
        proof {
            lemma_total_shrink(queues0, qi as int, kept_seq, DESTINATIONS as int);
        }
        self.queued = self.queued - removed;
        self.expired = if removed as u64 > (u32::MAX - self.expired) as u64 { u32::MAX } else { self.expired + removed as u32 };
        removed
    }

    /// Drop every expired delivery; returns how many were dropped.
    pub fn expire(&mut self, now_us: u64) -> (r: usize)
        requires
            old(self).wf(),
        ensures
            final(self).wf(),
            ({
                let (m, qs) = expire_queues(old(self).spec_pool().model(), old(self).queues(), now_us, DESTINATIONS as int);
                &&& final(self).spec_pool().model() == m
                &&& final(self).queues() == qs
            }),
            final(self).dests() == old(self).dests(),
            final(self).quotas() == old(self).quotas(),
            r == old(self).counters().queued - final(self).counters().queued,
            final(self).counters() == (IpcSnapshot {
                payloads: final(self).spec_pool().spec_len(),
                queued: final(self).counters().queued,
                expired: sat_u32(old(self).counters().expired + r),
                ..old(self).counters()
            }),
    {
        let before = self.queued;
        let mut q: usize = 0;
        while q < DESTINATIONS
            invariant
                q <= DESTINATIONS,
                self.wf(),
                old(self).wf(),
                old(self).queues().len() == DESTINATIONS,
                before == old(self).queued,
                self.queued <= before,
                ({
                    let (m, qs) = expire_queues(old(self).spec_pool().model(), old(self).queues(), now_us, q as int);
                    &&& self.pool.model() == m
                    &&& self.queues() == qs
                }),
                self.dests() == old(self).dests(),
                self.quotas() == old(self).quotas(),
                self.counters() == (IpcSnapshot {
                    payloads: self.pool.spec_len(),
                    queued: self.queued,
                    expired: sat_u32(old(self).expired + (before - self.queued)),
                    ..old(self).counters()
                }),
            decreases DESTINATIONS - q,
        {
            proof {
                lemma_queues_prefix_len(old(self).spec_pool().model(), old(self).queues(), now_us, q as int);
            }
            let ghost e0 = self.expired;
            let ghost queued0 = self.queued;
            let removed = self.expire_queue(q, now_us);
            proof {
                lemma_sat_add(old(self).expired as int, before - queued0, removed as int);
            }
            q += 1;
        }
        before - self.queued
    }

    /// Drop every delivery from or to `module`; returns how many were dropped.
    pub fn cancel_for(&mut self, module: ModuleId) -> (r: usize)
        requires
            old(self).wf(),
        ensures
            final(self).wf(),
            ({
                let (m, qs) = cancel_queues(old(self).spec_pool().model(), old(self).queues(), module, DESTINATIONS as int);
                &&& final(self).spec_pool().model() == m
                &&& final(self).queues() == qs
            }),
            final(self).dests() == old(self).dests(),
            final(self).quotas() == old(self).quotas(),
            r == old(self).counters().queued - final(self).counters().queued,
            final(self).counters() == (IpcSnapshot {
                payloads: final(self).spec_pool().spec_len(),
                queued: final(self).counters().queued,
                cancelled: sat_u32(old(self).counters().cancelled + r),
                ..old(self).counters()
            }),
    {
        let before = self.queued;
        let mut q: usize = 0;
        while q < DESTINATIONS
            invariant
                q <= DESTINATIONS,
                self.wf(),
                old(self).wf(),
                old(self).queues().len() == DESTINATIONS,
                before == old(self).queued,
                self.queued <= before,
                ({
                    let (m, qs) = cancel_queues(old(self).spec_pool().model(), old(self).queues(), module, q as int);
                    &&& self.pool.model() == m
                    &&& self.queues() == qs
                }),
                self.dests() == old(self).dests(),
                self.quotas() == old(self).quotas(),
                self.counters() == (IpcSnapshot {
                    payloads: self.pool.spec_len(),
                    queued: self.queued,
                    ..old(self).counters()
                }),
            decreases DESTINATIONS - q,
        {
            proof {
                lemma_cancel_prefix_len(old(self).spec_pool().model(), old(self).queues(), module, q as int);
            }
            self.cancel_queue(q, module);
            q += 1;
        }
        let removed = before - self.queued;
        self.cancelled = if removed as u64 > (u32::MAX - self.cancelled) as u64 { u32::MAX } else { self.cancelled + removed as u32 };
        removed
    }

    /// Cancel in one queue (see `cancel_prefix`); returns how many left it.
    fn cancel_queue(&mut self, qi: usize, module: ModuleId) -> (removed: usize)
        requires
            old(self).wf(),
            qi < DESTINATIONS,
        ensures
            final(self).wf(),
            ({
                let (m, kept) = cancel_prefix(old(self).spec_pool().model(), old(self).queues()[qi as int], module, old(self).queues()[qi as int].len() as int);
                &&& final(self).spec_pool().model() == m
                &&& final(self).queues() == old(self).queues().update(qi as int, kept)
                &&& removed == old(self).queues()[qi as int].len() - kept.len()
            }),
            removed <= old(self).counters().queued,
            final(self).dests() == old(self).dests(),
            final(self).quotas() == old(self).quotas(),
            final(self).counters() == (IpcSnapshot {
                payloads: final(self).spec_pool().spec_len(),
                queued: (old(self).counters().queued - removed) as usize,
                ..old(self).counters()
            }),
    {
        let ghost queues0 = self.queues();
        let ghost m0 = self.pool.model();
        let mut es: Vec<IpcEnvelope<T>> = Vec::new();
        core::mem::swap(&mut self.queues[qi], &mut es);
        assert(es@ == queues0[qi as int]);
        let ghost mid_queues = self.queues@;
        let mut kept: Vec<IpcEnvelope<T>> = Vec::new();
        proof {
            assert(kept@ + es@.skip(0) =~= es@);
            assert(queues0.update(qi as int, es@) =~= queues0);
        }
        let mut k: usize = 0;
        while k < es.len()
            invariant
                k <= es@.len(),
                qi < DESTINATIONS,
                queues0 == old(self).queues(),
                queues0.len() == DESTINATIONS,
                es@ == queues0[qi as int],
                self.queues@ == mid_queues,
                mid_queues.len() == DESTINATIONS,
                self.destinations == old(self).destinations,
                self.quotas == old(self).quotas,
                self.queued == old(self).queued,
                self.control_reserve == old(self).control_reserve,
                self.rejected_global == old(self).rejected_global,
                self.rejected_reserve == old(self).rejected_reserve,
                self.rejected_destination == old(self).rejected_destination,
                self.expired == old(self).expired,
                self.cancelled == old(self).cancelled,
                self.pool.wf(),
                (self.pool.model(), kept@) == cancel_prefix(m0, es@, module, k as int),
                kept@.len() <= k,
                refs_match(self.pool.states(), queues0.update(qi as int, kept@ + es@.skip(k as int))),
            decreases es@.len() - k,
        {
            let e = es[k];
            let ghost virt = queues0.update(qi as int, kept@ + es@.skip(k as int));
            let ghost m_before = self.pool.model();
            let ghost kept0 = kept@;
            proof {
                assert(virt[qi as int][kept@.len() as int] == e);
                assert(virt[qi as int].remove(kept@.len() as int) =~= kept@ + es@.skip(k + 1));
            }
            if same_module(e.source, module) || same_module(e.destination, module) {
                proof {
                    lemma_drop_delivery(m_before, virt, qi as int, kept@.len() as int);
                    assert(virt.update(qi as int, virt[qi as int].remove(kept@.len() as int)) =~= queues0.update(qi as int, kept@ + es@.skip(k + 1)));
                }
                let _ = self.pool.release_shared(e.handle);
            } else {
                kept.push(e);
                proof {
                    assert(kept@ + es@.skip(k + 1) =~= kept0 + es@.skip(k as int));
                }
            }
            k += 1;
        }
        let removed = es.len() - kept.len();
        let ghost kept_seq = kept@;
        proof {
            assert(kept_seq + es@.skip(es@.len() as int) =~= kept_seq);
        }
        self.queues.set(qi, kept);
        proof {
            assert(self.queues() =~= queues0.update(qi as int, kept_seq));
            lemma_total_shrink(queues0, qi as int, kept_seq, DESTINATIONS as int);
            assert forall|q: int| 0 <= q < DESTINATIONS implies (#[trigger] self.queues@[q])@.len() <= self.quotas@[q] <= QUEUE by {
                assert(old(self).queues@[q]@ == queues0[q]);
            }
        }
        self.queued = self.queued - removed;
        removed
    }

    /// The router's counters.
    pub fn snapshot(&self) -> (r: IpcSnapshot)
        ensures
            r == self.counters(),
    {
        IpcSnapshot {
            payloads: self.pool.len(),
            queued: self.queued,
            global_capacity: GLOBAL,
            control_reserve: self.control_reserve,
            rejected_global: self.rejected_global,
            rejected_reserve: self.rejected_reserve,
            rejected_destination: self.rejected_destination,
            expired: self.expired,
            cancelled: self.cancelled,
        }
    }

    fn best_of(es: &Vec<IpcEnvelope<T>>) -> (b: usize)
        requires
            es@.len() > 0,
        ensures
            b == best_prefix(es@, es@.len() as int),
            b < es@.len(),
    {
        let mut best: usize = 0;
        let mut k: usize = 1;
        while k < es.len()
            invariant
                1 <= k <= es@.len(),
                best == best_prefix(es@, k as int),
                best < k,
            decreases es@.len() - k,
        {
            if es[k].priority.rank() > es[best].priority.rank() {
                best = k;
            }
            k += 1;
        }
        best
    }

    /// Hand the highest-priority delivery for `destination` (the first among
    /// equals) to `visit`, after dropping its expired deliveries; the shared
    /// reference is dropped when `visit` returns.
    pub fn receive_with<R, F: FnOnce(ModuleId, IpcPriority, &T) -> R>(
        &mut self,
        destination: ModuleId,
        now_us: u64,
        visit: F,
    ) -> (r: Result<Option<R>, IpcReceiveError>)
        requires
            old(self).wf(),
            forall|source: ModuleId, priority: IpcPriority, payload: &T| call_requires(visit, (source, priority, payload)),
        ensures
            final(self).wf(),
            final(self).dests() == old(self).dests(),
            final(self).quotas() == old(self).quotas(),
            queue_of(old(self).dests(), destination) is None
                ==> r == Err::<Option<R>, IpcReceiveError>(IpcReceiveError::DestinationUnknown(destination)) && *final(self) == *old(self),
            queue_of(old(self).dests(), destination) matches Some(q) ==> ({
                let (m1, kept) = expire_prefix(old(self).spec_pool().model(), old(self).queues()[q], now_us, old(self).queues()[q].len() as int);
                let swept = old(self).queues()[q].len() - kept.len();
                if kept.len() == 0 {
                    &&& r matches Ok(None)
                    &&& final(self).spec_pool().model() == m1
                    &&& final(self).queues() == old(self).queues().update(q, kept)
                    &&& final(self).counters() == (IpcSnapshot {
                        payloads: final(self).spec_pool().spec_len(),
                        queued: (old(self).counters().queued - swept) as usize,
                        expired: sat_u32(old(self).counters().expired + swept),
                        ..old(self).counters()
                    })
                } else {
                    let b = best_prefix(kept, kept.len() as int);
                    let e = kept[b];
                    &&& shared_fault(m1.0, e.handle, now_us) is None
                    &&& final(self).queues() == old(self).queues().update(q, kept.remove(b))
                    &&& final(self).spec_pool().model() == unshared_model(m1, e.handle)
                    &&& final(self).counters() == (IpcSnapshot {
                        payloads: final(self).spec_pool().spec_len(),
                        queued: (old(self).counters().queued - swept - 1) as usize,
                        expired: sat_u32(old(self).counters().expired + swept),
                        ..old(self).counters()
                    })
                    &&& match shared_fault(m1.0, e.handle, now_us) {
                        Some(err) => r == Err::<Option<R>, IpcReceiveError>(IpcReceiveError::Payload(err)),
                        None => r matches Ok(Some(x)) && call_ensures(visit, (e.source, e.priority, &m1.1[e.handle.spec_slot() as int].unwrap()), x),
                    }
                }
            }),
    {
        let qi = match self.queue_index(destination) {
            Some(qi) => qi,
            None => {
                return Err(IpcReceiveError::DestinationUnknown(destination));
            },
        };
        let swept = self.expire_queue(qi, now_us);
        let ghost mid = *self;
        let mut es: Vec<IpcEnvelope<T>> = Vec::new();
        core::mem::swap(&mut self.queues[qi], &mut es);
        assert(es@ == mid.queues()[qi as int]);
        if es.len() == 0 {
            self.queues.set(qi, es);
            proof {
                assert(self.queues@ =~= mid.queues@);
            }
            return Ok(None);
        }
        let b = Self::best_of(&es);
        let ghost es0 = es@;
        let e = es.remove(b);
        let ghost rest = es@;
        self.queues.set(qi, es);
        proof {
            assert(self.queues() =~= mid.queues().update(qi as int, rest));
            lemma_total_shrink(mid.queues(), qi as int, rest, DESTINATIONS as int);
            assert forall|q: int| 0 <= q < DESTINATIONS implies (#[trigger] self.queues@[q])@.len() <= self.quotas@[q] <= QUEUE by {
                assert(mid.queues@[q]@ == mid.queues()[q]);
            }
        }
        self.queued = self.queued - 1;
        let ghost m1 = self.pool.model();
        proof {
            assert(es0 == mid.queues()[qi as int]);
            assert(mid.queues()[qi as int][b as int] == e);
            lemma_drop_delivery(m1, mid.queues(), qi as int, b as int);
            assert(mid.queues().update(qi as int, mid.queues()[qi as int].remove(b as int)) =~= self.queues());
            assert(live_fault(m1.0, e.handle, now_us) is None);
            assert(shared_live(m1.0, mid.queues()[qi as int][b as int].handle));
        }
        match self.pool.borrow_shared(e.handle, now_us) {
            Err(error) => {
                let _ = self.pool.release_shared(e.handle);
                Err(IpcReceiveError::Payload(error))
            },
            Ok(payload) => {
                let result = visit(e.source, e.priority, payload);
                match self.pool.release_shared(e.handle) {
                    Err(error) => {
                        return Err(IpcReceiveError::Payload(error));
                    },
                    Ok(()) => {},
                }
                Ok(Some(result))
            },
        }
    }

    fn free_queue(&self) -> (r: Option<usize>)
        requires
            self.wf(),
        ensures
            r matches Some(q) ==> crate::scan::first_some(free_queue_hits(self.dests()), DESTINATIONS as int) == Some(q as int) && q < DESTINATIONS,
            r is None ==> crate::scan::first_some(free_queue_hits(self.dests()), DESTINATIONS as int) is None,
    {
        let ghost f = free_queue_hits(self.destinations@);
        let mut q: usize = 0;
        while q < self.destinations.len()
            invariant
                self.wf(),
                f == free_queue_hits(self.destinations@),
                q <= DESTINATIONS,
                crate::scan::first_some(f, q as int) is None,
            decreases DESTINATIONS - q,
        {
            assert(f(q as int) == free_queue_hits(self.destinations@)(q as int));
            if self.destinations[q].is_none() {
                proof { crate::scan::lemma_first_some_hit(f, q as int, DESTINATIONS as int); }
                return Some(q);
            }
            q += 1;
        }
        None
    }
}

/// One more delivery changes only the queue registered for the new target,
/// which had received nothing yet.
proof fn lemma_deliver_step<T>(
    dests: Seq<Option<ModuleId>>,
    queues0: Seq<Seq<IpcEnvelope<T>>>,
    targets: Seq<ModuleId>,
    k: int,
    q: int,
    source: ModuleId,
    priority: IpcPriority,
    handle: PayloadHandle<T>,
)
    requires
        0 <= k < targets.len(),
        queues0.len() == dests.len(),
        queue_of(dests, targets[k]) == Some(q),
        forall|a: int, b: int| 0 <= a < b < dests.len() && #[trigger] dests[a] is Some ==> dests[a] != #[trigger] dests[b],
        !(exists|j: int| 0 <= j < k && #[trigger] targets[j] == targets[k]),
    ensures
        0 <= q < dests.len(),
        delivered(dests, queues0, targets.take(k), source, priority, handle)[q] == queues0[q],
        delivered(dests, queues0, targets.take(k + 1), source, priority, handle) == delivered(dests, queues0, targets.take(k), source, priority, handle).update(
            q,
            queues0[q].push(IpcEnvelope { source, destination: targets[k], priority, handle }),
        ),
{
    let w = crate::scan::lemma_first_some_witness(queue_hits(dests, targets[k]), dests.len() as int);
    assert(queue_hits(dests, targets[k])(w) == Some(q));
    assert(dests[q] == Some(targets[k]));
    let a = targets.take(k);
    let b = targets.take(k + 1);
    assert(b =~= a.push(targets[k]));
    if a.contains(targets[k]) {
        let j = choose|j: int| 0 <= j < a.len() && a[j] == targets[k];
        assert(targets[j] == targets[k]);
    }
    let da = delivered(dests, queues0, a, source, priority, handle);
    let db = delivered(dests, queues0, b, source, priority, handle);
    assert forall|x: int| 0 <= x < dests.len() && x != q implies #[trigger] db[x] == da[x] by {
        match dests[x] {
            Some(d) => {
                if d == targets[k] {
                    if x < q {
                        assert(dests[x] != dests[q]);
                    } else {
                        assert(dests[q] != dests[x]);
                    }
                }
                assert(b.contains(d) == a.contains(d)) by {
                    if b.contains(d) {
                        let j = choose|j: int| 0 <= j < b.len() && b[j] == d;
                        if j < k {
                            assert(a[j] == d);
                        }
                    }
                    if a.contains(d) {
                        let j = choose|j: int| 0 <= j < a.len() && a[j] == d;
                        assert(b[j] == d);
                    }
                }
            },
            None => {},
        }
    }
    assert(b[k] == targets[k]);
    assert(db =~= da.update(q, queues0[q].push(IpcEnvelope { source, destination: targets[k], priority, handle })));
}

/// A push adds one delivery to the total.
proof fn lemma_total_push<T>(queues: Seq<Seq<IpcEnvelope<T>>>, q: int, x: IpcEnvelope<T>, k: int)
    requires
        0 <= q < queues.len(),
        0 <= k <= queues.len(),
    ensures
        total_len(queues.update(q, queues[q].push(x)), k) == total_len(queues, k) + if q < k { 1int } else { 0int },
    decreases k,
{
    if k > 0 {
        lemma_total_push(queues, q, x, k - 1);
    }
}

/// Every target's queue was below its quota, so one delivery each fits.
proof fn lemma_delivered_fits<T>(
    dests: Seq<Option<ModuleId>>,
    quotas: Seq<usize>,
    queues0: Seq<Seq<IpcEnvelope<T>>>,
    targets: Seq<ModuleId>,
    source: ModuleId,
    priority: IpcPriority,
    handle: PayloadHandle<T>,
    q: int,
)
    requires
        0 <= q < dests.len(),
        queues0.len() == dests.len(),
        quotas.len() == dests.len(),
        queues0[q].len() <= quotas[q],
        forall|a: int, b: int| 0 <= a < b < dests.len() && #[trigger] dests[a] is Some ==> dests[a] != #[trigger] dests[b],
        forall|i: int| 0 <= i < targets.len() ==> (#[trigger] target_faults(dests, quotas, queues0, targets)(i)) is None,
    ensures
        delivered(dests, queues0, targets, source, priority, handle)[q].len() <= quotas[q],
{
    match dests[q] {
        Some(d) => {
            if targets.contains(d) {
                let j = choose|j: int| 0 <= j < targets.len() && targets[j] == d;
                assert(target_faults(dests, quotas, queues0, targets)(j) is None);
                let q2 = queue_of(dests, d).unwrap();
                let w = crate::scan::lemma_first_some_witness(queue_hits(dests, d), dests.len() as int);
                assert(queue_hits(dests, d)(w) == Some(q2));
                if q2 != q {
                    if q2 < q {
                        assert(dests[q2] != dests[q]);
                    } else {
                        assert(dests[q] != dests[q2]);
                    }
                }
            }
        },
        None => {},
    }
}

/// Replacing one queue by a shorter one lowers the total by the difference.
proof fn lemma_total_shrink<T>(queues: Seq<Seq<IpcEnvelope<T>>>, q: int, kept: Seq<IpcEnvelope<T>>, k: int)
    requires
        0 <= q < queues.len(),
        0 <= k <= queues.len(),
    ensures
        total_len(queues.update(q, kept), k) + (if q < k { queues[q].len() as int } else { 0int })
            == total_len(queues, k) + (if q < k { kept.len() as int } else { 0int }),
        q < k ==> total_len(queues, k) >= queues[q].len(),
    decreases k,
{
    if k > 0 {
        lemma_total_shrink(queues, q, kept, k - 1);
    }
}

/// Sweeping queues before `q` leaves queue `q` and the count of queues alone.
proof fn lemma_queues_prefix_len<T>(m: (Seq<SlotState>, Seq<Option<T>>, int), qs: Seq<Seq<IpcEnvelope<T>>>, now_us: u64, q: int)
    requires
        0 <= q <= qs.len(),
    ensures
        expire_queues(m, qs, now_us, q).1.len() == qs.len(),
        forall|j: int| q <= j < qs.len() ==> #[trigger] expire_queues(m, qs, now_us, q).1[j] == qs[j],
    decreases q,
{
    if q > 0 {
        lemma_queues_prefix_len(m, qs, now_us, q - 1);
    }
}

proof fn lemma_cancel_prefix_len<T>(m: (Seq<SlotState>, Seq<Option<T>>, int), qs: Seq<Seq<IpcEnvelope<T>>>, module: ModuleId, q: int)
    requires
        0 <= q <= qs.len(),
    ensures
        cancel_queues(m, qs, module, q).1.len() == qs.len(),
        forall|j: int| q <= j < qs.len() ==> #[trigger] cancel_queues(m, qs, module, q).1[j] == qs[j],
    decreases q,
{
    if q > 0 {
        lemma_cancel_prefix_len(m, qs, module, q - 1);
    }
}

proof fn lemma_sat_add(a: int, x: int, y: int)
    requires
        0 <= a <= u32::MAX,
        0 <= x,
        0 <= y,
    ensures
        sat_u32(sat_u32(a + x) + y) == sat_u32(a + x + y),
{
}

proof fn lemma_total_empty<T>(queues: Seq<Seq<IpcEnvelope<T>>>, k: int)
    requires
        0 <= k <= queues.len(),
        forall|q: int| 0 <= q < k ==> (#[trigger] queues[q]).len() == 0,
    ensures
        total_len(queues, k) == 0,
    decreases k,
{
    if k > 0 {
        lemma_total_empty(queues, k - 1);
    }
}

} // verus!
