//! Fixed-capacity module mailbox for small control messages.
//!
//! Control messages (`Recovery`, `Shutdown`) may use a reserved share of the
//! capacity and are delivered ahead of ordinary traffic; each class stays FIFO.

use vstd::prelude::*;

use crate::health::{same_module, ModuleId};

verus! {

#[derive(Clone, Copy, Debug, PartialEq, Eq, Structural)]
pub enum MessageKind {
    Command,
    Notification,
    Recovery,
    SampleReady,
    Shutdown,
}

#[derive(Clone, Copy, Debug, PartialEq, Eq, Structural)]
pub struct Message {
    pub from: ModuleId,
    pub to: ModuleId,
    pub kind: MessageKind,
    pub arg0: u32,
    pub arg1: u32,
}

impl Message {
    pub open spec fn is_control(self) -> bool {
        self.kind is Recovery || self.kind is Shutdown
    }

    /// The message names `module` as sender or receiver.
    pub open spec fn touches(self, module: ModuleId) -> bool {
        self.from == module || self.to == module
    }

    pub fn new(from: ModuleId, to: ModuleId, kind: MessageKind, arg0: u32, arg1: u32) -> (r: Self)
        ensures
            r == (Message { from, to, kind, arg0, arg1 }),
    {
        Message { from, to, kind, arg0, arg1 }
    }
}

#[derive(Clone, Copy, Debug, PartialEq, Eq, Structural)]
pub enum MailboxError {
    Full,
}

/// Work done by a selective receive: entries inspected and entries shifted.
#[derive(Clone, Copy, Debug, Default, PartialEq, Eq, Structural)]
pub struct MailboxWork {
    pub inspected: usize,
    pub shifted: usize,
}

/// Queue order after removing the message at `i`.
pub open spec fn remove_at(s: Seq<Message>, i: int) -> Seq<Message> {
    s.subrange(0, i) + s.subrange(i + 1, s.len() as int)
}

/// The messages of `s` that do not touch `module`, in order.
pub open spec fn without(s: Seq<Message>, module: ModuleId) -> Seq<Message>
    decreases s.len(),
{
    if s.len() == 0 {
        s
    } else {
        let prev = without(s.drop_last(), module);
        if s.last().touches(module) {
            prev
        } else {
            prev.push(s.last())
        }
    }
}

/// Index of the first message addressed to `to`, or `s.len()` when none is.
pub open spec fn first_to(s: Seq<Message>, to: ModuleId) -> int
    decreases s.len(),
{
    if s.len() == 0 {
        0
    } else if s[0].to == to {
        0
    } else {
        1 + first_to(s.skip(1), to)
    }
}

/// Ring position `age` places after `head` in a ring of `n` slots.
pub open spec fn ring_pos(head: int, age: int, n: int) -> int {
    if head + age < n {
        head + age
    } else {
        head + age - n
    }
}

pub struct Mailbox<const N: usize> {
    slots: [Option<Message>; N],
    head: usize,
    len: usize,
    control_len: usize,
    control_reserve: usize,
    dropped: u32,
}

impl<const N: usize> Mailbox<N> {
    /// Queued messages in delivery order.
    pub closed spec fn view(self) -> Seq<Message> {
        Seq::new(self.len as nat, |i: int| self.slots@[ring_pos(self.head as int, i, N as int)].unwrap())
    }

    pub closed spec fn spec_control_len(self) -> usize {
        self.control_len
    }

    pub closed spec fn spec_control_reserve(self) -> usize {
        self.control_reserve
    }

    pub closed spec fn spec_dropped(self) -> u32 {
        self.dropped
    }

    pub closed spec fn wf(self) -> bool {
        &&& self.len <= N
        &&& self.control_len <= self.len
        &&& self.control_reserve <= N
        &&& (N > 0 ==> self.head < N)
        &&& (N == 0 ==> self.head == 0)
        &&& forall|i: int| 0 <= i < self.len ==> (#[trigger] self.slots@[ring_pos(self.head as int, i, N as int)]) is Some
        &&& forall|i: int| 0 <= i < self.len ==> (#[trigger] self.slots@[ring_pos(self.head as int, i, N as int)]).unwrap().is_control() == (i < self.control_len)
    }

    pub fn new() -> (r: Self)
        ensures
            r.wf(),
            r@ =~= Seq::<Message>::empty(),
            r.spec_control_len() == 0,
            r.spec_control_reserve() == 0,
            r.spec_dropped() == 0,
    {
        Mailbox { slots: [None; N], head: 0, len: 0, control_len: 0, control_reserve: 0, dropped: 0 }
    }

    /// An empty mailbox that keeps `reserved` slots (at most `N`) for control messages.
    pub fn with_control_reserve(reserved: usize) -> (r: Self)
        ensures
            r.wf(),
            r@ =~= Seq::<Message>::empty(),
            r.spec_control_len() == 0,
            r.spec_control_reserve() == (if reserved > N { N } else { reserved }),
            r.spec_dropped() == 0,
    {
        Mailbox {
            slots: [None; N],
            head: 0,
            len: 0,
            control_len: 0,
            control_reserve: if reserved > N { N } else { reserved },
            dropped: 0,
        }
    }

    fn is_control(message: Message) -> (r: bool)
        ensures
            r == message.is_control(),
    {
        match message.kind {
            MessageKind::Recovery | MessageKind::Shutdown => true,
            _ => false,
        }
    }

    fn slot(&self, age: usize) -> (r: usize)
        requires
            N > 0,
            self.head < N,
            age < N,
        ensures
            r == ring_pos(self.head as int, age as int, N as int),
            r < N,
    {
        if age < N - self.head {
            self.head + age
        } else {
            age - (N - self.head)
        }
    }

    proof fn lemma_pos_distinct(self, a: int, b: int)
        requires
            N > 0,
            self.head < N,
            0 <= a < N,
            0 <= b < N,
            a != b,
        ensures
            ring_pos(self.head as int, a, N as int) != ring_pos(self.head as int, b, N as int),
            0 <= ring_pos(self.head as int, a, N as int) < N,
    {
    }

    /// The push is refused when the queue is full, or when an ordinary message
    /// would eat into the control reserve.
    pub open spec fn refuses(self, message: Message) -> bool {
        self@.len() == N || (!message.is_control() && self@.len() >= N - self.spec_control_reserve())
    }

    /// Queue a message: control messages go after earlier control messages and
    /// ahead of every ordinary one; a refused push only counts a drop.
    pub fn push(&mut self, message: Message) -> (r: Result<(), MailboxError>)
        requires
            old(self).wf(),
        ensures
            final(self).wf(),
            final(self).spec_control_reserve() == old(self).spec_control_reserve(),
            old(self).refuses(message) ==> {
                &&& r == Err::<(), MailboxError>(MailboxError::Full)
                &&& final(self)@ == old(self)@
                &&& final(self).spec_control_len() == old(self).spec_control_len()
                &&& final(self).spec_dropped() == old(self).spec_dropped().saturating_add(1)
            },
            !old(self).refuses(message) ==> {
                &&& r is Ok
                &&& final(self).spec_dropped() == old(self).spec_dropped()
                &&& (message.is_control() ==> final(self)@ == old(self)@.insert(old(self).spec_control_len() as int, message)
                    && final(self).spec_control_len() == old(self).spec_control_len() + 1)
                &&& (!message.is_control() ==> final(self)@ == old(self)@.push(message)
                    && final(self).spec_control_len() == old(self).spec_control_len())
            },
    {
        let control = Self::is_control(message);
        if self.len == N || (!control && self.len >= N - self.control_reserve) {
            self.dropped = self.dropped.saturating_add(1);
            proof {
                assert(self@ =~= old(self)@);
            }
            return Err(MailboxError::Full);
        }
        let ghost v0 = self@;
        if control {
            let mut age = self.len;
            while age > self.control_len
                invariant
                    N > 0,
                    self.head < N,
                    self.head == old(self).head,
                    self.len == old(self).len,
                    self.len < N,
                    self.control_len == old(self).control_len,
                    self.control_reserve == old(self).control_reserve,
                    self.dropped == old(self).dropped,
                    self.control_len <= age <= self.len,
                    forall|i: int| 0 <= i < self.control_len ==> #[trigger] self.slots@[ring_pos(self.head as int, i, N as int)] == Some(v0[i]),
                    forall|i: int| self.control_len <= i < age ==> #[trigger] self.slots@[ring_pos(self.head as int, i, N as int)] == Some(v0[i]),
                    forall|i: int| age < i <= self.len ==> #[trigger] self.slots@[ring_pos(self.head as int, i, N as int)] == Some(v0[i - 1]),
                    v0.len() == self.len,
                decreases age,
            {
                let src = self.slot(age - 1);
                let dst = self.slot(age);
                proof {
                    assert forall|i: int| 0 <= i <= self.len && i != age - 1 implies #[trigger] ring_pos(self.head as int, i, N as int) != src by {
                        self.lemma_pos_distinct(i, age - 1);
                    }
                    assert forall|i: int| 0 <= i <= self.len && i != age implies #[trigger] ring_pos(self.head as int, i, N as int) != dst by {
                        self.lemma_pos_distinct(i, age as int);
                    }
                }
                let moved = self.slots[src];
                self.slots[dst] = moved;
                self.slots[src] = None;
                age -= 1;
            }
            let idx = self.slot(self.control_len);
            proof {
                assert forall|i: int| 0 <= i <= self.len && i != self.control_len implies #[trigger] ring_pos(self.head as int, i, N as int) != idx by {
                    self.lemma_pos_distinct(i, self.control_len as int);
                }
            }
            self.slots[idx] = Some(message);
            self.control_len += 1;
            self.len += 1;
            proof {
                assert forall|i: int| 0 <= i < self.len implies #[trigger] self.slots@[ring_pos(self.head as int, i, N as int)] == Some(v0.insert(old(self).control_len as int, message)[i]) by {}
                assert(self@ =~= v0.insert(old(self).control_len as int, message));
                assert forall|i: int| 0 <= i < self.len implies (#[trigger] self.slots@[ring_pos(self.head as int, i, N as int)]).unwrap().is_control() == (i < self.control_len) by {
                    if i < old(self).control_len {
                        assert(old(self).slots@[ring_pos(old(self).head as int, i, N as int)] is Some);
                    } else if i > old(self).control_len {
                        assert(old(self).slots@[ring_pos(old(self).head as int, i - 1, N as int)] is Some);
                    }
                }
            }
        } else {
            let idx = self.slot(self.len);
            proof {
                assert forall|i: int| 0 <= i < self.len implies #[trigger] ring_pos(self.head as int, i, N as int) != idx by {
                    self.lemma_pos_distinct(i, self.len as int);
                }
            }
            self.slots[idx] = Some(message);
            self.len += 1;
            proof {
                assert forall|i: int| 0 <= i < self.len implies #[trigger] self.slots@[ring_pos(self.head as int, i, N as int)] == Some(v0.push(message)[i]) by {
                    if i < self.len - 1 {
                        assert(old(self).slots@[ring_pos(old(self).head as int, i, N as int)] is Some);
                    }
                }
                assert(self@ =~= v0.push(message));
                assert forall|i: int| 0 <= i < self.len implies (#[trigger] self.slots@[ring_pos(self.head as int, i, N as int)]).unwrap().is_control() == (i < self.control_len) by {
                    if i < old(self).len {
                        assert(old(self).slots@[ring_pos(old(self).head as int, i, N as int)] is Some);
                    }
                }
            }
        }
        Ok(())
    }

    /// Take the next message in delivery order.
    pub fn pop(&mut self) -> (r: Option<Message>)
        requires
            old(self).wf(),
        ensures
            final(self).wf(),
            final(self).spec_control_reserve() == old(self).spec_control_reserve(),
            final(self).spec_dropped() == old(self).spec_dropped(),
            old(self)@.len() == 0 ==> r is None && final(self)@ == old(self)@,
            old(self)@.len() > 0 ==> r == Some(old(self)@[0]) && final(self)@ == old(self)@.skip(1),
            final(self).spec_control_len() == (if old(self).spec_control_len() > 0 {
                old(self).spec_control_len() - 1
            } else {
                0
            }),
    {
        if self.len == 0 {
            return None;
        }
        let head = self.head;
        let message = self.slots[head];
        self.slots[head] = None;
        if self.control_len > 0 {
            self.control_len -= 1;
        }
        self.head = if self.head + 1 == N { 0 } else { self.head + 1 };
        self.len -= 1;
        proof {
            assert(ring_pos(old(self).head as int, 0, N as int) == head);
            assert forall|i: int| 0 <= i < self.len implies #[trigger] self.slots@[ring_pos(self.head as int, i, N as int)] == old(self).slots@[ring_pos(old(self).head as int, i + 1, N as int)] by {
                assert(ring_pos(self.head as int, i, N as int) == ring_pos(old(self).head as int, i + 1, N as int));
                old(self).lemma_pos_distinct(0, i + 1);
            }
            assert(self@ =~= old(self)@.skip(1));
            assert forall|i: int| 0 <= i < self.len implies (#[trigger] self.slots@[ring_pos(self.head as int, i, N as int)]).unwrap().is_control() == (i < self.control_len) by {
                assert(old(self).slots@[ring_pos(old(self).head as int, i + 1, N as int)] is Some);
            }
        }
        message
    }

    /// Take the first message addressed to `to`, preserving the order of the rest.
    pub fn pop_for(&mut self, to: ModuleId) -> (r: Option<Message>)
        requires
            old(self).wf(),
        ensures
            final(self).wf(),
            final(self).spec_control_reserve() == old(self).spec_control_reserve(),
            final(self).spec_dropped() == old(self).spec_dropped(),
            ({
                let k = first_to(old(self)@, to);
                &&& (k == old(self)@.len() ==> r is None && final(self)@ == old(self)@)
                &&& (k < old(self)@.len() ==> r == Some(old(self)@[k]) && final(self)@ == remove_at(old(self)@, k))
            }),
    {
        self.pop_for_with_work(to).0
    }

    proof fn lemma_first_to(s: Seq<Message>, to: ModuleId, k: int)
        requires
            0 <= k <= s.len(),
            forall|j: int| 0 <= j < k ==> s[j].to != to,
            k == s.len() || s[k].to == to,
        ensures
            first_to(s, to) == k,
        decreases k,
    {
        if s.len() > 0 && k > 0 {
            Self::lemma_first_to(s.skip(1), to, k - 1);
        }
    }

    /// [`pop_for`](Self::pop_for) that also reports the entries it inspected
    /// and the entries it shifted to close the gap.
    pub fn pop_for_with_work(&mut self, to: ModuleId) -> (r: (Option<Message>, MailboxWork))
        requires
            old(self).wf(),
        ensures
            final(self).wf(),
            final(self).spec_control_reserve() == old(self).spec_control_reserve(),
            final(self).spec_dropped() == old(self).spec_dropped(),
            ({
                let k = first_to(old(self)@, to);
                let n = old(self)@.len();
                &&& (k == n ==> r.0 is None && final(self)@ == old(self)@
                    && r.1 == (MailboxWork { inspected: n as usize, shifted: 0 }))
                &&& (k < n ==> r.0 == Some(old(self)@[k]) && final(self)@ == remove_at(old(self)@, k)
                    && r.1 == (MailboxWork { inspected: (k + 1) as usize, shifted: (n - k - 1) as usize }))
            }),
    {
        let mut work = MailboxWork { inspected: 0, shifted: 0 };
        let mut age: usize = 0;
        while age < self.len
            invariant
                self.wf(),
                *self == *old(self),
                age <= self.len,
                work.inspected == age,
                work.shifted == 0,
                forall|j: int| 0 <= j < age ==> self@[j].to != to,
            decreases self.len - age,
        {
            work.inspected += 1;
            let idx = self.slot(age);
            let message = self.slots[idx].unwrap();
            assert(message == self@[age as int]);
            if same_module(message.to, to) {
                proof {
                    Self::lemma_first_to(self@, to, age as int);
                }
                work.shifted = self.compact_from(age);
                return (Some(message), work);
            }
            age += 1;
        }
        proof {
            Self::lemma_first_to(self@, to, self.len as int);
        }
        (None, work)
    }

    /// Remove every message sent by or addressed to `module`; returns the count.
    pub fn remove_for(&mut self, module: ModuleId) -> (r: usize)
        requires
            old(self).wf(),
        ensures
            final(self).wf(),
            final(self)@ == without(old(self)@, module),
            r == old(self)@.len() - without(old(self)@, module).len(),
            final(self).spec_control_reserve() == old(self).spec_control_reserve(),
            final(self).spec_dropped() == old(self).spec_dropped(),
    {
        let mut removed: usize = 0;
        let mut age: usize = 0;
        let ghost v0 = self@;
        while age < self.len
            invariant
                self.wf(),
                self.control_reserve == old(self).control_reserve,
                self.dropped == old(self).dropped,
                age <= self.len,
                v0.len() <= N,
                removed + self.len == v0.len(),
                self@.subrange(0, age as int) == without(v0.subrange(0, age + removed), module),
                self@.subrange(age as int, self@.len() as int) == v0.subrange(age + removed, v0.len() as int),
            decreases self.len - age,
        {
            let idx = self.slot(age);
            let message = self.slots[idx].unwrap();
            let ghost k = age + removed;
            proof {
                assert(message == self@[age as int]);
                assert(self@.subrange(age as int, self@.len() as int)[0] == v0[k]);
                assert(v0.subrange(0, k + 1).drop_last() =~= v0.subrange(0, k));
            }
            if same_module(message.from, module) || same_module(message.to, module) {
                let ghost before = self@;
                self.compact_from(age);
                removed += 1;
                proof {
                    assert(self@.subrange(0, age as int) =~= before.subrange(0, age as int));
                    assert(self@.subrange(age as int, self@.len() as int) =~= before.subrange(age + 1, before.len() as int));
                    assert forall|j: int| 0 <= j < before.len() - age - 1 implies #[trigger] before.subrange(age + 1, before.len() as int)[j] == v0.subrange(k + 1, v0.len() as int)[j] by {
                        assert(before.subrange(age as int, before.len() as int)[j + 1] == v0.subrange(k, v0.len() as int)[j + 1]);
                    }
                    assert(before.subrange(age + 1, before.len() as int) =~= v0.subrange(k + 1, v0.len() as int));
                }
            } else {
                proof {
                    assert(self@.subrange(0, age + 1) =~= self@.subrange(0, age as int).push(message));
                    assert(self@.subrange(age + 1, self@.len() as int) =~= self@.subrange(age as int, self@.len() as int).skip(1));
                }
                age += 1;
            }
        }
        proof {
            assert(self@.subrange(0, self.len as int) =~= self@);
            assert(v0.subrange(0, v0.len() as int) =~= v0);
        }
        removed
    }

    /// Remove every message touching `module`, handing each removed message to
    /// `on_removed` in queue order so the caller can reconcile per-message accounting.
    pub fn remove_for_with<F: FnMut(Message)>(&mut self, module: ModuleId, on_removed: F) -> (r: usize)
        requires
            old(self).wf(),
            forall|f: F, m: Message| #[trigger] f.requires((m,)),
        ensures
            final(self).wf(),
            final(self)@ == without(old(self)@, module),
            r == old(self)@.len() - without(old(self)@, module).len(),
            final(self).spec_control_reserve() == old(self).spec_control_reserve(),
            final(self).spec_dropped() == old(self).spec_dropped(),
    {
        let mut on_removed = on_removed;
        let mut removed: usize = 0;
        let mut age: usize = 0;
        let ghost v0 = self@;
        while age < self.len
            invariant
                forall|f: F, m: Message| #[trigger] f.requires((m,)),
                self.wf(),
                self.control_reserve == old(self).control_reserve,
                self.dropped == old(self).dropped,
                age <= self.len,
                v0.len() <= N,
                removed + self.len == v0.len(),
                self@.subrange(0, age as int) == without(v0.subrange(0, age + removed), module),
                self@.subrange(age as int, self@.len() as int) == v0.subrange(age + removed, v0.len() as int),
            decreases self.len - age,
        {
            let idx = self.slot(age);
            let message = self.slots[idx].unwrap();
            let ghost k = age + removed;
            proof {
                assert(message == self@[age as int]);
                assert(self@.subrange(age as int, self@.len() as int)[0] == v0[k]);
                assert(v0.subrange(0, k + 1).drop_last() =~= v0.subrange(0, k));
            }
            if same_module(message.from, module) || same_module(message.to, module) {
                on_removed(message);
                let ghost before = self@;
                self.compact_from(age);
                removed += 1;
                proof {
                    assert(self@.subrange(0, age as int) =~= before.subrange(0, age as int));
                    assert(self@.subrange(age as int, self@.len() as int) =~= before.subrange(age + 1, before.len() as int));
                    assert forall|j: int| 0 <= j < before.len() - age - 1 implies #[trigger] before.subrange(age + 1, before.len() as int)[j] == v0.subrange(k + 1, v0.len() as int)[j] by {
                        assert(before.subrange(age as int, before.len() as int)[j + 1] == v0.subrange(k, v0.len() as int)[j + 1]);
                    }
                    assert(before.subrange(age + 1, before.len() as int) =~= v0.subrange(k + 1, v0.len() as int));
                }
            } else {
                proof {
                    assert(self@.subrange(0, age + 1) =~= self@.subrange(0, age as int).push(message));
                    assert(self@.subrange(age + 1, self@.len() as int) =~= self@.subrange(age as int, self@.len() as int).skip(1));
                }
                age += 1;
            }
        }
        proof {
            assert(self@.subrange(0, self.len as int) =~= self@);
            assert(v0.subrange(0, v0.len() as int) =~= v0);
        }
        removed
    }

    pub fn len(&self) -> (r: usize)
        requires
            self.wf(),
        ensures
            r == self@.len(),
    {
        self.len
    }

    pub fn capacity(&self) -> (r: usize)
        ensures
            r == N,
    {
        N
    }

    pub fn is_empty(&self) -> (r: bool)
        requires
            self.wf(),
        ensures
            r == (self@.len() == 0),
    {
        self.len == 0
    }

    pub fn dropped(&self) -> (r: u32)
        ensures
            r == self.spec_dropped(),
    {
        self.dropped
    }

    pub fn control_reserve(&self) -> (r: usize)
        ensures
            r == self.spec_control_reserve(),
    {
        self.control_reserve
    }

    pub fn control_len(&self) -> (r: usize)
        ensures
            r == self.spec_control_len(),
    {
        self.control_len
    }

    /// Remove the message at queue position `age`, shifting later messages
    /// forward; returns how many were shifted.
    fn compact_from(&mut self, age: usize) -> (r: usize)
        requires
            old(self).wf(),
            age < old(self)@.len(),
        ensures
            final(self).wf(),
            final(self)@ == remove_at(old(self)@, age as int),
            r == old(self)@.len() - age - 1,
            final(self).spec_control_reserve() == old(self).spec_control_reserve(),
            final(self).spec_dropped() == old(self).spec_dropped(),
            final(self).spec_control_len() == (if (age as int) < old(self).spec_control_len() {
                old(self).spec_control_len() - 1
            } else {
                old(self).spec_control_len() as int
            }),
    {
        if age < self.control_len {
            self.control_len -= 1;
        }
        let shifted = self.len - age - 1;
        let ghost v0 = old(self)@;
        let mut shift = age;
        let ghost cl = self.control_len;
        while shift < self.len - 1
            invariant
                N > 0,
                self.head < N,
                self.head == old(self).head,
                self.len == old(self).len,
                self.control_len == cl,
                self.control_reserve == old(self).control_reserve,
                self.dropped == old(self).dropped,
                self.len <= N,
                age <= shift <= self.len - 1,
                v0.len() == self.len,
                forall|i: int| 0 <= i < age ==> #[trigger] self.slots@[ring_pos(self.head as int, i, N as int)] == Some(v0[i]),
                forall|i: int| age <= i < shift ==> #[trigger] self.slots@[ring_pos(self.head as int, i, N as int)] == Some(v0[i + 1]),
                forall|i: int| shift < i < self.len ==> #[trigger] self.slots@[ring_pos(self.head as int, i, N as int)] == Some(v0[i]),
            decreases self.len - shift,
        {
            let dst = self.slot(shift);
            let src = self.slot(shift + 1);
            proof {
                assert forall|i: int| 0 <= i < self.len && i != shift implies #[trigger] ring_pos(self.head as int, i, N as int) != dst by {
                    self.lemma_pos_distinct(i, shift as int);
                }
            }
            let moved = self.slots[src];
            self.slots[dst] = moved;
            self.slots[src] = None;
            proof {
                assert forall|i: int| shift + 1 < i < self.len implies #[trigger] ring_pos(self.head as int, i, N as int) != src by {
                    self.lemma_pos_distinct(i, shift + 1);
                }
            }
            shift += 1;
        }
        let tail = self.slot(self.len - 1);
        self.slots[tail] = None;
        self.len -= 1;
        proof {
            assert forall|i: int| 0 <= i < self.len implies #[trigger] self.slots@[ring_pos(self.head as int, i, N as int)] == Some(remove_at(v0, age as int)[i]) by {
                old(self).lemma_pos_distinct(i, self.len as int);
            }
            assert(self@ =~= remove_at(v0, age as int));
            assert forall|i: int| 0 <= i < self.len implies (#[trigger] self.slots@[ring_pos(self.head as int, i, N as int)]).unwrap().is_control() == (i < self.control_len) by {
                if i < age {
                    assert(old(self).slots@[ring_pos(old(self).head as int, i, N as int)] is Some);
                } else {
                    assert(old(self).slots@[ring_pos(old(self).head as int, i + 1, N as int)] is Some);
                }
            }
        }
        shifted
    }
}

impl<const N: usize> Default for Mailbox<N> {
    fn default() -> (r: Self)
        ensures
            r.wf(),
            r@ =~= Seq::<Message>::empty(),
            r.spec_control_len() == 0,
            r.spec_control_reserve() == 0,
            r.spec_dropped() == 0,
    {
        Self::new()
    }
}

} // verus!
