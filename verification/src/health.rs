//! Lightweight module health tracking and recovery decisions.

use vstd::prelude::*;

use crate::error::{fault_of, Action, HealthFault, KernelError};

verus! {

#[derive(Clone, Copy, Debug, PartialEq, Eq, Structural)]
pub enum ModuleId {
    Kernel,
    Hal,
    Bus,
    Radio,
    Sensor,
    Actuator,
    Stream,
    Crypto,
    Ai,
    App(u8),
}

/// Exact equality of two module identities.
pub fn same_module(a: ModuleId, b: ModuleId) -> (r: bool)
    ensures
        r == (a == b),
{
    a == b
}

#[derive(Clone, Copy, Debug, PartialEq, Eq, Structural)]
pub struct HealthCounters {
    pub total_errors: u32,
    pub consecutive_errors: u16,
    pub last_error: Option<KernelError>,
    pub last_fault: Option<HealthFault>,
    pub last_action: Action,
    pub last_seen_us: u64,
    pub last_recovery_us: u64,
}

pub open spec fn zeroed_counters() -> HealthCounters {
    HealthCounters {
        total_errors: 0,
        consecutive_errors: 0,
        last_error: None,
        last_fault: None,
        last_action: Action::Ignore,
        last_seen_us: 0,
        last_recovery_us: 0,
    }
}

impl HealthCounters {
    pub fn zeroed() -> (r: Self)
        ensures
            r == zeroed_counters(),
    {
        Self {
            total_errors: 0,
            consecutive_errors: 0,
            last_error: None,
            last_fault: None,
            last_action: Action::Ignore,
            last_seen_us: 0,
            last_recovery_us: 0,
        }
    }
}

#[derive(Clone, Copy, Debug, PartialEq, Eq, Structural)]
pub struct HealthSlot {
    pub module: ModuleId,
    pub counters: HealthCounters,
}

#[derive(Clone, Copy, Debug, PartialEq, Eq, Structural)]
pub struct FaultThresholds {
    pub notify_after: u16,
    pub reboot_after: u16,
}

#[derive(Clone, Copy, Debug, PartialEq, Eq, Structural)]
pub enum FaultThresholdError {
    NotifyZero,
    RebootBeforeNotify,
}

impl FaultThresholds {
    pub fn validate(self) -> (r: Result<(), FaultThresholdError>)
        ensures
            self.notify_after == 0 ==> r == Err::<(), FaultThresholdError>(
                FaultThresholdError::NotifyZero,
            ),
            self.notify_after != 0 && self.reboot_after < self.notify_after ==> r == Err::<
                (),
                FaultThresholdError,
            >(FaultThresholdError::RebootBeforeNotify),
            r is Ok <==> (self.notify_after != 0 && self.reboot_after >= self.notify_after),
    {
        if self.notify_after == 0 {
            Err(FaultThresholdError::NotifyZero)
        } else if self.reboot_after < self.notify_after {
            Err(FaultThresholdError::RebootBeforeNotify)
        } else {
            Ok(())
        }
    }
}

impl Default for FaultThresholds {
    /// Notify after three consecutive errors, reboot after eight.
    fn default() -> (r: Self)
        ensures
            r == (FaultThresholds { notify_after: 3, reboot_after: 8 }),
    {
        FaultThresholds { notify_after: 3, reboot_after: 8 }
    }
}

/// Stateful, module-aware fault policy. Implementations may retain backoff/history and
/// inspect the complete source context plus updated counters.
pub trait FaultPolicy {
    fn decide(&mut self, module: ModuleId, fault: &HealthFault, counters: &HealthCounters) -> Action;
}

/// The stock error policy: it defers every decision to the escalation
/// thresholds and ignores an isolated error.
pub fn default_action(error: &KernelError) -> (r: Action)
    ensures
        r == Action::Ignore,
{
    Action::Ignore
}

/// Counters after one more fault, before the action is chosen.
pub open spec fn bumped(base: HealthCounters, fault: HealthFault, now_us: u64) -> HealthCounters {
    HealthCounters {
        total_errors: base.total_errors.saturating_add(1),
        consecutive_errors: base.consecutive_errors.saturating_add(1),
        last_error: Some(fault.error),
        last_fault: Some(fault),
        last_seen_us: now_us,
        ..base
    }
}

/// The threshold escalation for a consecutive-error count, or `None` when the
/// policy decides.
pub open spec fn escalation(consecutive: u16, thresholds: FaultThresholds) -> Option<Action> {
    if consecutive >= thresholds.reboot_after {
        Some(Action::RebootModule)
    } else if consecutive >= thresholds.notify_after {
        Some(Action::NotifyUserTask)
    } else {
        None
    }
}

/// Final counters once `action` was chosen for the bumped counters.
pub open spec fn settled(bumped: HealthCounters, action: Action, thresholds: FaultThresholds, now_us: u64) -> HealthCounters {
    HealthCounters {
        last_action: action,
        last_recovery_us: if bumped.consecutive_errors >= thresholds.reboot_after {
            now_us
        } else {
            bumped.last_recovery_us
        },
        ..bumped
    }
}

pub struct HealthMonitor<const N: usize> {
    modules: [Option<ModuleId>; N],
    counters: [HealthCounters; N],
}

impl<const N: usize> HealthMonitor<N> {
    /// Slot `i` is registered to module `m`.
    pub closed spec fn holds(self, m: ModuleId, i: int) -> bool {
        0 <= i < N && self.modules@[i] == Some(m)
    }

    /// Every slot is registered to some module.
    pub closed spec fn full(self) -> bool {
        forall|i: int| 0 <= i < N ==> self.modules@[i] is Some
    }

    pub closed spec fn wf(self) -> bool {
        forall|i: int, j: int, m: ModuleId|
            #![trigger self.holds(m, i), self.holds(m, j)]
            self.holds(m, i) && self.holds(m, j) ==> i == j
    }

    /// The counters of every registered module.
    pub closed spec fn view(self) -> Map<ModuleId, HealthCounters> {
        Map::new(
            |m: ModuleId| exists|i: int| self.holds(m, i),
            |m: ModuleId| self.counters@[choose|i: int| self.holds(m, i)],
        )
    }

    /// Counters a fault or heartbeat for `m` starts from.
    pub open spec fn base_of(self, m: ModuleId) -> HealthCounters {
        if self.view().contains_key(m) {
            self.view()[m]
        } else {
            zeroed_counters()
        }
    }

    /// A record for `m` finds room: `m` is registered or a slot is free.
    pub open spec fn has_room_for(self, m: ModuleId) -> bool {
        self.view().contains_key(m) || !self.full()
    }

    pub fn new() -> (r: Self)
        ensures
            r.wf(),
            r.view() =~= Map::<ModuleId, HealthCounters>::empty(),
            N > 0 ==> !r.full(),
    {
        let r = Self { modules: [None; N], counters: [HealthCounters::zeroed(); N] };
        assert forall|m: ModuleId| !#[trigger] r.view().contains_key(m) by {
            if exists|i: int| r.holds(m, i) {
                let i = choose|i: int| r.holds(m, i);
                assert(r.modules@[i] is None);
            }
        }
        if N > 0 {
            assert(r.modules@[0] is None);
        }
        r
    }

    proof fn lemma_lookup(self, m: ModuleId, i: int)
        requires
            self.wf(),
            self.holds(m, i),
        ensures
            self.view().contains_key(m),
            self.view()[m] == self.counters@[i],
    {
        assert(exists|j: int| self.holds(m, j));
        let j = choose|j: int| self.holds(m, j);
        assert(self.holds(m, j));
        assert(i == j);
    }

    proof fn lemma_absent(self, m: ModuleId)
        requires
            forall|i: int| 0 <= i < N ==> self.modules@[i] != Some(m),
        ensures
            !self.view().contains_key(m),
    {
        if exists|i: int| self.holds(m, i) {
            let i = choose|i: int| self.holds(m, i);
            assert(self.modules@[i] != Some(m));
        }
    }

    /// Writing counters `c` into slot `i`, registered to `m`, replaces `m`'s entry.
    proof fn lemma_write(old_s: Self, new_s: Self, m: ModuleId, i: int, c: HealthCounters)
        requires
            old_s.wf(),
            0 <= i < N,
            new_s.modules@ =~= old_s.modules@.update(i, Some(m)),
            new_s.counters@ =~= old_s.counters@.update(i, c),
            old_s.modules@[i] == Some(m) || (old_s.modules@[i] is None && !old_s.view().contains_key(m)),
        ensures
            new_s.wf(),
            new_s.view() =~= old_s.view().insert(m, c),
    {
        assert forall|a: int, b: int, k: ModuleId|
            #![trigger new_s.holds(k, a), new_s.holds(k, b)]
            new_s.holds(k, a) && new_s.holds(k, b) implies a == b by {
            if old_s.modules@[i] is Some && (a == i || b == i) {
                assert(old_s.holds(k, i));
            }
            if a != i && b != i {
                assert(old_s.holds(k, a) && old_s.holds(k, b));
            } else if a == i && b != i {
                assert(old_s.holds(k, b));
                if old_s.modules@[i] is None {
                    old_s.lemma_lookup(k, b);
                }
            } else if a != i && b == i {
                assert(old_s.holds(k, a));
                if old_s.modules@[i] is None {
                    old_s.lemma_lookup(k, a);
                }
            }
        }
        assert forall|k: ModuleId| #[trigger] new_s.view().contains_key(k) == old_s.view().insert(m, c).contains_key(k) by {
            if k == m {
                assert(new_s.holds(m, i));
            } else {
                if exists|j: int| new_s.holds(k, j) {
                    let j = choose|j: int| new_s.holds(k, j);
                    assert(old_s.holds(k, j));
                }
                if exists|j: int| old_s.holds(k, j) {
                    let j = choose|j: int| old_s.holds(k, j);
                    assert(new_s.holds(k, j));
                }
            }
        }
        assert forall|k: ModuleId| #[trigger] new_s.view().contains_key(k) implies new_s.view()[k] == old_s.view().insert(m, c)[k] by {
            if k == m {
                new_s.lemma_lookup(m, i);
            } else {
                let j = choose|j: int| new_s.holds(k, j);
                assert(new_s.holds(k, j));
                new_s.lemma_lookup(k, j);
                assert(old_s.holds(k, j));
                old_s.lemma_lookup(k, j);
            }
        }
    }

    /// Locate `module`, registering it in the first free slot when absent.
    fn find_or_insert(&mut self, module: ModuleId) -> (r: Option<usize>)
        requires
            old(self).wf(),
        ensures
            final(self).wf(),
            r is Some <==> old(self).has_room_for(module),
            match r {
                Some(i) => {
                    &&& i < N
                    &&& final(self).holds(module, i as int)
                    &&& final(self).counters@[i as int] == old(self).base_of(module)
                    &&& final(self).view() =~= old(self).view().insert(module, old(self).base_of(module))
                },
                None => {
                    &&& !old(self).has_room_for(module)
                    &&& *final(self) == *old(self)
                },
            },
    {
        let mut idx: usize = 0;
        while idx < N
            invariant
                self.wf(),
                *self == *old(self),
                idx <= N,
                forall|j: int| 0 <= j < idx ==> self.modules@[j] != Some(module),
            decreases N - idx,
        {
            match self.modules[idx] {
                Some(candidate) => {
                    if same_module(candidate, module) {
                        proof {
                            self.lemma_lookup(module, idx as int);
                            assert(self.view() =~= self.view().insert(module, self.base_of(module)));
                        }
                        return Some(idx);
                    }
                },
                None => {},
            }
            idx += 1;
        }
        proof {
            self.lemma_absent(module);
        }
        let mut free: usize = 0;
        while free < N
            invariant
                self.wf(),
                *self == *old(self),
                free <= N,
                !self.view().contains_key(module),
                forall|j: int| 0 <= j < free ==> self.modules@[j] is Some,
            decreases N - free,
        {
            if self.modules[free].is_none() {
                let ghost before = *self;
                self.modules[free] = Some(module);
                self.counters[free] = HealthCounters::zeroed();
                proof {
                    assert(self.modules@ =~= before.modules@.update(free as int, Some(module)));
                    assert(self.counters@ =~= before.counters@.update(free as int, zeroed_counters()));
                    Self::lemma_write(before, *self, module, free as int, zeroed_counters());
                }
                return Some(free);
            }
            free += 1;
        }
        None
    }

    pub fn record_ok(&mut self, module: ModuleId, now_us: u64)
        requires
            old(self).wf(),
        ensures
            final(self).wf(),
            old(self).has_room_for(module) ==> final(self).view() =~= old(self).view().insert(
                module,
                HealthCounters {
                    consecutive_errors: 0,
                    last_seen_us: now_us,
                    ..old(self).base_of(module)
                },
            ),
            !old(self).has_room_for(module) ==> *final(self) == *old(self),
    {
        let Some(i) = self.find_or_insert(module) else {
            return;
        };
        let ghost mid = *self;
        let mut c = self.counters[i];
        c.consecutive_errors = 0;
        c.last_seen_us = now_us;
        self.counters[i] = c;
        proof {
            assert(self.modules@ =~= mid.modules@.update(i as int, Some(module)));
            assert(self.counters@ =~= mid.counters@.update(i as int, c));
            Self::lemma_write(mid, *self, module, i as int, c);
        }
    }

    /// Apply one fault to slot `i` and return the threshold escalation, if any.
    fn bump(&mut self, i: usize, module: ModuleId, fault: HealthFault, now_us: u64, thresholds: FaultThresholds) -> (r: Option<Action>)
        requires
            old(self).wf(),
            i < N,
            old(self).holds(module, i as int),
        ensures
            final(self).wf(),
            final(self).holds(module, i as int),
            r == escalation(bumped(old(self).counters@[i as int], fault, now_us).consecutive_errors, thresholds),
            r is Some ==> final(self).view() =~= old(self).view().insert(
                module,
                settled(bumped(old(self).counters@[i as int], fault, now_us), r.unwrap(), thresholds, now_us),
            ),
            r is None ==> final(self).view() =~= old(self).view().insert(
                module,
                bumped(old(self).counters@[i as int], fault, now_us),
            ),
            r is None ==> final(self).counters@[i as int] == bumped(old(self).counters@[i as int], fault, now_us),
    {
        let ghost before = *self;
        let mut c = self.counters[i];
        let consecutive = c.consecutive_errors.saturating_add(1);
        c.total_errors = c.total_errors.saturating_add(1);
        c.consecutive_errors = consecutive;
        c.last_error = Some(fault.error);
        c.last_fault = Some(fault);
        c.last_seen_us = now_us;
        let escalated = if consecutive >= thresholds.reboot_after {
            c.last_recovery_us = now_us;
            Some(Action::RebootModule)
        } else if consecutive >= thresholds.notify_after {
            Some(Action::NotifyUserTask)
        } else {
            None
        };
        if let Some(action) = escalated {
            c.last_action = action;
        }
        self.counters[i] = c;
        proof {
            assert(self.modules@ =~= before.modules@.update(i as int, Some(module)));
            assert(self.counters@ =~= before.counters@.update(i as int, c));
            Self::lemma_write(before, *self, module, i as int, c);
        }
        escalated
    }

    /// Store the policy's decision as the slot's last action.
    fn settle(&mut self, i: usize, module: ModuleId, action: Action)
        requires
            old(self).wf(),
            i < N,
            old(self).holds(module, i as int),
        ensures
            final(self).wf(),
            final(self).view() =~= old(self).view().insert(
                module,
                HealthCounters { last_action: action, ..old(self).counters@[i as int] },
            ),
    {
        let ghost before = *self;
        let mut c = self.counters[i];
        c.last_action = action;
        self.counters[i] = c;
        proof {
            assert(self.modules@ =~= before.modules@.update(i as int, Some(module)));
            assert(self.counters@ =~= before.counters@.update(i as int, c));
            Self::lemma_write(before, *self, module, i as int, c);
        }
    }

    /// Record an error through a plain error-to-action policy.
    pub fn record_error<F: Fn(&KernelError) -> Action>(
        &mut self,
        module: ModuleId,
        error: KernelError,
        now_us: u64,
        thresholds: FaultThresholds,
        policy: F,
    ) -> (r: Action)
        requires
            old(self).wf(),
            forall|e: &KernelError| #[trigger] policy.requires((e,)),
        ensures
            final(self).wf(),
            old(self).has_room_for(module) ==> {
                let fault = fault_of(error);
                let b = bumped(old(self).base_of(module), fault, now_us);
                &&& (escalation(b.consecutive_errors, thresholds) matches Some(a) ==> r == a)
                &&& (escalation(b.consecutive_errors, thresholds) is None ==> policy.ensures((&error,), r))
                &&& final(self).view() =~= old(self).view().insert(module, settled(b, r, thresholds, now_us))
            },
            !old(self).has_room_for(module) ==> r == Action::NotifyUserTask && *final(self) == *old(self),
    {
        let fault = HealthFault::from_error(error);
        let Some(i) = self.find_or_insert(module) else {
            return Action::NotifyUserTask;
        };
        let ghost mid = *self;
        match self.bump(i, module, fault, now_us, thresholds) {
            Some(action) => action,
            None => {
                let action = policy(&fault.error);
                self.settle(i, module, action);
                proof {
                    assert(self.view() =~= old(self).view().insert(module, settled(bumped(old(self).base_of(module), fault, now_us), action, thresholds, now_us)));
                }
                action
            },
        }
    }

    /// Record a structured fault; the policy decides below the escalation thresholds.
    pub fn record_fault<P: FaultPolicy>(
        &mut self,
        module: ModuleId,
        fault: HealthFault,
        now_us: u64,
        thresholds: FaultThresholds,
        policy: &mut P,
    ) -> (r: Action)
        requires
            old(self).wf(),
        ensures
            final(self).wf(),
            old(self).has_room_for(module) ==> {
                let b = bumped(old(self).base_of(module), fault, now_us);
                &&& (escalation(b.consecutive_errors, thresholds) matches Some(a) ==> r == a)
                &&& final(self).view() =~= old(self).view().insert(module, settled(b, r, thresholds, now_us))
            },
            !old(self).has_room_for(module) ==> r == Action::NotifyUserTask && *final(self) == *old(self),
    {
        let Some(i) = self.find_or_insert(module) else {
            return Action::NotifyUserTask;
        };
        match self.bump(i, module, fault, now_us, thresholds) {
            Some(action) => action,
            None => {
                let counters = self.counters[i];
                let action = policy.decide(module, &fault, &counters);
                self.settle(i, module, action);
                action
            },
        }
    }

    pub fn get(&self, module: ModuleId) -> (r: Option<HealthCounters>)
        requires
            self.wf(),
        ensures
            r == (if self.view().contains_key(module) {
                Some(self.view()[module])
            } else {
                None
            }),
    {
        let mut idx: usize = 0;
        while idx < N
            invariant
                self.wf(),
                idx <= N,
                forall|j: int| 0 <= j < idx ==> self.modules@[j] != Some(module),
            decreases N - idx,
        {
            match self.modules[idx] {
                Some(candidate) => {
                    if same_module(candidate, module) {
                        proof {
                            self.lemma_lookup(module, idx as int);
                        }
                        return Some(self.counters[idx]);
                    }
                },
                None => {},
            }
            idx += 1;
        }
        proof {
            self.lemma_absent(module);
        }
        None
    }
}

} // verus!
