//! Cooperative executor: task metadata, statistics, and the bounded task table.

use vstd::prelude::*;

use crate::health::ModuleId;
use crate::manifest::Criticality;
use crate::bitset::{
    count_bits_from, has_slot, lemma_mask_len, lemma_mask_of, mask_count, mask_of, mask_strays, mask_total,
    masks_equal, saturate, set_slot, stray_count,
};
use crate::scan::{first_some, lemma_first_some_hit, lemma_first_some_none_all};

verus! {

/// Deterministic ordering among ready tasks of the same safety criticality.
#[derive(Clone, Copy, Debug, Default, PartialEq, Eq, Structural)]
pub enum IntraClassOrder {
    /// Oldest ready transition first.
    #[default]
    Fifo,
    /// Shorter declared relative deadline first; registration order breaks ties.
    ShorterDeadlineFirst,
    /// Shorter declared period first; registration order breaks ties.
    ShorterPeriodFirst,
    /// Stable task-table registration order.
    RegistrationOrder,
}

/// A run-to-completion kernel task: each poll does one bounded step of work
/// at `now_us` and reports whether it finished a release.
pub trait Task {
    fn poll(&mut self, now_us: u64) -> Poll;
}

#[derive(Clone, Copy, Debug, PartialEq, Eq, Structural)]
pub enum Poll {
    Pending,
    Ready,
}

#[derive(Clone, Copy, Debug, PartialEq, Eq, Structural)]
pub struct TaskMeta {
    pub module: ModuleId,
    pub criticality: Criticality,
    /// Offset of the first release from the executor epoch.
    pub phase_us: u32,
    pub period_us: u32,
    /// Relative deadline from each release.
    pub deadline_us: u32,
    pub budget_us: u32,
    /// Measured bound on lower-priority non-preemptible delay.
    pub blocking_us: u32,
}

impl TaskMeta {
    pub fn new(module: ModuleId, criticality: Criticality, period_us: u32, budget_us: u32) -> (r: Self)
        ensures
            r == (TaskMeta {
                module,
                criticality,
                phase_us: 0,
                period_us,
                deadline_us: period_us,
                budget_us,
                blocking_us: 0,
            }),
    {
        TaskMeta { module, criticality, phase_us: 0, period_us, deadline_us: period_us, budget_us, blocking_us: 0 }
    }

    pub fn with_phase_us(self, phase_us: u32) -> (r: Self)
        ensures
            r == (TaskMeta { phase_us, ..self }),
    {
        TaskMeta { phase_us, ..self }
    }

    pub fn with_deadline_us(self, deadline_us: u32) -> (r: Self)
        ensures
            r == (TaskMeta { deadline_us, ..self }),
    {
        TaskMeta { deadline_us, ..self }
    }

    pub fn with_blocking_us(self, blocking_us: u32) -> (r: Self)
        ensures
            r == (TaskMeta { blocking_us, ..self }),
    {
        TaskMeta { blocking_us, ..self }
    }
}

#[derive(Clone, Copy, Debug, PartialEq, Eq, Structural)]
pub struct TaskStats {
    pub polls: u32,
    pub ready: u32,
    pub overruns: u32,
    pub missed_releases: u32,
    pub last_poll_us: u64,
    pub next_due_us: u64,
    pub max_observed_us: u32,
    /// Width of the release group whose release last made the task ready.
    pub release_group_width: u8,
}

pub open spec fn zero_stats() -> TaskStats {
    TaskStats {
        polls: 0,
        ready: 0,
        overruns: 0,
        missed_releases: 0,
        last_poll_us: 0,
        next_due_us: 0,
        max_observed_us: 0,
        release_group_width: 0,
    }
}

impl TaskStats {
    pub fn zeroed() -> (r: Self)
        ensures
            r == zero_stats(),
    {
        TaskStats {
            polls: 0,
            ready: 0,
            overruns: 0,
            missed_releases: 0,
            last_poll_us: 0,
            next_due_us: 0,
            max_observed_us: 0,
            release_group_width: 0,
        }
    }
}

#[derive(Clone, Copy, Debug, PartialEq, Eq, Structural)]
pub struct TaskSlot {
    pub meta: TaskMeta,
    pub stats: TaskStats,
}

#[derive(Clone, Copy, Debug, PartialEq, Eq, Structural)]
pub enum TaskTableError {
    Full,
    /// The dispatcher has one ready bit per slot.
    ReadyMaskCapacity,
    DuplicateTask(ModuleId),
    InvalidPeriod(ModuleId),
    InvalidPhase(ModuleId),
    InvalidDeadline(ModuleId),
    InvalidBudget(ModuleId),
    InvalidBlocking(ModuleId),
    UnknownTask(ModuleId),
}


/// Longest period (µs) whose release arithmetic stays wrap-safe on a 32-bit
/// microsecond clock.
pub const MAX_WRAP_SAFE_INTERVAL_US: u32 = 0x7fff_ffff;

/// Sentinel for "no task" in 8-bit task links; it bounds a table at 255 slots.
pub const READY_NONE: u8 = 255;

/// Earliest compare deadline and the task-slot bits released by it.
#[derive(Clone, Copy, Debug, PartialEq, Eq, Structural)]
pub struct DeadlineReleaseArm {
    pub deadline_us: u64,
    pub ready_mask: u32,
}

/// Exact earliest release group for a multiword task table.
#[derive(Clone, Copy, Debug, PartialEq, Eq)]
pub struct DeadlineReleaseArmWords<const WORDS: usize> {
    pub deadline_us: u64,
    pub ready_words: [u32; WORDS],
}

/// Result of handing ISR-marked task bits to the ready queues.
#[derive(Clone, Copy, Debug, Default, PartialEq, Eq, Structural)]
pub struct IsrReleaseReceipt {
    pub accepted: u32,
    pub rejected: u32,
}

#[derive(Clone, Copy, Debug, PartialEq, Eq, Structural)]
pub struct DueSelection {
    pub index: usize,
    pub release_us: u64,
}

/// Scheduler state carried with a task when its owning core changes. Only a
/// detach produces one.
#[derive(Clone, Copy, Debug, PartialEq, Eq, Structural)]
pub struct TaskTransferState {
    slot: TaskSlot,
    ready: bool,
    periodic_ready: bool,
    release_linked: bool,
}

impl TaskTransferState {
    pub closed spec fn spec_slot(self) -> TaskSlot {
        self.slot
    }

    pub closed spec fn spec_ready(self) -> bool {
        self.ready
    }

    pub closed spec fn spec_periodic_ready(self) -> bool {
        self.periodic_ready
    }

    pub closed spec fn spec_release_linked(self) -> bool {
        self.release_linked
    }

    /// The carried task has a positive period, as every registered task does.
    pub closed spec fn valid(self) -> bool {
        self.slot.meta.period_us > 0
    }

    /// The carried task slot.
    pub fn slot(&self) -> (r: TaskSlot)
        ensures
            r == self.spec_slot(),
    {
        self.slot
    }
}

// ------------------------------------------------------------- orderings

/// Release order: earlier next release, then higher criticality, then
/// shorter period, then lower slot. A missing left slot never precedes; a
/// missing right slot is always preceded.
pub open spec fn release_precedes(slots: Seq<Option<TaskSlot>>, l: int, r: int) -> bool {
    match slots[l] {
        None => false,
        Some(a) => match slots[r] {
            None => true,
            Some(b) => {
                ||| a.stats.next_due_us < b.stats.next_due_us
                ||| (a.stats.next_due_us == b.stats.next_due_us && (a.meta.criticality.level() > b.meta.criticality.level()
                    || (a.meta.criticality.level() == b.meta.criticality.level() && (a.meta.period_us < b.meta.period_us
                        || (a.meta.period_us == b.meta.period_us && l < r)))))
            },
        },
    }
}

/// Tie-break among ready tasks of one criticality under the configured policy.
pub open spec fn intra_precedes(order: IntraClassOrder, slots: Seq<Option<TaskSlot>>, l: int, r: int) -> bool {
    match slots[l] {
        None => false,
        Some(a) => match slots[r] {
            None => true,
            Some(b) => match order {
                IntraClassOrder::Fifo => false,
                IntraClassOrder::ShorterDeadlineFirst => a.meta.deadline_us < b.meta.deadline_us
                    || (a.meta.deadline_us == b.meta.deadline_us && l < r),
                IntraClassOrder::ShorterPeriodFirst => a.meta.period_us < b.meta.period_us
                    || (a.meta.period_us == b.meta.period_us && l < r),
                IntraClassOrder::RegistrationOrder => l < r,
            },
        },
    }
}

pub open spec fn level_at(slots: Seq<Option<TaskSlot>>, i: int) -> int {
    match slots[i] {
        Some(s) => s.meta.criticality.level() as int,
        None => 0,
    }
}

pub open spec fn release_slots(slots: Seq<Option<TaskSlot>>, q: Seq<u8>, t: int) -> spec_fn(int) -> Option<int> {
    |p: int| if release_precedes(slots, t, q[p] as int) { Some(p) } else { None }
}

/// Where a task joins the release queue: before the first task it precedes.
pub open spec fn release_insert_pos(slots: Seq<Option<TaskSlot>>, q: Seq<u8>, t: int) -> int {
    match first_some(release_slots(slots, q, t), q.len() as int) {
        Some(p) => p,
        None => q.len() as int,
    }
}

pub open spec fn release_insert(slots: Seq<Option<TaskSlot>>, q: Seq<u8>, t: int) -> Seq<u8> {
    q.insert(release_insert_pos(slots, q, t), t as u8)
}

pub open spec fn ready_slots(order: IntraClassOrder, slots: Seq<Option<TaskSlot>>, q: Seq<u8>, t: int) -> spec_fn(int) -> Option<int> {
    |p: int|
        if level_at(slots, q[p] as int) < level_at(slots, t) || (level_at(slots, q[p] as int) == level_at(slots, t)
            && intra_precedes(order, slots, t, q[p] as int)) {
            Some(p)
        } else {
            None
        }
}

/// Where a task joins the ready order: after every more critical task and,
/// within its class, before the first task it precedes under the policy.
pub open spec fn ready_insert_pos(order: IntraClassOrder, slots: Seq<Option<TaskSlot>>, q: Seq<u8>, t: int) -> int {
    match first_some(ready_slots(order, slots, q, t), q.len() as int) {
        Some(p) => p,
        None => q.len() as int,
    }
}

pub open spec fn ready_insert(order: IntraClassOrder, slots: Seq<Option<TaskSlot>>, q: Seq<u8>, t: int) -> Seq<u8> {
    q.insert(ready_insert_pos(order, slots, q, t), t as u8)
}

/// Enqueue `ts` in order, skipping tasks already ready.
pub open spec fn enqueue_all(order: IntraClassOrder, slots: Seq<Option<TaskSlot>>, q: Seq<u8>, ts: Seq<u8>) -> Seq<u8>
    decreases ts.len(),
{
    if ts.len() == 0 {
        q
    } else {
        let prev = enqueue_all(order, slots, q, ts.drop_last());
        if prev.contains(ts.last()) { prev } else { ready_insert(order, slots, prev, ts.last() as int) }
    }
}

pub open spec fn due_at(slots: Seq<Option<TaskSlot>>, i: int) -> u64 {
    slots[i].unwrap().stats.next_due_us
}

pub open spec fn group_breaks(slots: Seq<Option<TaskSlot>>, q: Seq<u8>) -> spec_fn(int) -> Option<int> {
    |p: int| if due_at(slots, q[p] as int) != due_at(slots, q[0] as int) { Some(p) } else { None }
}

/// Length of the run at the front of the release queue sharing its release time.
pub open spec fn group_len(slots: Seq<Option<TaskSlot>>, q: Seq<u8>) -> int {
    match first_some(group_breaks(slots, q), q.len() as int) {
        Some(p) => p,
        None => q.len() as int,
    }
}

/// Slots with the release-group width of the tasks in `ts` set to `w`.
pub open spec fn with_width(slots: Seq<Option<TaskSlot>>, ts: Seq<u8>, w: u8) -> Seq<Option<TaskSlot>> {
    Seq::new(slots.len(), |i: int| match slots[i] {
        Some(s) => if ts.contains(i as u8) {
            Some(TaskSlot { stats: TaskStats { release_group_width: w, ..s.stats }, ..s })
        } else {
            Some(s)
        },
        None => None,
    })
}

pub open spec fn with_periodic(p: Seq<bool>, ts: Seq<u8>) -> Seq<bool> {
    Seq::new(p.len(), |i: int| p[i] || ts.contains(i as u8))
}

pub open spec fn width_of(g: int) -> u8 {
    if g > 255 { 255 } else { g as u8 }
}

/// The table after releasing every group at the front of the release queue
/// whose release time has come: each group's tasks leave the release queue,
/// join the ready order (unless already ready), are marked periodic-ready,
/// and record the group's width. Also counts the released tasks.
pub open spec fn release_due(
    order: IntraClassOrder,
    slots: Seq<Option<TaskSlot>>,
    release: Seq<u8>,
    ready: Seq<u8>,
    periodic: Seq<bool>,
    now_us: u64,
) -> (Seq<Option<TaskSlot>>, Seq<u8>, Seq<u8>, Seq<bool>, int)
    decreases release.len(),
{
    if release.len() == 0 || due_at(slots, release[0] as int) > now_us {
        (slots, release, ready, periodic, 0)
    } else {
        let g = group_len(slots, release);
        if 1 <= g <= release.len() {
            let group = release.take(g);
            let next = release_due(
                order,
                with_width(slots, group, width_of(g)),
                release.skip(g),
                enqueue_all(order, slots, ready, group),
                with_periodic(periodic, group),
                now_us,
            );
            (next.0, next.1, next.2, next.3, next.4 + g)
        } else {
            (slots, release, ready, periodic, 0)
        }
    }
}

pub open spec fn sat_mul_u64(a: u64, b: u64) -> u64 {
    if a * b > u64::MAX { u64::MAX } else { (a * b) as u64 }
}

/// Statistics after one poll: counts, the largest observed duration, budget
/// overruns, completions, and, for a consumed periodic release, the missed
/// releases and the next phase-anchored release.
pub open spec fn polled_stats(slot: TaskSlot, now_us: u64, duration_us: u32, result: Poll, periodic_release: bool) -> TaskStats {
    let st = slot.stats;
    let period = slot.meta.period_us as u64;
    let elapsed = now_us.saturating_sub(st.next_due_us) / period;
    TaskStats {
        polls: st.polls.saturating_add(1),
        last_poll_us: now_us,
        missed_releases: if periodic_release {
            st.missed_releases.saturating_add(if elapsed > u32::MAX { u32::MAX } else { elapsed as u32 })
        } else {
            st.missed_releases
        },
        next_due_us: if periodic_release {
            st.next_due_us.saturating_add(sat_mul_u64(elapsed.saturating_add(1), period))
        } else {
            st.next_due_us
        },
        max_observed_us: if duration_us > st.max_observed_us { duration_us } else { st.max_observed_us },
        overruns: if duration_us > slot.meta.budget_us { st.overruns.saturating_add(1) } else { st.overruns },
        ready: if result == Poll::Ready { st.ready.saturating_add(1) } else { st.ready },
        ..st
    }
}

/// Statistics after skipping the current release without running it.
pub open spec fn skipped_stats(slot: TaskSlot, now_us: u64) -> TaskStats {
    let st = slot.stats;
    let period = slot.meta.period_us as u64;
    let skipped = (now_us.saturating_sub(st.next_due_us) / period).saturating_add(1);
    TaskStats {
        missed_releases: st.missed_releases.saturating_add(if skipped > u32::MAX { u32::MAX } else { skipped as u32 }),
        next_due_us: st.next_due_us.saturating_add(sat_mul_u64(skipped, period)),
        ..st
    }
}

pub open spec fn index_of_entry(q: Seq<u8>, x: u8) -> spec_fn(int) -> Option<int> {
    |p: int| if q[p] == x { Some(p) } else { None }
}

/// `q` without the entry `x` (unchanged when absent).
pub open spec fn without(q: Seq<u8>, x: u8) -> Seq<u8> {
    match first_some(index_of_entry(q, x), q.len() as int) {
        Some(p) => q.remove(p),
        None => q,
    }
}

pub open spec fn module_hits(slots: Seq<Option<TaskSlot>>, module: ModuleId) -> spec_fn(int) -> Option<int> {
    |i: int| match slots[i] {
        Some(s) => if s.meta.module == module { Some(i) } else { None },
        None => None,
    }
}

/// Index of the first slot registered for `module`.
pub open spec fn slot_of(slots: Seq<Option<TaskSlot>>, module: ModuleId) -> Option<int> {
    first_some(module_hits(slots, module), slots.len() as int)
}

/// The slot a due-time scan selects among the first `k` slots: due tasks
/// only, higher criticality first, then the earlier release; the earlier
/// slot keeps ties.
pub open spec fn due_pick(slots: Seq<Option<TaskSlot>>, now_us: u64, k: int) -> Option<int>
    decreases k,
{
    if k <= 0 {
        None
    } else {
        let prev = due_pick(slots, now_us, k - 1);
        match slots[k - 1] {
            None => prev,
            Some(s) => if now_us < s.stats.next_due_us {
                prev
            } else {
                match prev {
                    None => Some(k - 1),
                    Some(p) => {
                        let ps = slots[p].unwrap();
                        if s.meta.criticality.level() > ps.meta.criticality.level() || (s.meta.criticality.level()
                            == ps.meta.criticality.level() && s.stats.next_due_us < ps.stats.next_due_us) {
                            Some(k - 1)
                        } else {
                            Some(p)
                        }
                    },
                }
            },
        }
    }
}

/// The new slot of an added task.
pub open spec fn added_slot(meta: TaskMeta, now_us: u64) -> TaskSlot {
    TaskSlot {
        meta,
        stats: TaskStats { next_due_us: now_us.saturating_add(meta.phase_us as u64), ..zero_stats() },
    }
}

/// The admission verdict on one more task.
pub open spec fn add_verdict(n: int, words: int, len: int, slots: Seq<Option<TaskSlot>>, meta: TaskMeta) -> Option<TaskTableError> {
    if words == 0 || n > words * 32 || n > 255 || len >= n {
        Some(TaskTableError::ReadyMaskCapacity)
    } else if meta.period_us == 0 || meta.period_us > MAX_WRAP_SAFE_INTERVAL_US {
        Some(TaskTableError::InvalidPeriod(meta.module))
    } else if meta.phase_us >= meta.period_us {
        Some(TaskTableError::InvalidPhase(meta.module))
    } else if meta.deadline_us == 0 || meta.deadline_us > meta.period_us {
        Some(TaskTableError::InvalidDeadline(meta.module))
    } else if meta.budget_us == 0 || meta.budget_us > meta.deadline_us {
        Some(TaskTableError::InvalidBudget(meta.module))
    } else if meta.blocking_us > meta.deadline_us - meta.budget_us {
        Some(TaskTableError::InvalidBlocking(meta.module))
    } else if exists|i: int| 0 <= i < len && #[trigger] slots[i].unwrap().meta.module == meta.module {
        Some(TaskTableError::DuplicateTask(meta.module))
    } else {
        None
    }
}

/// The tasks at the front of the release queue that share its release time.
pub open spec fn front_group(slots: Seq<Option<TaskSlot>>, q: Seq<u8>) -> Seq<u8> {
    q.take(group_len(slots, q))
}

/// Whether an ISR hand-off names exactly the due front release group.
pub open spec fn isr_matches(
    slots: Seq<Option<TaskSlot>>,
    release: Seq<u8>,
    words: nat,
    candidates: Seq<u32>,
    now_us: u64,
) -> bool {
    &&& words > 0
    &&& release.len() > 0
    &&& due_at(slots, release[0] as int) <= now_us
    &&& candidates == mask_of(front_group(slots, release), words)
}

/// Queue entries renamed after slot `removed` leaves: later slots move down one.
pub open spec fn collapse(q: Seq<u8>, removed: int) -> Seq<u8> {
    q.map_values(|x: u8| if x as int > removed { (x - 1) as u8 } else { x })
}

/// Slots restarted at `now_us`: each task's next release becomes `now_us + phase`.
pub open spec fn rebased(slots: Seq<Option<TaskSlot>>, now_us: u64) -> Seq<Option<TaskSlot>> {
    Seq::new(slots.len(), |i: int| match slots[i] {
        Some(s) => Some(TaskSlot {
            stats: TaskStats { next_due_us: now_us.saturating_add(s.meta.phase_us as u64), ..s.stats },
            ..s
        }),
        None => None,
    })
}

/// The release queue holding tasks `0..k`, linked in registration order.
pub open spec fn release_all(slots: Seq<Option<TaskSlot>>, k: int) -> Seq<u8>
    decreases k,
{
    if k <= 0 {
        Seq::empty()
    } else {
        release_insert(slots, release_all(slots, k - 1), k - 1)
    }
}

/// Some registered task has been polled.
pub open spec fn any_polled(slots: Seq<Option<TaskSlot>>, len: int) -> bool {
    exists|i: int| 0 <= i < len && #[trigger] slots[i].unwrap().stats.polls != 0
}

/// The verdict on receiving one more task by transfer.
pub open spec fn transfer_verdict(n: int, len: int, slots: Seq<Option<TaskSlot>>, meta: TaskMeta) -> Option<TaskTableError> {
    if n > 32 {
        Some(TaskTableError::ReadyMaskCapacity)
    } else if len >= n {
        Some(TaskTableError::Full)
    } else if exists|i: int| 0 <= i < len && #[trigger] slots[i].unwrap().meta.module == meta.module {
        Some(TaskTableError::DuplicateTask(meta.module))
    } else {
        None
    }
}

pub open spec fn meta_of(slot: Option<TaskSlot>) -> Option<TaskMeta> {
    match slot {
        Some(s) => Some(s.meta),
        None => None,
    }
}

/// Outcome of one scheduling sweep.
#[derive(Clone, Copy, Debug, PartialEq, Eq, Structural)]
pub struct DueSweep {
    pub selected: Option<DueSelection>,
    /// Tasks released from the release queue by this sweep.
    pub inspected_slots: u32,
    pub due_tasks: u32,
    pub simultaneous_width: u32,
    pub peer_inspected_slots: u32,
    /// Earliest release still queued after the sweep.
    pub next_release_us: Option<u64>,
}

/// The ready order never puts a task ahead of a more critical one.
pub open spec fn criticality_ordered(slots: Seq<Option<TaskSlot>>, q: Seq<u8>) -> bool {
    forall|a: int, b: int| 0 <= a < b < q.len() ==> level_at(slots, #[trigger] q[a] as int) >= level_at(slots, #[trigger] q[b] as int)
}

pub open spec fn distinct_below(q: Seq<u8>, len: int) -> bool {
    &&& forall|a: int| 0 <= a < q.len() ==> (#[trigger] q[a]) < len
    &&& forall|a: int, b: int| 0 <= a < b < q.len() ==> #[trigger] q[a] != #[trigger] q[b]
}

/// Bounded task table: slots filled in registration order, a release queue
/// ordered by next release, and a ready order that dispatches the most
/// critical ready task first.
pub struct TaskTable<const N: usize, const READY_WORDS: usize> {
    slots: [Option<TaskSlot>; N],
    len: u8,
    release: Vec<u8>,
    ready: Vec<u8>,
    periodic: Vec<bool>,
    intra_class_order: IntraClassOrder,
}

impl<const N: usize, const READY_WORDS: usize> TaskTable<N, READY_WORDS> {
    pub closed spec fn spec_slots(self) -> Seq<Option<TaskSlot>> {
        self.slots@
    }

    pub closed spec fn spec_len(self) -> int {
        self.len as int
    }

    /// The release queue, next release first.
    pub closed spec fn release_queue(self) -> Seq<u8> {
        self.release@
    }

    /// The ready tasks in dispatch order.
    pub closed spec fn ready_queue(self) -> Seq<u8> {
        self.ready@
    }

    /// Ready tasks whose phase-anchored release was consumed (not only woken).
    pub closed spec fn periodic_set(self) -> Seq<bool> {
        self.periodic@
    }

    pub closed spec fn order(self) -> IntraClassOrder {
        self.intra_class_order
    }

    pub closed spec fn wf(self) -> bool {
        &&& self.len <= N
        &&& (self.len > 0 ==> N <= 255 && (READY_WORDS == 0 || N <= 32 * READY_WORDS))
        &&& forall|i: int| 0 <= i < N ==> (#[trigger] self.slots@[i] is Some <==> i < self.len)
        &&& forall|i: int| 0 <= i < self.len ==> (#[trigger] self.slots@[i]).unwrap().meta.period_us > 0
        &&& distinct_below(self.release@, self.len as int)
        &&& distinct_below(self.ready@, self.len as int)
        &&& self.periodic@.len() == N
        &&& forall|i: int| 0 <= i < N && #[trigger] self.periodic@[i] ==> self.ready@.contains(i as u8)
        &&& criticality_ordered(self.slots@, self.ready@)
    }

    pub fn new() -> (r: Self)
        ensures
            r.wf(),
            r.spec_len() == 0,
            r.release_queue().len() == 0,
            r.ready_queue().len() == 0,
            r.order() == IntraClassOrder::Fifo,
    {
        Self::new_with_order(IntraClassOrder::Fifo)
    }

    pub fn new_with_order(intra_class_order: IntraClassOrder) -> (r: Self)
        ensures
            r.wf(),
            r.spec_len() == 0,
            r.release_queue().len() == 0,
            r.ready_queue().len() == 0,
            r.order() == intra_class_order,
            forall|i: int| 0 <= i < N ==> #[trigger] r.spec_slots()[i] is None,
    {
        let mut periodic: Vec<bool> = Vec::new();
        let mut i: usize = 0;
        while i < N
            invariant
                i <= N,
                periodic@.len() == i,
                forall|k: int| 0 <= k < i ==> !#[trigger] periodic@[k],
            decreases N - i,
        {
            periodic.push(false);
            i += 1;
        }
        TaskTable { slots: [None; N], len: 0, release: Vec::new(), ready: Vec::new(), periodic, intra_class_order }
    }

    /// Number of ready-mask words of this table layout.
    pub fn ready_word_count(&self) -> (r: usize)
        ensures
            r == READY_WORDS,
    {
        READY_WORDS
    }

    pub fn intra_class_order(&self) -> (r: IntraClassOrder)
        ensures
            r == self.order(),
    {
        self.intra_class_order
    }

    fn precedes_for_release(&self, left: usize, right: usize) -> (r: bool)
        requires
            left < N,
            right < N,
        ensures
            r == release_precedes(self.slots@, left as int, right as int),
    {
        let a = match self.slots[left] {
            Some(a) => a,
            None => {
                return false;
            },
        };
        let b = match self.slots[right] {
            Some(b) => b,
            None => {
                return true;
            },
        };
        let (ca, cb) = (a.meta.criticality.rank(), b.meta.criticality.rank());
        a.stats.next_due_us < b.stats.next_due_us || (a.stats.next_due_us == b.stats.next_due_us && (ca > cb || (ca == cb
            && (a.meta.period_us < b.meta.period_us || (a.meta.period_us == b.meta.period_us && left < right)))))
    }

    fn precedes_within_class(&self, left: usize, right: usize) -> (r: bool)
        requires
            left < N,
            right < N,
        ensures
            r == intra_precedes(self.intra_class_order, self.slots@, left as int, right as int),
    {
        let a = match self.slots[left] {
            Some(a) => a,
            None => {
                return false;
            },
        };
        let b = match self.slots[right] {
            Some(b) => b,
            None => {
                return true;
            },
        };
        match self.intra_class_order {
            IntraClassOrder::Fifo => false,
            IntraClassOrder::ShorterDeadlineFirst => a.meta.deadline_us < b.meta.deadline_us
                || (a.meta.deadline_us == b.meta.deadline_us && left < right),
            IntraClassOrder::ShorterPeriodFirst => a.meta.period_us < b.meta.period_us
                || (a.meta.period_us == b.meta.period_us && left < right),
            IntraClassOrder::RegistrationOrder => left < right,
        }
    }

    fn level(&self, index: usize) -> (r: u8)
        requires
            index < N,
        ensures
            r as int == level_at(self.slots@, index as int),
    {
        match self.slots[index] {
            Some(s) => s.meta.criticality.rank(),
            None => 0,
        }
    }

    fn release_position(&self, task_index: usize) -> (p: usize)
        requires
            self.wf(),
            task_index < N,
        ensures
            p as int == release_insert_pos(self.slots@, self.release@, task_index as int),
            p <= self.release@.len(),
    {
        let ghost f = release_slots(self.slots@, self.release@, task_index as int);
        let mut p: usize = 0;
        while p < self.release.len()
            invariant
                p <= self.release@.len(),
                self.wf(),
                task_index < N,
                f == release_slots(self.slots@, self.release@, task_index as int),
                first_some(f, p as int) is None,
            decreases self.release.len() - p,
        {
            let at = self.release[p];
            assert(f(p as int) == release_slots(self.slots@, self.release@, task_index as int)(p as int));
            if self.precedes_for_release(task_index, at as usize) {
                proof { lemma_first_some_hit(f, p as int, self.release@.len() as int); }
                return p;
            }
            p += 1;
        }
        p
    }

    /// Link a task into the release queue before the first task it precedes.
    fn insert_release(&mut self, task_index: usize)
        requires
            old(self).wf(),
            task_index < old(self).len,
            !old(self).release@.contains(task_index as u8),
        ensures
            final(self).wf(),
            final(self).release@ == release_insert(old(self).slots@, old(self).release@, task_index as int),
            final(self).slots == old(self).slots,
            final(self).len == old(self).len,
            final(self).ready == old(self).ready,
            final(self).periodic == old(self).periodic,
            final(self).intra_class_order == old(self).intra_class_order,
    {
        let p = self.release_position(task_index);
        let ghost before = self.release@;
        self.release.insert(p, task_index as u8);
        proof {
            lemma_insert_distinct(before, p as int, task_index as u8, self.len as int);
        }
    }

    /// Register a task after validating its timing contract; its first
    /// release is `now_us + phase`.
    pub fn add(&mut self, meta: TaskMeta, now_us: u64) -> (r: Result<(), TaskTableError>)
        requires
            old(self).wf(),
        ensures
            final(self).wf(),
            add_verdict(N as int, READY_WORDS as int, old(self).spec_len(), old(self).spec_slots(), meta) matches Some(e)
                ==> r == Err::<(), TaskTableError>(e) && *final(self) == *old(self),
            add_verdict(N as int, READY_WORDS as int, old(self).spec_len(), old(self).spec_slots(), meta) is None ==> {
                &&& r is Ok
                &&& final(self).spec_slots() == old(self).spec_slots().update(old(self).spec_len(), Some(added_slot(meta, now_us)))
                &&& final(self).spec_len() == old(self).spec_len() + 1
                &&& final(self).release_queue() == release_insert(final(self).spec_slots(), old(self).release_queue(), old(self).spec_len())
                &&& final(self).ready_queue() == old(self).ready_queue()
                &&& final(self).periodic_set() == old(self).periodic_set()
                &&& final(self).order() == old(self).order()
            },
    {
        let cap = if READY_WORDS > usize::MAX / 32 { usize::MAX } else { READY_WORDS * 32 };
        if READY_WORDS == 0 || N > cap || N > 255 || (self.len as usize) >= N {
            return Err(TaskTableError::ReadyMaskCapacity);
        }
        if meta.period_us == 0 || meta.period_us > MAX_WRAP_SAFE_INTERVAL_US {
            return Err(TaskTableError::InvalidPeriod(meta.module));
        }
        if meta.phase_us >= meta.period_us {
            return Err(TaskTableError::InvalidPhase(meta.module));
        }
        if meta.deadline_us == 0 || meta.deadline_us > meta.period_us {
            return Err(TaskTableError::InvalidDeadline(meta.module));
        }
        if meta.budget_us == 0 || meta.budget_us > meta.deadline_us {
            return Err(TaskTableError::InvalidBudget(meta.module));
        }
        if meta.blocking_us > meta.deadline_us - meta.budget_us {
            return Err(TaskTableError::InvalidBlocking(meta.module));
        }
        let len = self.len as usize;
        let mut i: usize = 0;
        while i < len
            invariant
                i <= len,
                len == self.len,
                self.wf(),
                *self == *old(self),
                READY_WORDS != 0 && N <= READY_WORDS * 32 && N <= 255 && len < N,
                meta.period_us != 0 && meta.period_us <= MAX_WRAP_SAFE_INTERVAL_US && meta.phase_us < meta.period_us,
                meta.deadline_us != 0 && meta.deadline_us <= meta.period_us,
                meta.budget_us != 0 && meta.budget_us <= meta.deadline_us,
                meta.blocking_us <= meta.deadline_us - meta.budget_us,
                forall|k: int| 0 <= k < i ==> #[trigger] self.slots@[k].unwrap().meta.module != meta.module,
            decreases len - i,
        {
            if let Some(slot) = self.slots[i] {
                if slot.meta.module == meta.module {
                    assert(self.slots@[i as int].unwrap().meta.module == meta.module);
                    return Err(TaskTableError::DuplicateTask(meta.module));
                }
            }
            i += 1;
        }
        let slot = TaskSlot {
            meta,
            stats: TaskStats { next_due_us: now_us.saturating_add(meta.phase_us as u64), ..TaskStats::zeroed() },
        };
        self.slots[len] = Some(slot);
        self.len = self.len + 1;
        assert(forall|k: int| 0 <= k < self.release@.len() ==> #[trigger] self.release@[k] < len);
        self.insert_release(len);
        Ok(())
    }

    fn ready_position(&self, task_index: usize) -> (p: usize)
        requires
            self.wf(),
            task_index < N,
        ensures
            p as int == ready_insert_pos(self.intra_class_order, self.slots@, self.ready@, task_index as int),
            p <= self.ready@.len(),
    {
        let ghost f = ready_slots(self.intra_class_order, self.slots@, self.ready@, task_index as int);
        let level = self.level(task_index);
        let mut p: usize = 0;
        while p < self.ready.len()
            invariant
                p <= self.ready@.len(),
                self.wf(),
                task_index < N,
                level as int == level_at(self.slots@, task_index as int),
                f == ready_slots(self.intra_class_order, self.slots@, self.ready@, task_index as int),
                first_some(f, p as int) is None,
            decreases self.ready.len() - p,
        {
            let at = self.ready[p] as usize;
            assert(f(p as int) == ready_slots(self.intra_class_order, self.slots@, self.ready@, task_index as int)(p as int));
            let other = self.level(at);
            if other < level || (other == level && self.precedes_within_class(task_index, at)) {
                proof { lemma_first_some_hit(f, p as int, self.ready@.len() as int); }
                return p;
            }
            p += 1;
        }
        p
    }

    /// Put a task into the ready order.
    fn enqueue_ready(&mut self, task_index: usize)
        requires
            old(self).wf(),
            task_index < old(self).len,
            !old(self).ready@.contains(task_index as u8),
        ensures
            final(self).wf(),
            final(self).ready@ == ready_insert(old(self).intra_class_order, old(self).slots@, old(self).ready@, task_index as int),
            final(self).ready@.contains(task_index as u8),
            forall|y: u8| #[trigger] old(self).ready@.contains(y) ==> final(self).ready@.contains(y),
            final(self).slots == old(self).slots,
            final(self).len == old(self).len,
            final(self).release == old(self).release,
            final(self).periodic == old(self).periodic,
            final(self).intra_class_order == old(self).intra_class_order,
    {
        let p = self.ready_position(task_index);
        let ghost before = self.ready@;
        self.ready.insert(p, task_index as u8);
        proof {
            lemma_insert_keeps(before, p as int, task_index as u8);
            lemma_insert_distinct(before, p as int, task_index as u8, self.len as int);
            lemma_insert_ordered(self.intra_class_order, self.slots@, before, task_index as int);
            assert forall|i: int| 0 <= i < N && #[trigger] self.periodic@[i] implies self.ready@.contains(i as u8) by {
                assert(before.contains(i as u8));
                let k = choose|k: int| 0 <= k < before.len() && before[k] == i as u8;
                if k < p {
                    assert(self.ready@[k] == i as u8);
                } else {
                    assert(self.ready@[k + 1] == i as u8);
                }
            }
        }
    }

    fn is_ready(&self, task_index: u8) -> (r: bool)
        ensures
            r == self.ready@.contains(task_index),
    {
        let mut i: usize = 0;
        while i < self.ready.len()
            invariant
                i <= self.ready@.len(),
                forall|k: int| 0 <= k < i ==> #[trigger] self.ready@[k] != task_index,
            decreases self.ready.len() - i,
        {
            if self.ready[i] == task_index {
                return true;
            }
            i += 1;
        }
        false
    }

    fn due_of(&self, index: usize) -> (r: u64)
        requires
            self.wf(),
            index < self.len,
        ensures
            r == due_at(self.slots@, index as int),
    {
        self.slots[index].unwrap().stats.next_due_us
    }

    /// Pop the release-queue root into the ready order (unless already ready).
    fn pop_release_into_ready(&mut self) -> (t: u8)
        requires
            old(self).wf(),
            old(self).release@.len() > 0,
        ensures
            final(self).wf(),
            t == old(self).release@[0],
            final(self).release@ == old(self).release@.remove(0),
            final(self).ready@ == (if old(self).ready@.contains(t) { old(self).ready@ } else {
                ready_insert(old(self).intra_class_order, old(self).slots@, old(self).ready@, t as int)
            }),
            final(self).ready@.contains(t),
            forall|x: u8| #[trigger] old(self).ready@.contains(x) ==> final(self).ready@.contains(x),
            final(self).slots == old(self).slots,
            final(self).periodic == old(self).periodic,
            final(self).len == old(self).len,
            final(self).intra_class_order == old(self).intra_class_order,
    {
        let ghost before = self.release@;
        proof {
            lemma_remove_distinct(before, 0, self.len as int);
        }
        let t = self.release.remove(0);
        let ghost ready_before = self.ready@;
        if !self.is_ready(t) {
            self.enqueue_ready(t as usize);
        }
        t
    }

    /// Release the run of tasks at the front of the release queue that share
    /// its release time; returns the run's length.
    fn release_front_group(&mut self) -> (g: usize)
        requires
            old(self).wf(),
            old(self).release@.len() > 0,
        ensures
            final(self).wf(),
            g as int == group_len(old(self).slots@, old(self).release@),
            1 <= g <= old(self).release@.len(),
            final(self).slots@ == with_width(old(self).slots@, old(self).release@.take(g as int), width_of(g as int)),
            final(self).release@ == old(self).release@.skip(g as int),
            final(self).ready@ == enqueue_all(old(self).intra_class_order, old(self).slots@, old(self).ready@, old(self).release@.take(g as int)),
            final(self).periodic@ == with_periodic(old(self).periodic@, old(self).release@.take(g as int)),
            final(self).len == old(self).len,
            final(self).intra_class_order == old(self).intra_class_order,
    {
        let ghost slots0 = self.slots@;
        let ghost release0 = self.release@;
        let ghost ready0 = self.ready@;
        let ghost periodic0 = self.periodic@;
        let ghost breaks = group_breaks(slots0, release0);
        let root = self.release[0] as usize;
        let release_us = self.due_of(root);
        let mut group: Vec<u8> = Vec::new();
        while self.release.len() > 0 && self.due_of(self.release[0] as usize) == release_us
            invariant
                self.wf(),
                self.slots@ == slots0,
                self.periodic@ == periodic0,
                self.len == old(self).len,
                self.intra_class_order == old(self).intra_class_order,
                release0 == old(self).release@,
                slots0 == old(self).slots@,
                ready0 == old(self).ready@,
                release0.len() > 0,
                release_us == due_at(slots0, release0[0] as int),
                breaks == group_breaks(slots0, release0),
                group@.len() + self.release@.len() == release0.len(),
                group@ == release0.take(group@.len() as int),
                self.release@ == release0.skip(group@.len() as int),
                self.ready@ == enqueue_all(self.intra_class_order, slots0, ready0, group@),
                first_some(breaks, group@.len() as int) is None,
                forall|x: u8| #[trigger] group@.contains(x) ==> self.ready@.contains(x),
                forall|x: u8| #[trigger] ready0.contains(x) ==> self.ready@.contains(x),
            decreases self.release@.len(),
        {
            let ghost k = group@.len() as int;
            let ghost ready_before = self.ready@;
            let ghost group_before = group@;
            assert(breaks(k) == group_breaks(slots0, release0)(k));
            assert(self.release@[0] == release0[k]);
            let t = self.pop_release_into_ready();
            group.push(t);
            proof {
                assert(group@ =~= release0.take(k + 1));
                assert(self.release@ =~= release0.skip(k + 1));
                assert(group@.drop_last() =~= group_before);
                assert(first_some(breaks, k + 1) is None);
                assert forall|x: u8| #[trigger] group@.contains(x) implies self.ready@.contains(x) by {
                    let j = choose|j: int| 0 <= j < group@.len() && group@[j] == x;
                    if j < k {
                        assert(group_before[j] == x);
                        assert(group_before.contains(x));
                    }
                }
            }
        }
        let g = group.len();
        proof {
            if g < release0.len() {
                assert(breaks(g as int) == group_breaks(slots0, release0)(g as int));
                assert(self.release@[0] == release0[g as int]);
                lemma_first_some_hit(breaks, g as int, release0.len() as int);
            }
            if g == 0 {
                assert(self.release@ == release0);
            }
        }
        let width: u8 = if g > 255 { 255 } else { g as u8 };
        let mut k: usize = 0;
        while k < g
            invariant
                k <= g == group@.len(),
                g <= release0.len(),
                group@ == release0.take(g as int),
                self.wf(),
                self.slots@ == slots0,
                self.len == old(self).len,
                self.intra_class_order == old(self).intra_class_order,
                self.release@ == release0.skip(g as int),
                self.ready@ == enqueue_all(self.intra_class_order, slots0, ready0, group@),
                forall|x: u8| #[trigger] group@.contains(x) ==> self.ready@.contains(x),
                distinct_below(release0, self.len as int),
                self.periodic@ =~= with_periodic(periodic0, group@.take(k as int)),
            decreases g - k,
        {
            let t = group[k] as usize;
            proof {
                assert(group@[k as int] == release0[k as int]);
                assert(group@.contains(t as u8));
            }
            self.periodic.set(t, true);
            proof {
                assert forall|i: int| 0 <= i < self.periodic@.len() implies #[trigger] self.periodic@[i] == (periodic0[i] || group@.take(k + 1).contains(i as u8)) by {
                    lemma_take_contains(group@, k as int, i as u8);
                }
            }
            k += 1;
        }
        proof {
            assert(group@.take(g as int) =~= group@);
        }
        let ghost mid = *self;
        let mut k: usize = 0;
        while k < g
            invariant
                k <= g == group@.len(),
                group@ == release0.take(g as int),
                1 <= g <= release0.len(),
                distinct_below(release0, old(self).len as int),
                mid.wf(),
                mid.slots@ == slots0,
                mid.len == old(self).len,
                mid.len > 0,
                N <= 255,
                self.release == mid.release,
                self.ready == mid.ready,
                self.periodic == mid.periodic,
                self.len == mid.len,
                self.intra_class_order == mid.intra_class_order,
                slots0.len() == N,
                self.slots@ =~= with_width(slots0, group@.take(k as int), width),
            decreases g - k,
        {
            let t = group[k] as usize;
            proof {
                assert(group@[k as int] == release0[k as int]);
            }
            let mut slot = self.slots[t].unwrap();
            slot.stats.release_group_width = width;
            self.slots[t] = Some(slot);
            proof {
                assert forall|i: int| 0 <= i < N implies #[trigger] self.slots@[i] == with_width(slots0, group@.take(k + 1), width)[i] by {
                    lemma_take_contains(group@, k as int, i as u8);
                    if i == t {
                        lemma_distinct_take(release0, k as int);
                    }
                }
            }
            k += 1;
        }
        proof {
            assert(group@.take(g as int) =~= group@);
            assert forall|i: int| 0 <= i < N implies (#[trigger] self.slots@[i] is Some <==> i < self.len) by {
                assert(slots0[i] is Some <==> i < mid.len);
            }
            assert forall|i: int| 0 <= i < self.len implies (#[trigger] self.slots@[i]).unwrap().meta.period_us > 0 by {
                assert(slots0[i].unwrap().meta.period_us > 0);
            }
        }
        g
    }

    /// Release every group whose time has come into the ready order; returns
    /// the number of released tasks.
    pub fn mark_due_releases(&mut self, now_us: u64) -> (r: u32)
        requires
            old(self).wf(),
        ensures
            final(self).wf(),
            (final(self).spec_slots(), final(self).release_queue(), final(self).ready_queue(), final(self).periodic_set(), r as int)
                == release_due(old(self).order(), old(self).spec_slots(), old(self).release_queue(), old(self).ready_queue(), old(self).periodic_set(), now_us),
            final(self).spec_len() == old(self).spec_len(),
            final(self).order() == old(self).order(),
    {
        let ghost target = release_due(self.intra_class_order, self.slots@, self.release@, self.ready@, self.periodic@, now_us);
        proof { lemma_distinct_len(self.release@, self.len as int); }
        let mut released: u32 = 0;
        loop
            invariant
                self.wf(),
                self.len == old(self).len,
                self.intra_class_order == old(self).intra_class_order,
                target == release_due(old(self).intra_class_order, old(self).slots@, old(self).release@, old(self).ready@, old(self).periodic@, now_us),
                ({
                    let t = release_due(self.intra_class_order, self.slots@, self.release@, self.ready@, self.periodic@, now_us);
                    t.0 == target.0 && t.1 == target.1 && t.2 == target.2 && t.3 == target.3 && t.4 + released == target.4
                }),
                released + self.release@.len() <= 255,
            decreases self.release@.len(),
        {
            if self.release.len() == 0 {
                return released;
            }
            let root = self.release[0] as usize;
            if self.due_of(root) > now_us {
                return released;
            }
            let g = self.release_front_group();
            released = released + g as u32;
        }
    }

    /// The highest-priority ready task and its release time.
    fn ready_selection(&self) -> (r: Option<DueSelection>)
        requires
            self.wf(),
        ensures
            self.ready@.len() == 0 ==> r is None,
            self.ready@.len() > 0 ==> r == Some(DueSelection {
                index: self.ready@[0] as usize,
                release_us: due_at(self.slots@, self.ready@[0] as int),
            }),
    {
        if self.ready.len() == 0 {
            return None;
        }
        let index = self.ready[0] as usize;
        Some(DueSelection { index, release_us: self.due_of(index) })
    }

    /// Release due groups, then select the highest-priority ready task; an
    /// event-woken task reports `now_us` as its release.
    pub fn select_due(&mut self, now_us: u64) -> (r: Option<DueSelection>)
        requires
            old(self).wf(),
        ensures
            final(self).wf(),
            (final(self).spec_slots(), final(self).release_queue(), final(self).ready_queue(), final(self).periodic_set())
                == ({
                let t = release_due(old(self).order(), old(self).spec_slots(), old(self).release_queue(), old(self).ready_queue(), old(self).periodic_set(), now_us);
                (t.0, t.1, t.2, t.3)
            }),
            final(self).spec_len() == old(self).spec_len(),
            final(self).order() == old(self).order(),
            final(self).ready_queue().len() == 0 ==> r is None,
            final(self).ready_queue().len() > 0 ==> r == Some(DueSelection {
                index: final(self).ready_queue()[0] as usize,
                release_us: if final(self).periodic_set()[final(self).ready_queue()[0] as int] {
                    due_at(final(self).spec_slots(), final(self).ready_queue()[0] as int)
                } else {
                    now_us
                },
            }),
    {
        self.mark_due_releases(now_us);
        let mut selected = match self.ready_selection() {
            Some(selected) => selected,
            None => {
                return None;
            },
        };
        if !self.periodic[selected.index] {
            selected.release_us = now_us;
        }
        Some(selected)
    }

    fn ready_index_of(&self, task: u8) -> (r: Option<usize>)
        ensures
            r matches Some(p) ==> first_some(index_of_entry(self.ready@, task), self.ready@.len() as int) == Some(p as int),
            r is None ==> first_some(index_of_entry(self.ready@, task), self.ready@.len() as int) is None,
    {
        let ghost f = index_of_entry(self.ready@, task);
        let mut p: usize = 0;
        while p < self.ready.len()
            invariant
                p <= self.ready@.len(),
                f == index_of_entry(self.ready@, task),
                first_some(f, p as int) is None,
            decreases self.ready.len() - p,
        {
            assert(f(p as int) == index_of_entry(self.ready@, task)(p as int));
            if self.ready[p] == task {
                proof { lemma_first_some_hit(f, p as int, self.ready@.len() as int); }
                return Some(p);
            }
            p += 1;
        }
        None
    }

    /// Take a selected task out of the ready order; returns whether its
    /// phase-anchored release was what made it ready.
    pub fn take_selected(&mut self, index: usize) -> (r: bool)
        requires
            old(self).wf(),
        ensures
            final(self).wf(),
            !(index < N && old(self).spec_slots()[index as int] is Some) ==> !r && *final(self) == *old(self),
            index < N && old(self).spec_slots()[index as int] is Some ==> {
                &&& r == old(self).periodic_set()[index as int]
                &&& final(self).ready_queue() == without(old(self).ready_queue(), index as u8)
                &&& final(self).periodic_set() == old(self).periodic_set().update(index as int, false)
                &&& final(self).spec_slots() == old(self).spec_slots()
                &&& final(self).release_queue() == old(self).release_queue()
                &&& final(self).spec_len() == old(self).spec_len()
                &&& final(self).order() == old(self).order()
            },
    {
        if index >= N || self.slots[index].is_none() {
            return false;
        }
        let ghost before = self.ready@;
        if let Some(p) = self.ready_index_of(index as u8) {
            proof {
                let f = index_of_entry(before, index as u8);
                let w = crate::scan::lemma_first_some_witness(f, before.len() as int);
                lemma_remove_distinct(before, p as int, self.len as int);
            }
            self.ready.remove(p);
        }
        let periodic = self.periodic[index];
        self.periodic.set(index, false);
        proof {
            assert forall|i: int| 0 <= i < N && #[trigger] self.periodic@[i] implies self.ready@.contains(i as u8) by {
                assert(before.contains(i as u8));
                if i != index {
                    match first_some(index_of_entry(before, index as u8), before.len() as int) {
                        Some(p) => {
                            let w = crate::scan::lemma_first_some_witness(index_of_entry(before, index as u8), before.len() as int);
                            assert(before[p] == index as u8);
                            lemma_remove_distinct(before, p, self.len as int);
                        },
                        None => {},
                    }
                }
            }
        }
        periodic
    }

    /// Width of the release group that last made the task ready.
    pub fn selected_group_width(&self, index: usize) -> (r: u32)
        ensures
            r == if index < N && self.spec_slots()[index as int] is Some {
                self.spec_slots()[index as int].unwrap().stats.release_group_width as u32
            } else {
                0
            },
    {
        if index >= N {
            return 0;
        }
        match self.slots[index] {
            Some(slot) => slot.stats.release_group_width as u32,
            None => 0,
        }
    }

    /// Some task is ready, or the next release time has come.
    pub fn has_due(&self, now_us: u64) -> (r: bool)
        requires
            self.wf(),
        ensures
            r == (self.ready_queue().len() > 0 || (self.release_queue().len() > 0
                && due_at(self.spec_slots(), self.release_queue()[0] as int) <= now_us)),
    {
        if self.ready.len() > 0 {
            return true;
        }
        if self.release.len() == 0 {
            return false;
        }
        self.due_of(self.release[0] as usize) <= now_us
    }

    /// When the next poll is owed: zero for an event-woken ready task, the
    /// release of the selected ready task, else the next release.
    pub fn next_due_us(&self) -> (r: Option<u64>)
        requires
            self.wf(),
        ensures
            r == if self.ready_queue().len() > 0 {
                let index = self.ready_queue()[0] as int;
                Some(if self.periodic_set()[index] { due_at(self.spec_slots(), index) } else { 0 })
            } else if self.release_queue().len() > 0 {
                Some(due_at(self.spec_slots(), self.release_queue()[0] as int))
            } else {
                None
            },
    {
        if let Some(selection) = self.ready_selection() {
            if !self.periodic[selection.index] {
                return Some(0);
            }
            return Some(selection.release_us);
        }
        if self.release.len() == 0 {
            return None;
        }
        Some(self.due_of(self.release[0] as usize))
    }

    /// The slot of the first task registered for `module`.
    pub fn get(&self, module: ModuleId) -> (r: Option<TaskSlot>)
        ensures
            r == match slot_of(self.spec_slots(), module) {
                Some(i) => self.spec_slots()[i],
                None => None,
            },
    {
        match self.slot_index(module) {
            Some(i) => self.slots[i],
            None => None,
        }
    }

    fn slot_index(&self, module: ModuleId) -> (r: Option<usize>)
        ensures
            r matches Some(i) ==> slot_of(self.slots@, module) == Some(i as int) && i < N,
            r is None ==> slot_of(self.slots@, module) is None,
    {
        let ghost f = module_hits(self.slots@, module);
        let mut i: usize = 0;
        while i < N
            invariant
                i <= N,
                f == module_hits(self.slots@, module),
                first_some(f, i as int) is None,
            decreases N - i,
        {
            assert(f(i as int) == module_hits(self.slots@, module)(i as int));
            if let Some(slot) = self.slots[i] {
                if slot.meta.module == module {
                    proof { lemma_first_some_hit(f, i as int, N as int); }
                    return Some(i);
                }
            }
            i += 1;
        }
        None
    }

    pub fn meta_at(&self, idx: usize) -> (r: Option<TaskMeta>)
        ensures
            r == if idx < N {
                match self.spec_slots()[idx as int] {
                    Some(slot) => Some(slot.meta),
                    None => None,
                }
            } else {
                None
            },
    {
        if idx >= N {
            return None;
        }
        match self.slots[idx] {
            Some(slot) => Some(slot.meta),
            None => None,
        }
    }

    /// Every registered task contract, by slot.
    pub fn metas(&self) -> (r: [Option<TaskMeta>; N])
        ensures
            forall|i: int| 0 <= i < N ==> #[trigger] r@[i] == match self.spec_slots()[i] {
                Some(slot) => Some(slot.meta),
                None => None,
            },
    {
        let mut metas: [Option<TaskMeta>; N] = [None; N];
        let mut i: usize = 0;
        while i < N
            invariant
                i <= N,
                forall|k: int| 0 <= k < i ==> #[trigger] metas@[k] == match self.slots@[k] {
                    Some(slot) => Some(slot.meta),
                    None => None,
                },
            decreases N - i,
        {
            metas[i] = match self.slots[i] {
                Some(slot) => Some(slot.meta),
                None => None,
            };
            i += 1;
        }
        metas
    }

    /// Wake a registered task from an external event without touching its
    /// periodic release; repeated wakes collapse into one ready entry.
    pub fn wake_event(&mut self, module: ModuleId) -> (r: Result<bool, TaskTableError>)
        requires
            old(self).wf(),
        ensures
            final(self).wf(),
            slot_of(old(self).spec_slots(), module) is None ==> r == Err::<bool, TaskTableError>(TaskTableError::UnknownTask(module))
                && *final(self) == *old(self),
            slot_of(old(self).spec_slots(), module) matches Some(i) ==> {
                &&& old(self).ready_queue().contains(i as u8) ==> r == Ok::<bool, TaskTableError>(false) && *final(self) == *old(self)
                &&& !old(self).ready_queue().contains(i as u8) ==> {
                    &&& r == Ok::<bool, TaskTableError>(true)
                    &&& final(self).ready_queue() == ready_insert(old(self).order(), old(self).spec_slots(), old(self).ready_queue(), i)
                    &&& final(self).spec_slots() == with_width(old(self).spec_slots(), seq![i as u8], 1)
                    &&& final(self).release_queue() == old(self).release_queue()
                    &&& final(self).periodic_set() == old(self).periodic_set()
                    &&& final(self).spec_len() == old(self).spec_len()
                    &&& final(self).order() == old(self).order()
                }
            },
    {
        let index = match self.slot_index(module) {
            Some(index) => index,
            None => {
                return Err(TaskTableError::UnknownTask(module));
            },
        };
        proof {
            let w = crate::scan::lemma_first_some_witness(module_hits(self.slots@, module), N as int);
        }
        if self.is_ready(index as u8) {
            return Ok(false);
        }
        let ghost slots0 = self.slots@;
        self.enqueue_ready(index);
        let mut slot = self.slots[index].unwrap();
        slot.stats.release_group_width = 1;
        self.slots[index] = Some(slot);
        proof {
            assert forall|i: int| 0 <= i < N implies #[trigger] self.slots@[i] == with_width(slots0, seq![index as u8], 1)[i] by {
                if seq![index as u8].contains(i as u8) {
                    assert(seq![index as u8][0] == i as u8);
                }
                if i == index {
                    assert(seq![index as u8][0] == index as u8);
                }
            }
            assert(self.slots@ =~= with_width(slots0, seq![index as u8], 1));
        }
        Ok(true)
    }

    fn release_index_of(&self, task: u8) -> (r: Option<usize>)
        ensures
            r matches Some(p) ==> first_some(index_of_entry(self.release@, task), self.release@.len() as int) == Some(p as int),
            r is None ==> first_some(index_of_entry(self.release@, task), self.release@.len() as int) is None,
    {
        let ghost f = index_of_entry(self.release@, task);
        let mut p: usize = 0;
        while p < self.release.len()
            invariant
                p <= self.release@.len(),
                f == index_of_entry(self.release@, task),
                first_some(f, p as int) is None,
            decreases self.release.len() - p,
        {
            assert(f(p as int) == index_of_entry(self.release@, task)(p as int));
            if self.release[p] == task {
                proof { lemma_first_some_hit(f, p as int, self.release@.len() as int); }
                return Some(p);
            }
            p += 1;
        }
        None
    }

    /// Unlink a task from the release queue, if linked.
    fn remove_release(&mut self, task_index: usize)
        requires
            old(self).wf(),
            task_index < N,
        ensures
            final(self).wf(),
            final(self).release@ == without(old(self).release@, task_index as u8),
            !final(self).release@.contains(task_index as u8),
            final(self).slots == old(self).slots,
            final(self).len == old(self).len,
            final(self).ready == old(self).ready,
            final(self).periodic == old(self).periodic,
            final(self).intra_class_order == old(self).intra_class_order,
    {
        let ghost before = self.release@;
        if task_index > 255 {
            proof {
                if before.contains(task_index as u8) {
                    let j = choose|j: int| 0 <= j < before.len() && before[j] == task_index as u8;
                    assert(before[j] < self.len);
                }
                if first_some(index_of_entry(before, task_index as u8), before.len() as int) is Some {
                    let w = crate::scan::lemma_first_some_witness(index_of_entry(before, task_index as u8), before.len() as int);
                }
            }
            return;
        }
        match self.release_index_of(task_index as u8) {
            Some(p) => {
                proof {
                    let w = crate::scan::lemma_first_some_witness(index_of_entry(before, task_index as u8), before.len() as int);
                    lemma_remove_distinct(before, p as int, self.len as int);
                }
                self.release.remove(p);
            },
            None => {
                proof {
                    if before.contains(task_index as u8) {
                        let j = choose|j: int| 0 <= j < before.len() && before[j] == task_index as u8;
                        lemma_first_some_none_all(index_of_entry(before, task_index as u8), before.len() as int);
                        assert(index_of_entry(before, task_index as u8)(j) is None);
                    }
                }
            },
        }
    }

    fn relink_release(&mut self, task_index: usize)
        requires
            old(self).wf(),
            task_index < old(self).len,
        ensures
            final(self).wf(),
            final(self).release@ == release_insert(old(self).slots@, without(old(self).release@, task_index as u8), task_index as int),
            final(self).slots == old(self).slots,
            final(self).len == old(self).len,
            final(self).ready == old(self).ready,
            final(self).periodic == old(self).periodic,
            final(self).intra_class_order == old(self).intra_class_order,
    {
        self.remove_release(task_index);
        self.insert_release(task_index);
    }

    fn finish_poll(&mut self, idx: usize, now_us: u64, duration_us: u32, result: Poll, periodic_release: bool) -> (r: Option<TaskStats>)
        requires
            old(self).wf(),
        ensures
            final(self).wf(),
            !(idx < N && old(self).slots@[idx as int] is Some) ==> r is None && *final(self) == *old(self),
            idx < N && old(self).slots@[idx as int] is Some ==> {
                let slot = old(self).slots@[idx as int].unwrap();
                let stats = polled_stats(slot, now_us, duration_us, result, periodic_release);
                &&& r == Some(stats)
                &&& final(self).slots@ == old(self).slots@.update(idx as int, Some(TaskSlot { stats, ..slot }))
                &&& final(self).release@ == if periodic_release {
                    release_insert(final(self).slots@, without(old(self).release@, idx as u8), idx as int)
                } else {
                    old(self).release@
                }
                &&& final(self).ready == old(self).ready
                &&& final(self).periodic == old(self).periodic
                &&& final(self).len == old(self).len
                &&& final(self).intra_class_order == old(self).intra_class_order
            },
    {
        if idx >= N {
            return None;
        }
        let mut slot = match self.slots[idx] {
            Some(slot) => slot,
            None => {
                return None;
            },
        };
        let ghost before = slot;
        slot.stats.polls = slot.stats.polls.saturating_add(1);
        slot.stats.last_poll_us = now_us;
        if periodic_release {
            let period = slot.meta.period_us as u64;
            let releases_elapsed = now_us.saturating_sub(slot.stats.next_due_us) / period;
            let missed = if releases_elapsed > u32::MAX as u64 { u32::MAX } else { releases_elapsed as u32 };
            slot.stats.missed_releases = slot.stats.missed_releases.saturating_add(missed);
            slot.stats.next_due_us = slot.stats.next_due_us.saturating_add(saturating_mul_u64(releases_elapsed.saturating_add(1), period));
        }
        if duration_us > slot.stats.max_observed_us {
            slot.stats.max_observed_us = duration_us;
        }
        if duration_us > slot.meta.budget_us {
            slot.stats.overruns = slot.stats.overruns.saturating_add(1);
        }
        if result == Poll::Ready {
            slot.stats.ready = slot.stats.ready.saturating_add(1);
        }
        let stats = slot.stats;
        self.slots[idx] = Some(slot);
        if periodic_release {
            self.relink_release(idx);
        }
        Some(stats)
    }

    /// Record one poll of slot `idx` (it leaves the ready order and its
    /// release is re-anchored after the poll).
    pub fn record_poll(&mut self, idx: usize, now_us: u64, duration_us: u32, result: Poll) -> (r: Option<TaskStats>)
        requires
            old(self).wf(),
        ensures
            final(self).wf(),
            idx >= old(self).spec_len() ==> r is None && *final(self) == *old(self),
            idx < old(self).spec_len() ==> {
                let slot = old(self).spec_slots()[idx as int].unwrap();
                let stats = polled_stats(slot, now_us, duration_us, result, true);
                &&& r == Some(stats)
                &&& final(self).spec_slots() == old(self).spec_slots().update(idx as int, Some(TaskSlot { stats, ..slot }))
                &&& final(self).release_queue() == release_insert(final(self).spec_slots(), without(old(self).release_queue(), idx as u8), idx as int)
                &&& final(self).ready_queue() == without(old(self).ready_queue(), idx as u8)
                &&& final(self).periodic_set() == old(self).periodic_set().update(idx as int, false)
                &&& final(self).spec_len() == old(self).spec_len()
                &&& final(self).order() == old(self).order()
            },
    {
        if idx >= self.len as usize {
            return None;
        }
        self.remove_release(idx);
        let _ = self.take_selected(idx);
        let ghost mid = self.release@;
        proof {
            assert(without(without(old(self).release@, idx as u8), idx as u8) == without(old(self).release@, idx as u8)) by {
                lemma_without_absent(without(old(self).release@, idx as u8), idx as u8);
            }
        }
        self.finish_poll(idx, now_us, duration_us, result, true)
    }

    /// Record a poll of a task already taken by `take_selected`.
    pub fn record_selected_poll(&mut self, idx: usize, now_us: u64, duration_us: u32, result: Poll, periodic_release: bool) -> (r: Option<TaskStats>)
        requires
            old(self).wf(),
        ensures
            final(self).wf(),
            idx >= old(self).spec_len() ==> r is None && *final(self) == *old(self),
            idx < old(self).spec_len() ==> {
                let slot = old(self).spec_slots()[idx as int].unwrap();
                let stats = polled_stats(slot, now_us, duration_us, result, periodic_release);
                &&& r == Some(stats)
                &&& final(self).spec_slots() == old(self).spec_slots().update(idx as int, Some(TaskSlot { stats, ..slot }))
                &&& final(self).release_queue() == if periodic_release {
                    release_insert(final(self).spec_slots(), without(old(self).release_queue(), idx as u8), idx as int)
                } else {
                    old(self).release_queue()
                }
                &&& final(self).ready_queue() == old(self).ready_queue()
                &&& final(self).periodic_set() == old(self).periodic_set()
                &&& final(self).spec_len() == old(self).spec_len()
                &&& final(self).order() == old(self).order()
            },
    {
        if idx >= self.len as usize {
            return None;
        }
        self.finish_poll(idx, now_us, duration_us, result, periodic_release)
    }

    fn finish_skip(&mut self, idx: usize, now_us: u64)
        requires
            old(self).wf(),
            idx < old(self).len,
        ensures
            final(self).wf(),
            final(self).slots@ == old(self).slots@.update(idx as int, Some(TaskSlot {
                stats: skipped_stats(old(self).slots@[idx as int].unwrap(), now_us),
                ..old(self).slots@[idx as int].unwrap()
            })),
            final(self).release@ == release_insert(final(self).slots@, without(old(self).release@, idx as u8), idx as int),
            final(self).ready == old(self).ready,
            final(self).periodic == old(self).periodic,
            final(self).len == old(self).len,
            final(self).intra_class_order == old(self).intra_class_order,
    {
        let mut slot = self.slots[idx].unwrap();
        let period = slot.meta.period_us as u64;
        let skipped = (now_us.saturating_sub(slot.stats.next_due_us) / period).saturating_add(1);
        let missed = if skipped > u32::MAX as u64 { u32::MAX } else { skipped as u32 };
        slot.stats.missed_releases = slot.stats.missed_releases.saturating_add(missed);
        slot.stats.next_due_us = slot.stats.next_due_us.saturating_add(saturating_mul_u64(skipped, period));
        self.slots[idx] = Some(slot);
        self.relink_release(idx);
    }

    /// Skip one release without running it: it counts as missed and the
    /// phase-anchored next release advances.
    pub fn skip_release(&mut self, idx: usize, now_us: u64)
        requires
            old(self).wf(),
        ensures
            final(self).wf(),
            idx >= old(self).spec_len() ==> *final(self) == *old(self),
            idx < old(self).spec_len() ==> {
                let slot = old(self).spec_slots()[idx as int].unwrap();
                &&& final(self).spec_slots() == old(self).spec_slots().update(idx as int, Some(TaskSlot { stats: skipped_stats(slot, now_us), ..slot }))
                &&& final(self).release_queue() == release_insert(final(self).spec_slots(), without(old(self).release_queue(), idx as u8), idx as int)
                &&& final(self).ready_queue() == without(old(self).ready_queue(), idx as u8)
                &&& final(self).periodic_set() == old(self).periodic_set().update(idx as int, false)
                &&& final(self).spec_len() == old(self).spec_len()
                &&& final(self).order() == old(self).order()
            },
    {
        if idx >= self.len as usize {
            return;
        }
        self.remove_release(idx);
        let _ = self.take_selected(idx);
        proof {
            lemma_without_absent(without(old(self).release@, idx as u8), idx as u8);
        }
        self.finish_skip(idx, now_us);
    }

    /// Skip a release of a task already taken by `take_selected`.
    pub fn skip_selected_release(&mut self, idx: usize, now_us: u64, periodic_release: bool)
        requires
            old(self).wf(),
        ensures
            final(self).wf(),
            (idx >= old(self).spec_len() || !periodic_release) ==> *final(self) == *old(self),
            idx < old(self).spec_len() && periodic_release ==> {
                let slot = old(self).spec_slots()[idx as int].unwrap();
                &&& final(self).spec_slots() == old(self).spec_slots().update(idx as int, Some(TaskSlot { stats: skipped_stats(slot, now_us), ..slot }))
                &&& final(self).release_queue() == release_insert(final(self).spec_slots(), without(old(self).release_queue(), idx as u8), idx as int)
                &&& final(self).ready_queue() == old(self).ready_queue()
                &&& final(self).periodic_set() == old(self).periodic_set()
                &&& final(self).spec_len() == old(self).spec_len()
                &&& final(self).order() == old(self).order()
            },
    {
        if idx >= self.len as usize {
            return;
        }
        if periodic_release {
            self.finish_skip(idx, now_us);
        }
    }

    /// The slot a full scan selects: due tasks only, higher criticality
    /// first, then the earlier release.
    pub fn due_index(&self, now_us: u64) -> (r: Option<usize>)
        ensures
            r matches Some(i) ==> due_pick(self.spec_slots(), now_us, N as int) == Some(i as int),
            r is None ==> due_pick(self.spec_slots(), now_us, N as int) is None,
    {
        let mut selected: Option<usize> = None;
        let mut idx: usize = 0;
        while idx < N
            invariant
                idx <= N,
                selected matches Some(p) ==> due_pick(self.slots@, now_us, idx as int) == Some(p as int) && p < idx,
                selected is None ==> due_pick(self.slots@, now_us, idx as int) is None,
                forall|k: int| 0 <= k <= idx ==> (#[trigger] due_pick(self.slots@, now_us, k) matches Some(q) ==> 0 <= q < k && self.slots@[q] is Some),
            decreases N - idx,
        {
            proof {
                let k = idx as int + 1;
                assert(due_pick(self.slots@, now_us, k) matches Some(q) ==> 0 <= q < k && self.slots@[q] is Some);
            }
            if let Some(slot) = self.slots[idx] {
                if now_us >= slot.stats.next_due_us {
                    selected = match selected {
                        None => Some(idx),
                        Some(prev_idx) => {
                            let prev = self.slots[prev_idx].unwrap();
                            let (sc, pc) = (slot.meta.criticality.rank(), prev.meta.criticality.rank());
                            if sc > pc || (sc == pc && slot.stats.next_due_us < prev.stats.next_due_us) {
                                Some(idx)
                            } else {
                                Some(prev_idx)
                            }
                        },
                    };
                }
            }
            idx += 1;
        }
        selected
    }
}

impl<const N: usize, const READY_WORDS: usize> TaskTable<N, READY_WORDS> {
    /// The ready membership as a slot mask.
    pub fn ready_words(&self) -> (r: [u32; READY_WORDS])
        requires
            self.wf(),
        ensures
            r@ == mask_of(self.ready_queue(), READY_WORDS as nat),
            forall|t: int| 0 <= t < 32 * READY_WORDS ==> (#[trigger] has_slot(r@, t) <==> (t < 256 && self.ready_queue().contains(t as u8))),
    {
        let mut words = [0u32; READY_WORDS];
        assert(words@ =~= mask_of(self.ready@.take(0), READY_WORDS as nat));
        let mut k: usize = 0;
        while k < self.ready.len()
            invariant
                k <= self.ready@.len(),
                words@ == mask_of(self.ready@.take(k as int), READY_WORDS as nat),
            decreases self.ready@.len() - k,
        {
            set_slot(&mut words, self.ready[k] as usize);
            assert(self.ready@.take(k + 1).drop_last() =~= self.ready@.take(k as int));
            k += 1;
        }
        assert(self.ready@.take(k as int) =~= self.ready@);
        proof {
            assert forall|t: int| 0 <= t < 32 * READY_WORDS implies (#[trigger] has_slot(words@, t) <==> (t < 256 && self.ready@.contains(t as u8))) by {
                lemma_mask_of(self.ready@, READY_WORDS as nat, t);
            }
        }
        words
    }

    /// The earliest release group: its release time and the mask of its tasks.
    pub fn next_release_arm_words(&self) -> (r: Option<DeadlineReleaseArmWords<READY_WORDS>>)
        requires
            self.wf(),
        ensures
            self.release_queue().len() == 0 ==> r is None,
            self.release_queue().len() > 0 ==> (r matches Some(a) && a.deadline_us == due_at(self.spec_slots(), self.release_queue()[0] as int)
                && a.ready_words@ == mask_of(front_group(self.spec_slots(), self.release_queue()), READY_WORDS as nat)),
    {
        if self.release.len() == 0 {
            return None;
        }
        let ghost q = self.release@;
        let ghost slots = self.slots@;
        let ghost breaks = group_breaks(slots, q);
        let deadline_us = self.due_of(self.release[0] as usize);
        let mut words = [0u32; READY_WORDS];
        assert(words@ =~= mask_of(q.take(0), READY_WORDS as nat));
        let mut k: usize = 0;
        while k < self.release.len() && self.due_of(self.release[k] as usize) == deadline_us
            invariant
                self.wf(),
                q == self.release@,
                slots == self.slots@,
                breaks == group_breaks(slots, q),
                q.len() > 0,
                deadline_us == due_at(slots, q[0] as int),
                k <= q.len(),
                words@ == mask_of(q.take(k as int), READY_WORDS as nat),
                first_some(breaks, k as int) is None,
            decreases q.len() - k,
        {
            assert(breaks(k as int) == group_breaks(slots, q)(k as int));
            set_slot(&mut words, self.release[k] as usize);
            assert(q.take(k + 1).drop_last() =~= q.take(k as int));
            k += 1;
        }
        proof {
            if k < q.len() {
                assert(breaks(k as int) == group_breaks(slots, q)(k as int));
                lemma_first_some_hit(breaks, k as int, q.len() as int);
            }
        }
        Some(DeadlineReleaseArmWords { deadline_us, ready_words: words })
    }

    /// Single-word form of the earliest release group.
    pub fn next_release_arm(&self) -> (r: Option<DeadlineReleaseArm>)
        requires
            self.wf(),
        ensures
            self.release_queue().len() == 0 ==> r is None,
            self.release_queue().len() > 0 ==> r == Some(DeadlineReleaseArm {
                deadline_us: due_at(self.spec_slots(), self.release_queue()[0] as int),
                ready_mask: if READY_WORDS > 0 {
                    mask_of(front_group(self.spec_slots(), self.release_queue()), READY_WORDS as nat)[0]
                } else {
                    0
                },
            }),
    {
        match self.next_release_arm_words() {
            None => None,
            Some(arm) => {
                let ready_mask = if READY_WORDS > 0 { arm.ready_words[0] } else { 0 };
                Some(DeadlineReleaseArm { deadline_us: arm.deadline_us, ready_mask })
            },
        }
    }

    /// Accept the slot mask published by a compare ISR. Bits naming no
    /// registered slot reject the whole hand-off; otherwise it is accepted
    /// only when it names exactly the due front release group, which is then
    /// released as by a sweep. A rejection leaves the table unchanged.
    pub fn accept_isr_release_words(&mut self, candidates: [u32; READY_WORDS], now_us: u64) -> (r: IsrReleaseReceipt)
        requires
            old(self).wf(),
        ensures
            final(self).wf(),
            ({
                let stray = stray_count(candidates@, old(self).spec_len(), READY_WORDS as int);
                let slots = old(self).spec_slots();
                let release = old(self).release_queue();
                if stray > 0 {
                    r == IsrReleaseReceipt { accepted: 0, rejected: saturate(stray) } && *final(self) == *old(self)
                } else if !isr_matches(slots, release, READY_WORDS as nat, candidates@, now_us) {
                    r == IsrReleaseReceipt { accepted: 0, rejected: saturate(mask_count(candidates@, READY_WORDS as int)) }
                        && *final(self) == *old(self)
                } else {
                    let g = group_len(slots, release);
                    let group = front_group(slots, release);
                    &&& r == IsrReleaseReceipt { accepted: g as u32, rejected: 0 }
                    &&& final(self).spec_slots() == with_width(slots, group, width_of(g))
                    &&& final(self).release_queue() == release.skip(g)
                    &&& final(self).ready_queue() == enqueue_all(old(self).order(), slots, old(self).ready_queue(), group)
                    &&& final(self).periodic_set() == with_periodic(old(self).periodic_set(), group)
                    &&& final(self).spec_len() == old(self).spec_len()
                    &&& final(self).order() == old(self).order()
                }
            }),
    {
        let stray = mask_strays(&candidates, self.len as usize);
        if stray != 0 {
            return IsrReleaseReceipt { accepted: 0, rejected: stray };
        }
        let matched = match self.next_release_arm_words() {
            None => false,
            Some(arm) => READY_WORDS > 0 && arm.deadline_us <= now_us && masks_equal(&arm.ready_words, &candidates),
        };
        if !matched {
            return IsrReleaseReceipt { accepted: 0, rejected: mask_total(&candidates) };
        }
        proof { lemma_distinct_len(self.release@, self.len as int); }
        let g = self.release_front_group();
        IsrReleaseReceipt { accepted: g as u32, rejected: 0 }
    }

    /// Single-word form of `accept_isr_release_words`: the mask fills the
    /// first word.
    pub fn accept_isr_releases(&mut self, ready_mask: u32, now_us: u64) -> (r: IsrReleaseReceipt)
        requires
            old(self).wf(),
        ensures
            final(self).wf(),
            ({
                let candidates = if READY_WORDS > 0 {
                    Seq::new(READY_WORDS as nat, |i: int| if i == 0 { ready_mask } else { 0u32 })
                } else {
                    Seq::<u32>::empty()
                };
                let stray = stray_count(candidates, old(self).spec_len(), READY_WORDS as int);
                let slots = old(self).spec_slots();
                let release = old(self).release_queue();
                if stray > 0 {
                    r == IsrReleaseReceipt { accepted: 0, rejected: saturate(stray) } && *final(self) == *old(self)
                } else if !isr_matches(slots, release, READY_WORDS as nat, candidates, now_us) {
                    r == IsrReleaseReceipt { accepted: 0, rejected: saturate(mask_count(candidates, READY_WORDS as int)) }
                        && *final(self) == *old(self)
                } else {
                    let g = group_len(slots, release);
                    let group = front_group(slots, release);
                    &&& r == IsrReleaseReceipt { accepted: g as u32, rejected: 0 }
                    &&& final(self).spec_slots() == with_width(slots, group, width_of(g))
                    &&& final(self).release_queue() == release.skip(g)
                    &&& final(self).ready_queue() == enqueue_all(old(self).order(), slots, old(self).ready_queue(), group)
                    &&& final(self).periodic_set() == with_periodic(old(self).periodic_set(), group)
                    &&& final(self).spec_len() == old(self).spec_len()
                    &&& final(self).order() == old(self).order()
                }
            }),
    {
        let mut words = [0u32; READY_WORDS];
        if READY_WORDS > 0 {
            words[0] = ready_mask;
        }
        let ghost candidates = if READY_WORDS > 0 {
            Seq::new(READY_WORDS as nat, |i: int| if i == 0 { ready_mask } else { 0u32 })
        } else {
            Seq::<u32>::empty()
        };
        assert(words@ =~= candidates);
        self.accept_isr_release_words(words, now_us)
    }

    /// Release due groups, select the next task, and report the sweep.
    pub fn due_sweep(&mut self, now_us: u64) -> (r: DueSweep)
        requires
            old(self).wf(),
        ensures
            final(self).wf(),
            (final(self).spec_slots(), final(self).release_queue(), final(self).ready_queue(), final(self).periodic_set(), r.inspected_slots as int)
                == release_due(old(self).order(), old(self).spec_slots(), old(self).release_queue(), old(self).ready_queue(), old(self).periodic_set(), now_us),
            final(self).spec_len() == old(self).spec_len(),
            final(self).order() == old(self).order(),
            r.selected == if final(self).ready_queue().len() == 0 {
                None
            } else {
                let index = final(self).ready_queue()[0] as int;
                Some(DueSelection {
                    index: index as usize,
                    release_us: if final(self).periodic_set()[index] { due_at(final(self).spec_slots(), index) } else { now_us },
                })
            },
            r.due_tasks == final(self).ready_queue().len(),
            r.simultaneous_width == match r.selected {
                Some(s) => final(self).spec_slots()[s.index as int].unwrap().stats.release_group_width as u32,
                None => 0,
            },
            r.peer_inspected_slots == 0,
            r.next_release_us == if final(self).release_queue().len() > 0 {
                Some(due_at(final(self).spec_slots(), final(self).release_queue()[0] as int))
            } else {
                None
            },
    {
        let released = self.mark_due_releases(now_us);
        let selected = match self.ready_selection() {
            None => None,
            Some(mut selection) => {
                if !self.periodic[selection.index] {
                    selection.release_us = now_us;
                }
                Some(selection)
            },
        };
        let simultaneous_width: u32 = match selected {
            Some(selection) => match self.slots[selection.index] {
                Some(slot) => slot.stats.release_group_width as u32,
                None => 0,
            },
            None => 0,
        };
        proof { lemma_distinct_len(self.ready@, self.len as int); }
        let next_release_us = if self.release.len() > 0 {
            Some(self.due_of(self.release[0] as usize))
        } else {
            None
        };
        DueSweep {
            selected,
            inspected_slots: released,
            due_tasks: self.ready.len() as u32,
            simultaneous_width,
            peer_inspected_slots: 0,
            next_release_us,
        }
    }
}

impl<const N: usize, const READY_WORDS: usize> TaskTable<N, READY_WORDS> {
    /// Restart the release schedule at `now_us` when nothing has run yet: no
    /// task is ready and none was polled. Returns whether it restarted.
    pub fn rebase_unstarted_epoch(&mut self, now_us: u64) -> (r: bool)
        requires
            old(self).wf(),
        ensures
            final(self).wf(),
            r == (old(self).ready_queue().len() == 0 && !any_polled(old(self).spec_slots(), old(self).spec_len())),
            !r ==> *final(self) == *old(self),
            r ==> {
                &&& final(self).spec_slots() == rebased(old(self).spec_slots(), now_us)
                &&& final(self).release_queue() == release_all(final(self).spec_slots(), old(self).spec_len())
                &&& final(self).ready_queue() == old(self).ready_queue()
                &&& final(self).periodic_set() == old(self).periodic_set()
                &&& final(self).spec_len() == old(self).spec_len()
                &&& final(self).order() == old(self).order()
            },
    {
        if self.ready.len() > 0 {
            return false;
        }
        let len = self.len as usize;
        let mut i: usize = 0;
        while i < len
            invariant
                i <= len,
                len == self.len,
                self.wf(),
                *self == *old(self),
                forall|k: int| 0 <= k < i ==> #[trigger] self.slots@[k].unwrap().stats.polls == 0,
            decreases len - i,
        {
            if let Some(slot) = self.slots[i] {
                if slot.stats.polls != 0 {
                    assert(self.slots@[i as int].unwrap().stats.polls != 0);
                    return false;
                }
            }
            i += 1;
        }
        let ghost slots0 = self.slots@;
        self.release = Vec::new();
        let mut i: usize = 0;
        while i < len
            invariant
                i <= len,
                len == self.len,
                len <= N,
                slots0 == old(self).slots@,
                self.wf(),
                self.release@.len() == 0,
                self.ready == old(self).ready,
                self.periodic == old(self).periodic,
                self.intra_class_order == old(self).intra_class_order,
                forall|k: int| 0 <= k < N ==> #[trigger] self.slots@[k] == if k < i { rebased(slots0, now_us)[k] } else { slots0[k] },
            decreases len - i,
        {
            let ghost before = self.slots@;
            let mut slot = self.slots[i].unwrap();
            slot.stats.next_due_us = now_us.saturating_add(slot.meta.phase_us as u64);
            self.slots[i] = Some(slot);
            proof {
                assert forall|k: int| 0 <= k < N implies (#[trigger] self.slots@[k] is Some <==> k < self.len) by {
                    assert(before[k] is Some <==> k < self.len);
                }
                assert forall|k: int| 0 <= k < self.len implies (#[trigger] self.slots@[k]).unwrap().meta.period_us > 0 by {
                    assert(before[k].unwrap().meta.period_us > 0);
                }
            }
            i += 1;
        }
        assert(self.slots@ =~= rebased(slots0, now_us));
        let mut i: usize = 0;
        while i < len
            invariant
                i <= len,
                len == self.len,
                self.wf(),
                self.slots@ == rebased(slots0, now_us),
                self.release@ == release_all(self.slots@, i as int),
                forall|k: int| 0 <= k < self.release@.len() ==> #[trigger] self.release@[k] < i,
                self.ready == old(self).ready,
                self.periodic == old(self).periodic,
                self.intra_class_order == old(self).intra_class_order,
            decreases len - i,
        {
            let ghost before = self.release@;
            proof {
                if before.contains(i as u8) {
                    let k = choose|k: int| 0 <= k < before.len() && before[k] == i as u8;
                    assert(before[k] < i);
                }
            }
            self.insert_release(i);
            proof {
                let p = release_insert_pos(self.slots@, before, i as int);
                let f = release_slots(self.slots@, before, i as int);
                if first_some(f, before.len() as int) is Some {
                    let w = crate::scan::lemma_first_some_witness(f, before.len() as int);
                }
                assert(self.release@ == before.insert(p, i as u8));
                assert forall|k: int| 0 <= k < self.release@.len() implies #[trigger] self.release@[k] < i + 1 by {
                    if k < p {
                        assert(self.release@[k] == before[k]);
                    } else if k > p {
                        assert(self.release@[k] == before[k - 1]);
                    }
                }
            }
            i += 1;
        }
        true
    }

    /// Take a task out of this table for a transfer: its slot, ready,
    /// periodic and release membership travel with it, and the slots after it
    /// move down one place in every queue.
    pub fn detach_for_transfer(&mut self, module: ModuleId) -> (r: Result<TaskTransferState, TaskTableError>)
        requires
            old(self).wf(),
        ensures
            final(self).wf(),
            slot_of(old(self).spec_slots(), module) is None ==> r == Err::<TaskTransferState, TaskTableError>(TaskTableError::UnknownTask(module))
                && *final(self) == *old(self),
            slot_of(old(self).spec_slots(), module) matches Some(i) ==> (r matches Ok(state) && {
                &&& state.valid()
                &&& state.spec_slot() == old(self).spec_slots()[i].unwrap()
                &&& state.spec_ready() == old(self).ready_queue().contains(i as u8)
                &&& state.spec_periodic_ready() == old(self).periodic_set()[i]
                &&& state.spec_release_linked() == old(self).release_queue().contains(i as u8)
                &&& final(self).spec_slots() == old(self).spec_slots().remove(i).push(None)
                &&& final(self).spec_len() == old(self).spec_len() - 1
                &&& final(self).release_queue() == collapse(without(old(self).release_queue(), i as u8), i)
                &&& final(self).ready_queue() == collapse(without(old(self).ready_queue(), i as u8), i)
                &&& final(self).periodic_set() == old(self).periodic_set().remove(i).push(false)
                &&& final(self).order() == old(self).order()
            }),
    {
        let index = match self.slot_index(module) {
            Some(index) => index,
            None => {
                return Err(TaskTableError::UnknownTask(module));
            },
        };
        proof {
            let w = crate::scan::lemma_first_some_witness(module_hits(self.slots@, module), N as int);
        }
        let slot = self.slots[index].unwrap();
        let ready = self.is_ready(index as u8);
        let periodic_ready = self.periodic[index];
        let release_linked = match self.release_index_of(index as u8) {
            Some(_) => true,
            None => false,
        };
        proof {
            let f = index_of_entry(self.release@, index as u8);
            if release_linked {
                let w = crate::scan::lemma_first_some_witness(f, self.release@.len() as int);
            } else if self.release@.contains(index as u8) {
                let j = choose|j: int| 0 <= j < self.release@.len() && self.release@[j] == index as u8;
                lemma_first_some_none_all(f, self.release@.len() as int);
                assert(f(j) is None);
            }
        }
        let ghost periodic0 = self.periodic@;
        let ghost ready0 = self.ready@;
        self.remove_release(index);
        self.take_selected(index);
        proof {
            let f = index_of_entry(ready0, index as u8);
            match first_some(f, ready0.len() as int) {
                Some(p) => {
                    let w = crate::scan::lemma_first_some_witness(f, ready0.len() as int);
                    lemma_remove_distinct(ready0, p, self.len as int);
                },
                None => {
                    if ready0.contains(index as u8) {
                        let j = choose|j: int| 0 <= j < ready0.len() && ready0[j] == index as u8;
                        lemma_first_some_none_all(f, ready0.len() as int);
                        assert(f(j) is None);
                    }
                },
            }
        }
        let ghost mid = *self;
        let old_len = self.len as usize;
        let mut slots = self.slots;
        let mut c: usize = index;
        while c + 1 < old_len
            invariant
                index <= c < old_len <= N,
                forall|k: int| 0 <= k < N ==> #[trigger] slots@[k] == if index <= k < c { mid.slots@[k + 1] } else { mid.slots@[k] },
            decreases old_len - c,
        {
            slots[c] = slots[c + 1];
            c += 1;
        }
        slots[old_len - 1] = None;
        proof {
            assert(slots@ =~= mid.slots@.remove(index as int).push(None));
        }
        self.slots = slots;
        self.len = self.len - 1;
        let release = collapse_queue(&self.release, index);
        let ready_q = collapse_queue(&self.ready, index);
        proof {
            lemma_collapse(mid.release@, index as int, old_len as int);
            lemma_collapse(mid.ready@, index as int, old_len as int);
            lemma_collapse_ordered(mid.slots@, mid.ready@, index as int);
        }
        self.release = release;
        self.ready = ready_q;
        self.periodic.remove(index);
        self.periodic.push(false);
        proof {
            assert forall|k: int| 0 <= k < N implies (#[trigger] self.slots@[k] is Some <==> k < self.len) by {
                if k < index {
                    assert(mid.slots@[k] is Some);
                } else if k < N - 1 {
                    assert(self.slots@[k] == mid.slots@[k + 1]);
                    assert(mid.slots@[k + 1] is Some <==> k + 1 < old_len);
                }
            }
            assert forall|k: int| 0 <= k < self.len implies (#[trigger] self.slots@[k]).unwrap().meta.period_us > 0 by {
                if k < index {
                    assert(mid.slots@[k].unwrap().meta.period_us > 0);
                } else {
                    assert(mid.slots@[k + 1].unwrap().meta.period_us > 0);
                }
            }
            assert forall|k: int| 0 <= k < N && #[trigger] self.periodic@[k] implies self.ready@.contains(k as u8) by {
                let j = if k < index { k } else { k + 1 };
                assert(mid.periodic@[j]);
                assert(mid.ready@.contains(j as u8));
                assert(j != index);
            }
            assert(self.periodic@ =~= periodic0.remove(index as int).push(false)) by {
                assert(mid.periodic@ == periodic0.update(index as int, false));
            }
        }
        Ok(TaskTransferState { slot, ready, periodic_ready, release_linked })
    }

    /// The task contracts this table would hold after receiving `meta` by
    /// transfer, or why it cannot receive it.
    pub fn metas_with_transferred(&self, meta: TaskMeta) -> (r: Result<[Option<TaskMeta>; N], TaskTableError>)
        requires
            self.wf(),
        ensures
            transfer_verdict(N as int, self.spec_len(), self.spec_slots(), meta) matches Some(e)
                ==> r == Err::<[Option<TaskMeta>; N], TaskTableError>(e),
            transfer_verdict(N as int, self.spec_len(), self.spec_slots(), meta) is None ==> (r matches Ok(m) && forall|i: int|
                0 <= i < N ==> #[trigger] m@[i] == if i == self.spec_len() { Some(meta) } else { meta_of(self.spec_slots()[i]) }),
    {
        if N > 32 {
            return Err(TaskTableError::ReadyMaskCapacity);
        }
        let len = self.len as usize;
        if len >= N {
            return Err(TaskTableError::Full);
        }
        let mut i: usize = 0;
        while i < len
            invariant
                i <= len,
                len == self.len,
                len < N,
                N <= 32,
                self.wf(),
                forall|k: int| 0 <= k < i ==> #[trigger] self.slots@[k].unwrap().meta.module != meta.module,
            decreases len - i,
        {
            if let Some(slot) = self.slots[i] {
                if slot.meta.module == meta.module {
                    assert(self.slots@[i as int].unwrap().meta.module == meta.module);
                    return Err(TaskTableError::DuplicateTask(meta.module));
                }
            }
            i += 1;
        }
        let mut metas = self.metas();
        metas[len] = Some(meta);
        Ok(metas)
    }

    /// Receive a task detached from another table into the next free slot,
    /// re-linking it into the queues it was part of.
    pub fn attach_transferred(&mut self, state: TaskTransferState) -> (r: Result<(), TaskTableError>)
        requires
            old(self).wf(),
            state.valid(),
        ensures
            final(self).wf(),
            transfer_verdict(N as int, old(self).spec_len(), old(self).spec_slots(), state.spec_slot().meta) matches Some(e)
                ==> r == Err::<(), TaskTableError>(e) && *final(self) == *old(self),
            transfer_verdict(N as int, old(self).spec_len(), old(self).spec_slots(), state.spec_slot().meta) is None ==> ({
                let i = old(self).spec_len();
                let slots = old(self).spec_slots().update(i, Some(state.spec_slot()));
                &&& r is Ok
                &&& final(self).spec_slots() == slots
                &&& final(self).spec_len() == i + 1
                &&& final(self).release_queue() == if state.spec_release_linked() {
                    release_insert(slots, old(self).release_queue(), i)
                } else {
                    old(self).release_queue()
                }
                &&& final(self).ready_queue() == if state.spec_ready() {
                    ready_insert(old(self).order(), slots, old(self).ready_queue(), i)
                } else {
                    old(self).ready_queue()
                }
                &&& final(self).periodic_set() == if state.spec_ready() && state.spec_periodic_ready() {
                    old(self).periodic_set().update(i, true)
                } else {
                    old(self).periodic_set()
                }
                &&& final(self).order() == old(self).order()
            }),
    {
        match self.metas_with_transferred(state.slot.meta) {
            Err(e) => {
                return Err(e);
            },
            Ok(_) => {},
        }
        let index = self.len as usize;
        let ghost before = *self;
        self.slots[index] = Some(state.slot);
        self.len = self.len + 1;
        proof {
            assert forall|k: int| 0 <= k < N implies (#[trigger] self.slots@[k] is Some <==> k < self.len) by {
                assert(before.slots@[k] is Some <==> k < before.len);
            }
            assert forall|k: int| 0 <= k < self.len implies (#[trigger] self.slots@[k]).unwrap().meta.period_us > 0 by {
                if k < index {
                    assert(before.slots@[k].unwrap().meta.period_us > 0);
                }
            }
            assert forall|k: int| 0 <= k < self.release@.len() implies (#[trigger] self.release@[k]) < self.len by {
                assert(before.release@[k] < before.len);
            }
            assert forall|k: int| 0 <= k < self.ready@.len() implies (#[trigger] self.ready@[k]) < self.len by {
                assert(before.ready@[k] < before.len);
            }
        }
        if state.release_linked {
            proof {
                if self.release@.contains(index as u8) {
                    let k = choose|k: int| 0 <= k < self.release@.len() && self.release@[k] == index as u8;
                    assert(before.release@[k] < before.len);
                }
            }
            self.insert_release(index);
        }
        if state.ready {
            proof {
                if self.ready@.contains(index as u8) {
                    let k = choose|k: int| 0 <= k < self.ready@.len() && self.ready@[k] == index as u8;
                    assert(before.ready@[k] < before.len);
                }
            }
            self.enqueue_ready(index);
            if state.periodic_ready {
                let ghost ready_now = self.ready@;
                self.periodic.set(index, true);
                proof {
                    assert forall|k: int| 0 <= k < N && #[trigger] self.periodic@[k] implies self.ready@.contains(k as u8) by {
                        if k == index {
                            assert(ready_now.contains(index as u8));
                        }
                    }
                }
            }
        }
        Ok(())
    }
}

impl<const N: usize, const READY_WORDS: usize> Default for TaskTable<N, READY_WORDS> {
    fn default() -> (r: Self)
        ensures
            r.wf(),
            r.spec_len() == 0,
            r.release_queue().len() == 0,
            r.ready_queue().len() == 0,
            r.order() == IntraClassOrder::Fifo,
    {
        Self::new()
    }
}

/// Rename the entries of a queue after slot `removed` leaves.
fn collapse_queue(q: &Vec<u8>, removed: usize) -> (r: Vec<u8>)
    ensures
        r@ == collapse(q@, removed as int),
{
    let mut r: Vec<u8> = Vec::new();
    let mut k: usize = 0;
    while k < q.len()
        invariant
            k <= q@.len(),
            r@ == collapse(q@.take(k as int), removed as int),
        decreases q@.len() - k,
    {
        let x = q[k];
        let y = if x as usize > removed { x - 1 } else { x };
        r.push(y);
        proof {
            assert(collapse(q@.take(k + 1), removed as int) =~= collapse(q@.take(k as int), removed as int).push(y));
        }
        k += 1;
    }
    assert(q@.take(k as int) =~= q@);
    r
}

/// Renaming after a removal keeps a queue distinct and within the smaller
/// table, and maps membership one for one.
proof fn lemma_collapse(q: Seq<u8>, removed: int, len: int)
    requires
        distinct_below(q, len),
        !q.contains(removed as u8),
        0 <= removed < len <= 256,
    ensures
        distinct_below(collapse(q, removed), len - 1),
        forall|x: u8| #[trigger] q.contains(x) && x as int > removed ==> collapse(q, removed).contains((x - 1) as u8),
        forall|x: u8| #[trigger] q.contains(x) && (x as int) < removed ==> collapse(q, removed).contains(x),
        forall|y: u8| #[trigger] collapse(q, removed).contains(y) ==> if (y as int) < removed { q.contains(y) } else { y + 1 < 256 && q.contains((y + 1) as u8) },
{
    let c = collapse(q, removed);
    assert forall|a: int| 0 <= a < c.len() implies (#[trigger] c[a]) < len - 1 by {
        assert(q[a] < len);
        if q[a] as int == removed {
            assert(q.contains(removed as u8));
        }
    }
    assert forall|a: int, b: int| 0 <= a < b < c.len() implies #[trigger] c[a] != #[trigger] c[b] by {
        assert(q[a] != q[b]);
        if q[a] as int == removed {
            assert(q.contains(removed as u8));
        }
        if q[b] as int == removed {
            assert(q.contains(removed as u8));
        }
    }
    assert forall|x: u8| #[trigger] q.contains(x) && x as int > removed implies c.contains((x - 1) as u8) by {
        let j = choose|j: int| 0 <= j < q.len() && q[j] == x;
        assert(c[j] == (x - 1) as u8);
    }
    assert forall|x: u8| #[trigger] q.contains(x) && (x as int) < removed implies c.contains(x) by {
        let j = choose|j: int| 0 <= j < q.len() && q[j] == x;
        assert(c[j] == x);
    }
    assert forall|y: u8| #[trigger] c.contains(y) implies (if (y as int) < removed { q.contains(y) } else { y + 1 < 256 && q.contains((y + 1) as u8) }) by {
        let j = choose|j: int| 0 <= j < c.len() && c[j] == y;
        assert(q[j] < len);
        if q[j] as int == removed {
            assert(q.contains(removed as u8));
        }
        if q[j] as int > removed {
            assert(q[j] == (y + 1) as u8);
        } else {
            assert(q[j] == y);
        }
    }
}

/// Safety criticality always decides dispatch first: in every well-formed
/// table, whatever its intra-class policy, no ready task stands ahead of a
/// more critical one.
pub proof fn ready_order_is_critical_first<const N: usize, const READY_WORDS: usize>(
    table: TaskTable<N, READY_WORDS>,
    a: int,
    b: int,
)
    requires
        table.wf(),
        0 <= a < b < table.ready_queue().len(),
    ensures
        level_at(table.spec_slots(), table.ready_queue()[a] as int) >= level_at(table.spec_slots(), table.ready_queue()[b] as int),
{
}

/// A late periodic poll keeps the task on its phase grid: the next release
/// moves by whole periods to the first release after `now_us`, so missed
/// releases are skipped rather than replayed in a burst (when the new release
/// time fits in 64 bits).
pub proof fn late_poll_keeps_phase(slot: TaskSlot, now_us: u64, duration_us: u32, result: Poll)
    requires
        slot.meta.period_us > 0,
        now_us >= slot.stats.next_due_us,
        slot.stats.next_due_us + ((now_us - slot.stats.next_due_us) / (slot.meta.period_us as int) + 1)
            * slot.meta.period_us <= u64::MAX,
    ensures
        ({
            let old = slot.stats.next_due_us as int;
            let p = slot.meta.period_us as int;
            let n = polled_stats(slot, now_us, duration_us, result, true).next_due_us as int;
            &&& (n - old) % p == 0
            &&& n - p <= now_us < n
        }),
{
    let old = slot.stats.next_due_us as int;
    let p = slot.meta.period_us as int;
    let d = now_us - old;
    let q = d / p;
    assert(d == p * q + d % p && 0 <= d % p < p) by {
        vstd::arithmetic::div_mod::lemma_fundamental_div_mod(d, p);
        vstd::arithmetic::div_mod::lemma_mod_bound(d, p);
    }
    assert(0 <= q) by {
        vstd::arithmetic::div_mod::lemma_div_pos_is_pos(d, p);
    }
    assert((q + 1) * p == p * q + p) by (nonlinear_arith);
    assert(((q + 1) * p) % p == 0) by {
        vstd::arithmetic::div_mod::lemma_mod_multiples_basic(q + 1, p);
    }
    let n = polled_stats(slot, now_us, duration_us, result, true).next_due_us as int;
    assert(n == old + (q + 1) * p);
}

/// Under the FIFO policy a task joining a critical-first ready order goes
/// behind every ready task at least as critical and ahead of every less
/// critical one: a new release never overtakes an older one of its class.
pub proof fn fifo_release_never_overtakes(slots: Seq<Option<TaskSlot>>, q: Seq<u8>, t: int)
    requires
        criticality_ordered(slots, q),
        forall|a: int| 0 <= a < q.len() ==> (#[trigger] slots[q[a] as int]) is Some,
        0 <= t < 256,
        slots[t] is Some,
    ensures
        ({
            let r = ready_insert(IntraClassOrder::Fifo, slots, q, t);
            let p = ready_insert_pos(IntraClassOrder::Fifo, slots, q, t);
            &&& 0 <= p < r.len()
            &&& r[p] == t as u8
            &&& forall|a: int| 0 <= a < p ==> level_at(slots, #[trigger] r[a] as int) >= level_at(slots, t)
            &&& forall|a: int| p < a < r.len() ==> level_at(slots, #[trigger] r[a] as int) < level_at(slots, t)
        }),
{
    let f = ready_slots(IntraClassOrder::Fifo, slots, q, t);
    let p = ready_insert_pos(IntraClassOrder::Fifo, slots, q, t);
    let lt = level_at(slots, t);
    let r = ready_insert(IntraClassOrder::Fifo, slots, q, t);
    if first_some(f, q.len() as int) is Some {
        let w = crate::scan::lemma_first_some_witness(f, q.len() as int);
        assert(f(w) == Some(p));
        lemma_first_some_none_all(f, p);
    } else {
        lemma_first_some_none_all(f, q.len() as int);
    }
    assert forall|a: int| 0 <= a < p implies level_at(slots, #[trigger] r[a] as int) >= lt by {
        assert(r[a] == q[a]);
        assert(f(a) is None);
    }
    assert forall|a: int| p < a < r.len() implies level_at(slots, #[trigger] r[a] as int) < lt by {
        assert(r[a] == q[a - 1]);
        assert(f(p) is Some);
        assert(slots[q[p] as int] is Some);
        if a - 1 > p {
            assert(level_at(slots, q[p] as int) >= level_at(slots, q[a - 1] as int));
        }
    }
}

/// Under the shorter-period policy a task joining the ready order goes behind
/// only tasks that are more critical, or of its own criticality with a period
/// no longer than its own: it overtakes every task of its class whose period
/// is strictly longer.
pub proof fn shorter_period_joins_ahead(slots: Seq<Option<TaskSlot>>, q: Seq<u8>, t: int)
    requires
        forall|a: int| 0 <= a < q.len() ==> (#[trigger] q[a] as int) < slots.len() && slots[q[a] as int] is Some,
        0 <= t < slots.len(),
        t < 256,
        slots[t] is Some,
    ensures
        ({
            let r = ready_insert(IntraClassOrder::ShorterPeriodFirst, slots, q, t);
            let p = ready_insert_pos(IntraClassOrder::ShorterPeriodFirst, slots, q, t);
            let me = slots[t].unwrap().meta;
            &&& 0 <= p <= q.len()
            &&& r[p] == t as u8
            &&& forall|a: int| 0 <= a < p ==> {
                let other = (#[trigger] slots[r[a] as int]).unwrap().meta;
                ||| other.criticality.level() > me.criticality.level()
                ||| (other.criticality.level() == me.criticality.level() && other.period_us <= me.period_us)
            }
            &&& forall|a: int| 0 <= a < q.len() && a >= p ==> r[a + 1] == #[trigger] q[a]
        }),
{
    let order = IntraClassOrder::ShorterPeriodFirst;
    let f = ready_slots(order, slots, q, t);
    let p = ready_insert_pos(order, slots, q, t);
    let r = ready_insert(order, slots, q, t);
    if first_some(f, q.len() as int) is Some {
        let w = crate::scan::lemma_first_some_witness(f, q.len() as int);
        assert(f(w) == Some(p));
        lemma_first_some_none_all(f, p);
    } else {
        lemma_first_some_none_all(f, q.len() as int);
    }
    assert forall|a: int| 0 <= a < p implies {
        let other = (#[trigger] slots[r[a] as int]).unwrap().meta;
        let me = slots[t].unwrap().meta;
        ||| other.criticality.level() > me.criticality.level()
        ||| (other.criticality.level() == me.criticality.level() && other.period_us <= me.period_us)
    } by {
        assert(r[a] == q[a]);
        assert(f(a) is None);
        assert(slots[q[a] as int] is Some);
    }
}

/// Under the shorter-deadline policy a task joining the ready order goes
/// behind only tasks that are more critical, or of its own criticality with a
/// deadline no longer than its own.
pub proof fn shorter_deadline_joins_ahead(slots: Seq<Option<TaskSlot>>, q: Seq<u8>, t: int)
    requires
        forall|a: int| 0 <= a < q.len() ==> (#[trigger] q[a] as int) < slots.len() && slots[q[a] as int] is Some,
        0 <= t < slots.len(),
        t < 256,
        slots[t] is Some,
    ensures
        ({
            let r = ready_insert(IntraClassOrder::ShorterDeadlineFirst, slots, q, t);
            let p = ready_insert_pos(IntraClassOrder::ShorterDeadlineFirst, slots, q, t);
            let me = slots[t].unwrap().meta;
            &&& 0 <= p <= q.len()
            &&& r[p] == t as u8
            &&& forall|a: int| 0 <= a < p ==> {
                let other = (#[trigger] slots[r[a] as int]).unwrap().meta;
                ||| other.criticality.level() > me.criticality.level()
                ||| (other.criticality.level() == me.criticality.level() && other.deadline_us <= me.deadline_us)
            }
        }),
{
    let order = IntraClassOrder::ShorterDeadlineFirst;
    let f = ready_slots(order, slots, q, t);
    let p = ready_insert_pos(order, slots, q, t);
    let r = ready_insert(order, slots, q, t);
    if first_some(f, q.len() as int) is Some {
        let w = crate::scan::lemma_first_some_witness(f, q.len() as int);
        assert(f(w) == Some(p));
        lemma_first_some_none_all(f, p);
    } else {
        lemma_first_some_none_all(f, q.len() as int);
    }
    assert forall|a: int| 0 <= a < p implies {
        let other = (#[trigger] slots[r[a] as int]).unwrap().meta;
        let me = slots[t].unwrap().meta;
        ||| other.criticality.level() > me.criticality.level()
        ||| (other.criticality.level() == me.criticality.level() && other.deadline_us <= me.deadline_us)
    } by {
        assert(r[a] == q[a]);
        assert(f(a) is None);
        assert(slots[q[a] as int] is Some);
    }
}

/// Under the registration-order policy a task joining the ready order goes
/// behind only tasks that are more critical, or of its own criticality and
/// registered no later (in a slot no higher than its own).
pub proof fn registration_order_joins_ahead(slots: Seq<Option<TaskSlot>>, q: Seq<u8>, t: int)
    requires
        forall|a: int| 0 <= a < q.len() ==> (#[trigger] q[a] as int) < slots.len() && slots[q[a] as int] is Some,
        0 <= t < slots.len(),
        t < 256,
        slots[t] is Some,
    ensures
        ({
            let r = ready_insert(IntraClassOrder::RegistrationOrder, slots, q, t);
            let p = ready_insert_pos(IntraClassOrder::RegistrationOrder, slots, q, t);
            let me = slots[t].unwrap().meta;
            &&& 0 <= p <= q.len()
            &&& r[p] == t as u8
            &&& forall|a: int| 0 <= a < p ==> {
                let other = (#[trigger] slots[r[a] as int]).unwrap().meta;
                ||| other.criticality.level() > me.criticality.level()
                ||| (other.criticality.level() == me.criticality.level() && r[a] as int <= t)
            }
        }),
{
    let order = IntraClassOrder::RegistrationOrder;
    let f = ready_slots(order, slots, q, t);
    let p = ready_insert_pos(order, slots, q, t);
    let r = ready_insert(order, slots, q, t);
    if first_some(f, q.len() as int) is Some {
        let w = crate::scan::lemma_first_some_witness(f, q.len() as int);
        assert(f(w) == Some(p));
        lemma_first_some_none_all(f, p);
    } else {
        lemma_first_some_none_all(f, q.len() as int);
    }
    assert forall|a: int| 0 <= a < p implies {
        let other = (#[trigger] slots[r[a] as int]).unwrap().meta;
        let me = slots[t].unwrap().meta;
        ||| other.criticality.level() > me.criticality.level()
        ||| (other.criticality.level() == me.criticality.level() && r[a] as int <= t)
    } by {
        assert(r[a] == q[a]);
        assert(f(a) is None);
        assert(slots[q[a] as int] is Some);
    }
}

/// Joining the ready order where `ready_insert` puts a task keeps the order
/// critical-first.
proof fn lemma_insert_ordered(order: IntraClassOrder, slots: Seq<Option<TaskSlot>>, q: Seq<u8>, t: int)
    requires
        criticality_ordered(slots, q),
        0 <= t < 256,
    ensures
        criticality_ordered(slots, ready_insert(order, slots, q, t)),
{
    let f = ready_slots(order, slots, q, t);
    let p = ready_insert_pos(order, slots, q, t);
    let lt = level_at(slots, t);
    let r = ready_insert(order, slots, q, t);
    if first_some(f, q.len() as int) is Some {
        let w = crate::scan::lemma_first_some_witness(f, q.len() as int);
        assert(f(w) == Some(p));
        assert(p == w);
        lemma_first_some_none_all(f, p);
    } else {
        lemma_first_some_none_all(f, q.len() as int);
    }
    assert(0 <= p <= q.len());
    assert forall|a: int| 0 <= a < p implies level_at(slots, #[trigger] q[a] as int) >= lt by {
        assert(f(a) is None);
    }
    assert(p < q.len() ==> level_at(slots, q[p] as int) <= lt) by {
        if p < q.len() {
            assert(f(p) is Some);
        }
    }
    assert(r[p] == t as u8);
    assert forall|a: int, b: int| 0 <= a < b < r.len() implies level_at(slots, #[trigger] r[a] as int) >= level_at(slots, #[trigger] r[b] as int) by {
        if b < p {
            assert(r[a] == q[a] && r[b] == q[b]);
        } else if b == p {
            assert(r[a] == q[a]);
        } else if a < p {
            assert(r[a] == q[a] && r[b] == q[b - 1]);
            assert(level_at(slots, q[b - 1] as int) <= level_at(slots, q[p] as int));
        } else if a == p {
            assert(r[b] == q[b - 1]);
            assert(level_at(slots, q[b - 1] as int) <= level_at(slots, q[p] as int));
        } else {
            assert(r[a] == q[a - 1] && r[b] == q[b - 1]);
        }
    }
}

/// Renaming after a removal keeps the ready order critical-first under the
/// shifted slots.
proof fn lemma_collapse_ordered(slots: Seq<Option<TaskSlot>>, q: Seq<u8>, removed: int)
    requires
        criticality_ordered(slots, q),
        !q.contains(removed as u8),
        0 <= removed < slots.len(),
        slots.len() <= 256,
        forall|a: int| 0 <= a < q.len() ==> (#[trigger] q[a]) < slots.len(),
    ensures
        criticality_ordered(slots.remove(removed).push(None), collapse(q, removed)),
{
    let s2 = slots.remove(removed).push(None);
    let c = collapse(q, removed);
    assert forall|a: int| 0 <= a < q.len() implies level_at(s2, #[trigger] c[a] as int) == level_at(slots, q[a] as int) by {
        if q[a] as int == removed {
            assert(q.contains(removed as u8));
        }
        if q[a] as int > removed {
            assert(c[a] as int == q[a] - 1);
            assert(s2[q[a] - 1] == slots[q[a] as int]);
        } else {
            assert(c[a] == q[a]);
            assert(s2[q[a] as int] == slots[q[a] as int]);
        }
    }
    assert forall|a: int, b: int| 0 <= a < b < c.len() implies level_at(s2, #[trigger] c[a] as int) >= level_at(s2, #[trigger] c[b] as int) by {
        assert(level_at(s2, c[a] as int) == level_at(slots, q[a] as int));
        assert(level_at(s2, c[b] as int) == level_at(slots, q[b] as int));
    }
}

/// Inserting a fresh index keeps the entries distinct and in range.
proof fn lemma_insert_distinct(q: Seq<u8>, p: int, x: u8, len: int)
    requires
        distinct_below(q, len),
        0 <= p <= q.len(),
        x < len,
        !q.contains(x),
    ensures
        distinct_below(q.insert(p, x), len),
{
    let r = q.insert(p, x);
    assert forall|a: int, b: int| 0 <= a < b < r.len() implies #[trigger] r[a] != #[trigger] r[b] by {
        if a < p && b < p {
        } else if a < p && b == p {
            assert(q[a] == r[a]);
        } else if a < p {
            assert(r[b] == q[b - 1]);
        } else if a == p {
            assert(r[b] == q[b - 1]);
        } else {
            assert(r[a] == q[a - 1] && r[b] == q[b - 1]);
        }
    }
}


/// Distinct entries below `len` number at most `len`.
proof fn lemma_distinct_len(q: Seq<u8>, len: int)
    requires
        distinct_below(q, len),
        0 <= len <= 256,
    ensures
        q.len() <= len,
    decreases len,
{
    if len <= 0 {
        if q.len() > 0 {
            assert(q[0] < len);
        }
    } else if exists|k: int| 0 <= k < q.len() && q[k] == (len - 1) as u8 {
        let k = choose|k: int| 0 <= k < q.len() && q[k] == (len - 1) as u8;
        let r = q.remove(k);
        assert forall|a: int| 0 <= a < r.len() implies (#[trigger] r[a]) < len - 1 by {
            let j = if a < k { a } else { a + 1 };
            assert(r[a] == q[j]);
            assert(q[j] != q[k]);
        }
        assert forall|a: int, b: int| 0 <= a < b < r.len() implies #[trigger] r[a] != #[trigger] r[b] by {
            let ja = if a < k { a } else { a + 1 };
            let jb = if b < k { b } else { b + 1 };
            assert(r[a] == q[ja] && r[b] == q[jb]);
        }
        lemma_distinct_len(r, len - 1);
    } else {
        assert forall|a: int| 0 <= a < q.len() implies (#[trigger] q[a]) < len - 1 by {
            assert(q[a] != (len - 1) as u8);
        }
        lemma_distinct_len(q, len - 1);
    }
}

/// Removing an entry keeps the rest distinct and in range, and drops it.
proof fn lemma_remove_distinct(q: Seq<u8>, k: int, len: int)
    requires
        distinct_below(q, len),
        0 <= k < q.len(),
    ensures
        distinct_below(q.remove(k), len),
        !q.remove(k).contains(q[k]),
        forall|x: u8| #[trigger] q.remove(k).contains(x) ==> q.contains(x),
        forall|x: u8| q.contains(x) && x != q[k] ==> #[trigger] q.remove(k).contains(x),
{
    let r = q.remove(k);
    assert forall|a: int, b: int| 0 <= a < b < r.len() implies #[trigger] r[a] != #[trigger] r[b] by {
        let ja = if a < k { a } else { a + 1 };
        let jb = if b < k { b } else { b + 1 };
        assert(r[a] == q[ja] && r[b] == q[jb]);
    }
    assert forall|a: int| 0 <= a < r.len() implies (#[trigger] r[a]) < len by {
        let j = if a < k { a } else { a + 1 };
        assert(r[a] == q[j]);
    }
    if r.contains(q[k]) {
        let a = choose|a: int| 0 <= a < r.len() && r[a] == q[k];
        let j = if a < k { a } else { a + 1 };
        assert(r[a] == q[j]);
    }
    assert forall|x: u8| #[trigger] r.contains(x) implies q.contains(x) by {
        let a = choose|a: int| 0 <= a < r.len() && r[a] == x;
        let j = if a < k { a } else { a + 1 };
        assert(r[a] == q[j]);
    }
    assert forall|x: u8| q.contains(x) && x != q[k] implies #[trigger] r.contains(x) by {
        let j = choose|j: int| 0 <= j < q.len() && q[j] == x;
        if j < k {
            assert(r[j] == x);
        } else {
            assert(j != k);
            assert(r[j - 1] == x);
        }
    }
}


/// Inserting keeps every entry and adds the new one.
proof fn lemma_insert_keeps(q: Seq<u8>, p: int, x: u8)
    requires
        0 <= p <= q.len(),
    ensures
        q.insert(p, x).contains(x),
        forall|y: u8| #[trigger] q.contains(y) ==> q.insert(p, x).contains(y),
{
    let r = q.insert(p, x);
    assert(r[p] == x);
    assert forall|y: u8| #[trigger] q.contains(y) implies r.contains(y) by {
        let j = choose|j: int| 0 <= j < q.len() && q[j] == y;
        if j < p {
            assert(r[j] == y);
        } else {
            assert(r[j + 1] == y);
        }
    }
}


proof fn lemma_take_contains(s: Seq<u8>, k: int, x: u8)
    requires
        0 <= k < s.len(),
    ensures
        s.take(k + 1).contains(x) == (s.take(k).contains(x) || x == s[k]),
{
    assert(s.take(k + 1) =~= s.take(k).push(s[k]));
    if s.take(k + 1).contains(x) {
        let j = choose|j: int| 0 <= j < k + 1 && #[trigger] s.take(k + 1)[j] == x;
        if j < k {
            assert(s.take(k)[j] == x);
        }
    }
    if s.take(k).contains(x) {
        let j = choose|j: int| 0 <= j < k && #[trigger] s.take(k)[j] == x;
        assert(s.take(k + 1)[j] == x);
    }
    if x == s[k] {
        assert(s.take(k + 1)[k] == x);
    }
}

/// In a distinct sequence, the entry at `k` does not occur before `k`.
proof fn lemma_distinct_take(s: Seq<u8>, k: int)
    requires
        forall|a: int, b: int| 0 <= a < b < s.len() ==> #[trigger] s[a] != #[trigger] s[b],
        0 <= k < s.len(),
    ensures
        !s.take(k).contains(s[k]),
{
    if s.take(k).contains(s[k]) {
        let j = choose|j: int| 0 <= j < k && #[trigger] s.take(k)[j] == s[k];
        assert(s[j] == s[k]);
    }
}


/// Saturating 64-bit product.
fn saturating_mul_u64(a: u64, b: u64) -> (r: u64)
    ensures
        r == sat_mul_u64(a, b),
{
    match a.checked_mul(b) {
        Some(p) => p,
        None => u64::MAX,
    }
}

proof fn lemma_without_absent(q: Seq<u8>, x: u8)
    requires
        !q.contains(x),
    ensures
        without(q, x) == q,
{
    if first_some(index_of_entry(q, x), q.len() as int) is Some {
        let w = crate::scan::lemma_first_some_witness(index_of_entry(q, x), q.len() as int);
        assert(q[w] == x);
    }
}

} // verus!
