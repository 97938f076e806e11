//! The O(1) scheduler: active and expired tasks.
//!
//! Every task belongs to one of two sets. The scheduler picks from the active
//! set. A task that has used up its time slice moves to the expired set, and
//! when nothing is left to run in the active set the two are swapped, which
//! begins a new epoch.
//!
//! At the end of an epoch a task that used its whole slice is taken for one
//! that computes, and one that did not for one that waits for I/O. The sleep
//! average that keeps the score improves the priority of the latter, and with
//! it the length of their slices.

use crate::arith::{max_int, min_int};
use crate::process::{ProcState, NPROC};
use crate::scheduler::scan::{
    lemma_equal_comes_closer, lemma_offer, lemma_skip, picks_least, precedes, scan_slot, turn, Best,
};
use crate::scheduler::Scheduler;
use vstd::prelude::*;

verus! {

/// Number of priorities, from 0, the best, to 39.
pub const NUM_PRIORITIES: usize = 40;

/// Priority of a task that only computes.
pub const BASE_PRIORITY: u8 = 20;

/// Shortest time slice, that of the lowest priority.
pub const MIN_TIMESLICE: u64 = 1;

/// Longest time slice, that of the highest priority.
pub const MAX_TIMESLICE: u64 = 6;

/// Largest sleep average.
pub const MAX_SLEEP_AVG: u64 = 5;

/// Most levels by which the sleep average improves a priority.
pub const MAX_BONUS: u8 = 5;

/// The tables that all CPUs share, indexed by slot.
#[derive(Clone, Copy, Debug)]
pub struct O1Shared {
    /// Priority, 0 being the best.
    pub dyn_priority: [u8; NPROC],
    /// Turns left in this epoch. A task that has not run yet has none assigned.
    pub timeslice: [u64; NPROC],
    /// 0 for a task that computes, `MAX_SLEEP_AVG` for one that waits for I/O.
    pub sleep_avg: [u64; NPROC],
    /// The task has used up its slice and waits for the next epoch.
    pub is_expired: [bool; NPROC],
    /// Number of the current epoch.
    pub epoch: u64,
}

/// One CPU's place in the scan of the process table.
#[derive(Clone, Copy, Debug, PartialEq, Eq, Structural)]
pub struct O1 {
    pub scan_offset: usize,
}

/// What a scan of the process table found.
#[derive(Clone, Copy, Debug, PartialEq, Eq, Structural)]
pub struct O1Scan {
    pub best: Option<usize>,
    pub any_active_runnable: bool,
    pub any_active_running: bool,
    pub any_expired: bool,
    /// The epoch in which the scan began.
    pub epoch: u64,
}

/// What a CPU does after a scan.
#[derive(Clone, Copy, Debug, PartialEq, Eq, Structural)]
pub enum O1Step {
    /// Try to begin a new epoch.
    Swap,
    /// Switch to the task in a slot.
    Dispatch(usize),
    /// Nothing: scan again.
    Rescan,
}

/// The priority that a sleep average earns.
pub open spec fn priority_of(sleep_avg: u64) -> u8 {
    (BASE_PRIORITY - min_int(sleep_avg as int, MAX_BONUS as int)) as u8
}

/// The time slice of a priority: from `MAX_TIMESLICE` for the best down to
/// `MIN_TIMESLICE` for the worst, in proportion.
pub open spec fn timeslice_of(prio: u8) -> u64 {
    let worst = NUM_PRIORITIES - 1;
    (MIN_TIMESLICE + (MAX_TIMESLICE - MIN_TIMESLICE) * (worst - min_int(prio as int, worst))
        / worst) as u64
}

/// The sleep average after an epoch in which the task used its whole slice, or
/// did not.
pub open spec fn sleep_avg_after(sleep_avg: u64, expired: bool) -> u64 {
    if expired {
        max_int(sleep_avg - 1, 0) as u64
    } else {
        min_int(sleep_avg + 1, MAX_SLEEP_AVG as int) as u64
    }
}

/// The active runnable tasks, which compete by their priority.
pub open spec fn priority_keys(shared: O1Shared, states: Seq<ProcState>) -> Seq<Option<int>> {
    Seq::new(
        NPROC as nat,
        |i: int|
            if states[i] == ProcState::RUNNABLE && !shared.is_expired@[i]
                && shared.dyn_priority@[i] < u8::MAX {
                Some(shared.dyn_priority@[i] as int)
            } else {
                None
            },
    )
}

/// Some slot in `state` is, or is not, in the expired set.
pub open spec fn any_in_set(
    shared: O1Shared,
    states: Seq<ProcState>,
    state: ProcState,
    expired: bool,
) -> bool {
    exists|i: int|
        0 <= i < NPROC && states[i] == state && #[trigger] shared.is_expired@[i] == expired
}

/// As `any_in_set`, among the first `count` slots of a scan from `start`.
spec fn any_so_far(
    shared: O1Shared,
    states: Seq<ProcState>,
    state: ProcState,
    expired: bool,
    start: int,
    count: int,
) -> bool {
    exists|i: int|
        0 <= i < NPROC && turn(start, i) < count && states[i] == state
            && #[trigger] shared.is_expired@[i] == expired
}

/// Computes the priority from the sleep average. A task that sleeps more gets a
/// lower number, which is a better priority.
pub fn calc_priority(sleep_avg: u64) -> (r: u8)
    ensures
        r == priority_of(sleep_avg),
        BASE_PRIORITY - MAX_BONUS <= r <= BASE_PRIORITY,
{
    let bonus: u8 = if sleep_avg < MAX_BONUS as u64 { sleep_avg as u8 } else { MAX_BONUS };
    BASE_PRIORITY - bonus
}

/// Computes the time slice from the priority. A better priority gets a longer
/// slice.
pub fn calc_timeslice(prio: u8) -> (r: u64)
    ensures
        r == timeslice_of(prio),
        MIN_TIMESLICE <= r <= MAX_TIMESLICE,
{
    let max_p: u64 = (NUM_PRIORITIES - 1) as u64;
    let p: u64 = if (prio as u64) < max_p { prio as u64 } else { max_p };
    MIN_TIMESLICE + (MAX_TIMESLICE - MIN_TIMESLICE) * (max_p - p) / max_p
}

impl O1Shared {
    /// Slot `i` keeps the bounds: the sleep average is in range and the
    /// priority is the one that it earns, the slice is one that a priority can
    /// have, and an expired task has none left.
    pub open spec fn slot_wf(self, i: int) -> bool {
        &&& self.sleep_avg@[i] <= MAX_SLEEP_AVG
        &&& self.dyn_priority@[i] == priority_of(self.sleep_avg@[i])
        &&& self.timeslice@[i] <= MAX_TIMESLICE
        &&& self.is_expired@[i] ==> self.timeslice@[i] == 0
    }

    pub open spec fn wf(self) -> bool {
        forall|i: int| 0 <= i < NPROC ==> #[trigger] self.slot_wf(i)
    }

    /// No sleep average that a swap raises is at the limit of its type.
    pub open spec fn averages_fit(self) -> bool {
        forall|i: int|
            0 <= i < NPROC && !self.is_expired@[i] ==> #[trigger] self.sleep_avg@[i] < u64::MAX
    }

    /// As `averages_fit`, and the epoch can be counted.
    pub open spec fn swap_fits(self) -> bool {
        self.averages_fit() && self.epoch < u64::MAX
    }

    /// Tables in which every slot is active, at the base priority and without a
    /// time slice.
    pub fn new() -> (r: Self)
        ensures
            r.wf(),
            r.epoch == 0,
            forall|i: int|
                0 <= i < NPROC ==> {
                    &&& #[trigger] r.dyn_priority@[i] == BASE_PRIORITY
                    &&& r.timeslice@[i] == 0
                    &&& r.sleep_avg@[i] == 0
                    &&& !r.is_expired@[i]
                },
    {
        let r: O1Shared = O1Shared {
            dyn_priority: [BASE_PRIORITY;NPROC],
            timeslice: [0;NPROC],
            sleep_avg: [0;NPROC],
            is_expired: [false;NPROC],
            epoch: 0,
        };
        assert forall|i: int| 0 <= i < NPROC implies #[trigger] r.slot_wf(i) by {
            assert(r.dyn_priority@[i] == BASE_PRIORITY);
        }
        r
    }

    /// Makes a fresh start for the process that takes slot `idx`: active, at the
    /// base priority, whatever the slot had come to.
    pub fn enter(&mut self, idx: usize)
        requires
            idx < NPROC,
        ensures
            entered(*old(self), idx as int, *final(self)),
            old(self).wf() ==> final(self).wf(),
    {
        self.sleep_avg[idx] = 0;
        self.dyn_priority[idx] = BASE_PRIORITY;
        self.timeslice[idx] = 0;
        self.is_expired[idx] = false;
        proof {
            if old(self).wf() {
                assert forall|k: int| 0 <= k < NPROC implies #[trigger] self.slot_wf(k) by {
                    assert(old(self).slot_wf(k));
                }
            }
        }
    }

    /// Swaps the two sets: updates the sleep averages, gives every slot the
    /// priority and the time slice that it has earned, and makes it active.
    pub fn epoch_swap(&mut self)
        requires
            old(self).averages_fit(),
        ensures
            swapped(*old(self), *final(self)),
            final(self).epoch == old(self).epoch,
            old(self).wf() ==> final(self).wf(),
    {
        let ghost before = *self;
        let mut i: usize = 0;
        while i < NPROC
            invariant
                i <= NPROC,
                self.epoch == before.epoch,
                before.averages_fit(),
                forall|k: int| 0 <= k < i ==> #[trigger] slot_swapped(before, *self, k),
                forall|k: int|
                    i <= k < NPROC ==> #[trigger] self.sleep_avg@[k] == before.sleep_avg@[k],
                forall|k: int|
                    i <= k < NPROC ==> #[trigger] self.is_expired@[k] == before.is_expired@[k],
            decreases NPROC - i,
        {
            let ghost mid = *self;
            let was_expired: bool = self.is_expired[i];
            let sa: u64 = self.sleep_avg[i];
            assert(sa == before.sleep_avg@[i as int]);
            let new_sa: u64 = if was_expired {
                sa.saturating_sub(1)
            } else if sa + 1 < MAX_SLEEP_AVG {
                sa + 1
            } else {
                MAX_SLEEP_AVG
            };
            self.sleep_avg[i] = new_sa;
            let prio: u8 = calc_priority(new_sa);
            self.dyn_priority[i] = prio;
            self.timeslice[i] = calc_timeslice(prio);
            self.is_expired[i] = false;
            assert forall|k: int| 0 <= k < i implies #[trigger] slot_swapped(before, *self, k) by {
                assert(slot_swapped(before, mid, k));
            }
            assert(slot_swapped(before, *self, i as int));
            i = i + 1;
        }
        proof {
            if before.wf() {
                assert forall|k: int| 0 <= k < NPROC implies #[trigger] self.slot_wf(k) by {
                    assert(before.slot_wf(k));
                    assert(slot_swapped(before, *self, k));
                    lemma_timeslice_range(self.dyn_priority@[k]);
                }
            }
        }
    }

    /// Whether a new epoch can begin: no counter is at its limit.
    pub fn can_swap(&self) -> (b: bool)
        ensures
            b == self.swap_fits(),
            self.wf() && self.epoch < u64::MAX ==> b,
    {
        let mut i: usize = 0;
        while i < NPROC
            invariant
                i <= NPROC,
                forall|k: int|
                    0 <= k < i && !self.is_expired@[k] ==> #[trigger] self.sleep_avg@[k] < u64::MAX,
            decreases NPROC - i,
        {
            if !self.is_expired[i] && self.sleep_avg[i] == u64::MAX {
                assert(!self.averages_fit());
                assert(!self.slot_wf(i as int));
                return false;
            }
            i = i + 1;
        }
        self.epoch < u64::MAX
    }

    /// Begins a new epoch if it is still the one that `scan` saw run out, and
    /// says whether it did. Of several CPUs that saw the same epoch run out, one
    /// succeeds.
    pub fn try_swap(&mut self, scan: &O1Scan) -> (swapped_now: bool)
        requires
            old(self).swap_fits(),
        ensures
            swap_attempted(*old(self), scan.epoch, swapped_now, *final(self)),
            old(self).wf() ==> final(self).wf(),
    {
        if self.epoch != scan.epoch {
            return false;
        }
        let ghost before = *self;
        self.epoch = self.epoch + 1;
        let ghost counted = *self;
        proof {
            if before.wf() {
                assert forall|k: int| 0 <= k < NPROC implies #[trigger] counted.slot_wf(k) by {
                    assert(before.slot_wf(k));
                }
            }
        }
        self.epoch_swap();
        assert forall|k: int| 0 <= k < NPROC implies #[trigger] slot_swapped(before, *self, k) by {
            assert(slot_swapped(counted, *self, k));
        }
        true
    }
}

/// A process took slot `i`: `s` are the tables before, `s2` after.
pub open spec fn entered(s: O1Shared, i: int, s2: O1Shared) -> bool {
    &&& s2.sleep_avg@ == s.sleep_avg@.update(i, 0)
    &&& s2.dyn_priority@ == s.dyn_priority@.update(i, BASE_PRIORITY)
    &&& s2.timeslice@ == s.timeslice@.update(i, 0)
    &&& s2.is_expired@ == s.is_expired@.update(i, false)
    &&& s2.epoch == s.epoch
}

/// Slot `i` of `post` is that of `pre` after a swap of the two sets.
pub open spec fn slot_swapped(pre: O1Shared, post: O1Shared, i: int) -> bool {
    &&& post.sleep_avg@[i] == sleep_avg_after(pre.sleep_avg@[i], pre.is_expired@[i])
    &&& post.dyn_priority@[i] == priority_of(post.sleep_avg@[i])
    &&& post.timeslice@[i] == timeslice_of(post.dyn_priority@[i])
    &&& !post.is_expired@[i]
}

/// `post` is `pre` after a swap of the two sets.
pub open spec fn swapped(pre: O1Shared, post: O1Shared) -> bool {
    forall|i: int| 0 <= i < NPROC ==> #[trigger] slot_swapped(pre, post, i)
}

/// A CPU that saw epoch `seen` tried to swap the sets: `pre` before, `post`
/// after. It succeeds if and only if it is still that epoch.
pub open spec fn swap_attempted(pre: O1Shared, seen: u64, success: bool, post: O1Shared) -> bool {
    &&& success == (pre.epoch == seen)
    &&& if success {
        post.epoch == seen + 1 && swapped(pre, post)
    } else {
        post == pre
    }
}

impl O1Scan {
    /// The active set is exhausted: nothing in it is runnable or running, and
    /// some expired task waits.
    pub open spec fn wants_swap(self) -> bool {
        !self.any_active_runnable && self.any_expired && !self.any_active_running
    }

    pub fn needs_swap(&self) -> (b: bool)
        ensures
            b == self.wants_swap(),
    {
        !self.any_active_runnable && self.any_expired && !self.any_active_running
    }

    /// What a CPU does after the scan: it runs the best active task, or swaps the
    /// sets if the active one is exhausted, or looks again.
    pub open spec fn next_step(self) -> O1Step {
        if self.wants_swap() {
            O1Step::Swap
        } else if self.any_active_runnable && self.best is Some {
            O1Step::Dispatch(self.best->0)
        } else {
            O1Step::Rescan
        }
    }

    pub fn step(&self) -> (r: O1Step)
        ensures
            r == self.next_step(),
    {
        if !self.any_active_runnable {
            if self.needs_swap() {
                O1Step::Swap
            } else {
                O1Step::Rescan
            }
        } else {
            match self.best {
                Some(idx) => O1Step::Dispatch(idx),
                None => O1Step::Rescan,
            }
        }
    }
}

impl Default for O1 {
    fn default() -> (r: Self)
        ensures
            r.wf(),
            r.scan_offset == 0,
    {
        O1 { scan_offset: 0 }
    }
}

impl O1 {
    pub open spec fn wf(self) -> bool {
        self.scan_offset < NPROC
    }

    /// Scans the process table for the best active runnable task, the first of
    /// them in scan order, and for what else there is in the two sets.
    pub fn select(&self, shared: &O1Shared, states: &[ProcState; NPROC]) -> (r: O1Scan)
        requires
            self.wf(),
        ensures
            picks_least(priority_keys(*shared, states@), self.scan_offset as int, r.best),
            r.any_active_runnable == any_in_set(*shared, states@, ProcState::RUNNABLE, false),
            r.any_active_running == any_in_set(*shared, states@, ProcState::RUNNING, false),
            r.any_expired == any_in_set(*shared, states@, ProcState::RUNNABLE, true),
            r.epoch == shared.epoch,
    {
        let ghost keys = priority_keys(*shared, states@);
        let ghost start = self.scan_offset as int;
        let mut best: Best = Best::new();
        let mut any_active_runnable: bool = false;
        let mut any_active_running: bool = false;
        let mut any_expired: bool = false;
        assert(best.after(keys, start, 0));
        let mut j: usize = 0;
        while j < NPROC
            invariant
                j <= NPROC,
                self.wf(),
                start == self.scan_offset,
                keys == priority_keys(*shared, states@),
                best.after(keys, start, j as int),
                any_active_runnable == any_so_far(
                    *shared,
                    states@,
                    ProcState::RUNNABLE,
                    false,
                    start,
                    j as int,
                ),
                any_active_running == any_so_far(
                    *shared,
                    states@,
                    ProcState::RUNNING,
                    false,
                    start,
                    j as int,
                ),
                any_expired == any_so_far(
                    *shared,
                    states@,
                    ProcState::RUNNABLE,
                    true,
                    start,
                    j as int,
                ),
            decreases NPROC - j,
        {
            let i: usize = scan_slot(self.scan_offset, j);
            let expired: bool = shared.is_expired[i];
            proof {
                lemma_one_more(*shared, states@, ProcState::RUNNABLE, false, start, i as int);
                lemma_one_more(*shared, states@, ProcState::RUNNING, false, start, i as int);
                lemma_one_more(*shared, states@, ProcState::RUNNABLE, true, start, i as int);
            }
            match states[i] {
                ProcState::RUNNABLE => {
                    if expired {
                        any_expired = true;
                        proof {
                            lemma_skip(best, keys, start, j as int, i as int);
                        }
                    } else {
                        any_active_runnable = true;
                        let prio: u8 = shared.dyn_priority[i];
                        if prio < u8::MAX {
                            proof {
                                lemma_offer(best, keys, start, j as int, i, prio as u64);
                            }
                            best.offer(i, prio as u64);
                        } else {
                            proof {
                                lemma_skip(best, keys, start, j as int, i as int);
                            }
                        }
                    }
                },
                ProcState::RUNNING => {
                    if !expired {
                        any_active_running = true;
                    }
                    proof {
                        lemma_skip(best, keys, start, j as int, i as int);
                    }
                },
                _ => {
                    proof {
                        lemma_skip(best, keys, start, j as int, i as int);
                    }
                },
            }
            j = j + 1;
        }
        assert(forall|k: int| 0 <= k < NPROC ==> #[trigger] turn(start, k) < NPROC);
        O1Scan {
            best: best.pick,
            any_active_runnable,
            any_active_running,
            any_expired,
            epoch: shared.epoch,
        }
    }

    /// Lets the next scan start after slot `idx`.
    pub fn advance(&mut self, idx: usize)
        requires
            idx < NPROC,
        ensures
            final(self).wf(),
            final(self).scan_offset == (idx + 1) % (NPROC as int),
    {
        self.scan_offset = (idx + 1) % NPROC;
    }
}

/// What a scan has found after it visited slot `i` as well.
proof fn lemma_one_more(
    shared: O1Shared,
    states: Seq<ProcState>,
    state: ProcState,
    expired: bool,
    start: int,
    i: int,
)
    requires
        0 <= start < NPROC,
        0 <= i < NPROC,
    ensures
        any_so_far(shared, states, state, expired, start, turn(start, i) + 1) == (any_so_far(
            shared,
            states,
            state,
            expired,
            start,
            turn(start, i),
        ) || (states[i] == state && shared.is_expired@[i] == expired)),
{
    crate::scheduler::scan::lemma_turn_injective(start);
    let j = turn(start, i);
    if any_so_far(shared, states, state, expired, start, j + 1) {
        let k = choose|k: int|
            0 <= k < NPROC && turn(start, k) < j + 1 && states[k] == state
                && #[trigger] shared.is_expired@[k] == expired;
        if k != i {
            assert(turn(start, k) < j);
        }
    }
    if states[i] == state && shared.is_expired@[i] == expired {
        assert(turn(start, i) < j + 1);
    }
}

/// Slot `i` was switched in: `s` are the tables before, `s2` after. A task
/// without a time slice gets the one that its priority earns.
pub open spec fn begun(s: O1Shared, i: int, s2: O1Shared) -> bool {
    &&& s2.timeslice@ == if s.timeslice@[i] == 0 {
        s.timeslice@.update(i, timeslice_of(s.dyn_priority@[i]))
    } else {
        s.timeslice@
    }
    &&& s2 == O1Shared { timeslice: s2.timeslice, ..s }
}

/// The turns left of a slice after one more turn.
pub open spec fn slice_after(timeslice: u64) -> u64 {
    max_int(timeslice - 1, 0) as u64
}

/// The next turn uses up the slice.
pub open spec fn is_last_turn(timeslice: u64) -> bool {
    timeslice <= 1
}

/// Slot `i` handed the CPU back: `s` are the tables before, `s2` after. The
/// last turn of a slice moves the task to the expired set.
pub open spec fn charged(s: O1Shared, i: int, s2: O1Shared) -> bool {
    &&& s2.timeslice@ == s.timeslice@.update(i, slice_after(s.timeslice@[i]))
    &&& s2.is_expired@ == if is_last_turn(s.timeslice@[i]) {
        s.is_expired@.update(i, true)
    } else {
        s.is_expired@
    }
    &&& s2 == O1Shared { timeslice: s2.timeslice, is_expired: s2.is_expired, ..s }
}

impl Scheduler for O1 {
    type Shared = O1Shared;

    type Choice = usize;

    open spec fn begin_ok(self, shared: O1Shared, choice: usize) -> bool {
        choice < NPROC
    }

    open spec fn finish_ok(self, shared: O1Shared, choice: usize) -> bool {
        choice < NPROC
    }

    fn can_begin(&self, shared: &O1Shared, choice: &usize) -> (b: bool) {
        *choice < NPROC
    }

    fn begin(&mut self, shared: &mut O1Shared, choice: &usize, state: ProcState) -> (run: bool)
        ensures
            run == (state == ProcState::RUNNABLE && !old(shared).is_expired@[*choice as int]),
            run ==> begun(*old(shared), *choice as int, *final(shared)),
            *final(self) == *old(self),
            old(shared).wf() ==> final(shared).wf(),
    {
        let idx: usize = *choice;
        if state != ProcState::RUNNABLE || shared.is_expired[idx] {
            return false;
        }
        if shared.timeslice[idx] == 0 {
            shared.timeslice[idx] = calc_timeslice(shared.dyn_priority[idx]);
        }
        proof {
            if old(shared).wf() {
                assert forall|k: int| 0 <= k < NPROC implies #[trigger] shared.slot_wf(k) by {
                    assert(old(shared).slot_wf(k));
                }
            }
        }
        true
    }

    fn can_finish(&self, shared: &O1Shared, choice: &usize) -> (b: bool) {
        *choice < NPROC
    }

    fn finish(&mut self, shared: &mut O1Shared, choice: &usize)
        ensures
            charged(*old(shared), *choice as int, *final(shared)),
            *final(self) == *old(self),
            old(shared).wf() ==> final(shared).wf(),
    {
        let idx: usize = *choice;
        let remaining: u64 = shared.timeslice[idx];
        if remaining <= 1 {
            shared.timeslice[idx] = 0;
            shared.is_expired[idx] = true;
        } else {
            shared.timeslice[idx] = remaining - 1;
        }
        proof {
            if old(shared).wf() {
                assert forall|k: int| 0 <= k < NPROC implies #[trigger] shared.slot_wf(k) by {
                    assert(old(shared).slot_wf(k));
                }
            }
        }
    }
}

/// Every priority has a slice between the shortest and the longest.
pub proof fn lemma_timeslice_range(prio: u8)
    ensures
        MIN_TIMESLICE <= timeslice_of(prio) <= MAX_TIMESLICE,
        timeslice_of(0) == MAX_TIMESLICE,
        prio >= NUM_PRIORITIES - 1 ==> timeslice_of(prio) == MIN_TIMESLICE,
{
}

/// A better priority never has a shorter slice.
pub proof fn lemma_timeslice_monotone(a: u8, b: u8)
    requires
        a <= b,
    ensures
        timeslice_of(a) >= timeslice_of(b),
{
}

/// A higher sleep average never earns a worse priority.
pub proof fn lemma_priority_monotone(a: u64, b: u64)
    requires
        a <= b,
    ensures
        priority_of(a) >= priority_of(b),
        BASE_PRIORITY - MAX_BONUS <= priority_of(a) <= BASE_PRIORITY,
{
}

/// The sleep average after `n` epochs in all of which the task expired, or in
/// none of which it did.
pub open spec fn sleep_avg_after_epochs(sleep_avg: u64, expired: bool, n: nat) -> u64
    decreases n,
{
    if n == 0 {
        sleep_avg
    } else {
        sleep_avg_after(sleep_avg_after_epochs(sleep_avg, expired, (n - 1) as nat), expired)
    }
}

/// A task that always expires loses one point per epoch down to 0, and one
/// that never does gains one per epoch up to the maximum.
pub proof fn lemma_sleep_avg_settles(sleep_avg: u64, n: nat)
    requires
        sleep_avg <= MAX_SLEEP_AVG,
    ensures
        sleep_avg_after_epochs(sleep_avg, true, n) == max_int(sleep_avg - n, 0),
        sleep_avg_after_epochs(sleep_avg, false, n) == min_int(
            sleep_avg + n,
            MAX_SLEEP_AVG as int,
        ),
    decreases n,
{
    if n > 0 {
        lemma_sleep_avg_settles(sleep_avg, (n - 1) as nat);
    }
}

/// After enough epochs a task that waits for I/O has a better priority and a
/// longer slice than one that computes, wherever the two started.
pub proof fn lemma_interactive_beats_batch(batch: u64, interactive: u64, n: nat)
    requires
        batch <= MAX_SLEEP_AVG,
        interactive <= MAX_SLEEP_AVG,
        n >= MAX_SLEEP_AVG,
    ensures
        ({
            let b = priority_of(sleep_avg_after_epochs(batch, true, n));
            let i = priority_of(sleep_avg_after_epochs(interactive, false, n));
            &&& b == BASE_PRIORITY
            &&& i == BASE_PRIORITY - MAX_BONUS
            &&& i < b
            &&& timeslice_of(i) > timeslice_of(b)
        }),
{
    lemma_sleep_avg_settles(batch, n);
    lemma_sleep_avg_settles(interactive, n);
}

/// The time slice left after `n` turns, and whether the task has expired.
pub open spec fn after_turns(timeslice: u64, expired: bool, n: nat) -> (u64, bool)
    decreases n,
{
    if n == 0 {
        (timeslice, expired)
    } else {
        let (t, e) = after_turns(timeslice, expired, (n - 1) as nat);
        (slice_after(t), e || is_last_turn(t))
    }
}

/// An active task expires with the last turn of its slice and not before.
pub proof fn lemma_slice_lasts(timeslice: u64, n: nat)
    requires
        0 < timeslice,
        n <= timeslice,
    ensures
        after_turns(timeslice, false, n) == ((timeslice - n) as u64, n == timeslice),
    decreases n,
{
    if n > 0 {
        lemma_slice_lasts(timeslice, (n - 1) as nat);
    }
}

/// A swap leaves no task behind: afterwards every slot is active, and if any
/// task is runnable the next scan chooses one.
pub proof fn lemma_swap_revives_all(
    m: O1,
    pre: O1Shared,
    post: O1Shared,
    states: Seq<ProcState>,
    best: Option<usize>,
    q: int,
)
    requires
        m.wf(),
        post.wf(),
        swapped(pre, post),
        0 <= q < NPROC,
        states[q] == ProcState::RUNNABLE,
        picks_least(priority_keys(post, states), m.scan_offset as int, best),
    ensures
        !post.is_expired@[q],
        post.timeslice@[q] >= MIN_TIMESLICE,
        best is Some,
{
    assert(slot_swapped(pre, post, q));
    assert(post.slot_wf(q));
    assert(priority_keys(post, states)[q] is Some);
    assert(turn(m.scan_offset as int, q) < NPROC);
    lemma_timeslice_range(post.dyn_priority@[q]);
}

/// Of the CPUs that saw the same epoch run out only the first swaps the sets.
/// The others change nothing.
pub proof fn lemma_one_swap_per_epoch(
    s0: O1Shared,
    seen: u64,
    s1: O1Shared,
    second: bool,
    s2: O1Shared,
)
    requires
        seen < u64::MAX,
        swap_attempted(s0, seen, true, s1),
        swap_attempted(s1, seen, second, s2),
    ensures
        !second,
        s2 == s1,
{
}

/// The chosen task is active and runnable, and no other active runnable task
/// has a better priority. If there is such a task, one is chosen.
pub proof fn lemma_best_priority_runs(
    m: O1,
    shared: O1Shared,
    states: Seq<ProcState>,
    best: Option<usize>,
    q: int,
)
    requires
        m.wf(),
        shared.wf(),
        picks_least(priority_keys(shared, states), m.scan_offset as int, best),
        0 <= q < NPROC,
        states[q] == ProcState::RUNNABLE,
        !shared.is_expired@[q],
    ensures
        best is Some,
        best->0 < NPROC,
        states[best->0 as int] == ProcState::RUNNABLE,
        !shared.is_expired@[best->0 as int],
        shared.dyn_priority@[best->0 as int] <= shared.dyn_priority@[q],
{
    let keys = priority_keys(shared, states);
    assert(shared.slot_wf(q));
    assert(keys[q] is Some);
    assert(turn(m.scan_offset as int, q) < NPROC);
    if best is Some {
        assert(precedes(keys, m.scan_offset as int, best->0 as int, q));
    }
}

/// Active tasks of the same priority take turns. With every turn that goes to
/// another one of its priority, a waiting task comes sooner in the next scan.
pub proof fn lemma_same_priority_takes_turns(
    m: O1,
    shared: O1Shared,
    states: Seq<ProcState>,
    pick: usize,
    q: int,
    m2: O1,
)
    requires
        m.wf(),
        picks_least(priority_keys(shared, states), m.scan_offset as int, Some(pick)),
        m2.scan_offset == (pick + 1) % (NPROC as int),
        0 <= q < NPROC,
        states[q] == ProcState::RUNNABLE,
        !shared.is_expired@[q],
        shared.dyn_priority@[q] == shared.dyn_priority@[pick as int],
        pick != q,
    ensures
        turn(m2.scan_offset as int, q) < turn(m.scan_offset as int, q),
        0 <= turn(m2.scan_offset as int, q),
{
    let keys = priority_keys(shared, states);
    assert(keys[pick as int] is Some);
    lemma_equal_comes_closer(
        keys,
        m.scan_offset as int,
        pick,
        q,
        m2.scan_offset as int,
    );
}

/// The turns that slot `i` can still have in this epoch.
pub open spec fn turns_left(s: O1Shared, i: int) -> int {
    if s.is_expired@[i] {
        0
    } else if s.timeslice@[i] == 0 {
        timeslice_of(s.dyn_priority@[i]) as int
    } else {
        s.timeslice@[i] as int
    }
}

/// The turns that the first `n` slots together can still have in this epoch.
pub open spec fn backlog(s: O1Shared, n: nat) -> int
    decreases n,
{
    if n == 0 {
        0
    } else {
        backlog(s, (n - 1) as nat) + turns_left(s, n - 1)
    }
}

/// Every turn brings the end of the epoch one turn closer.
pub proof fn lemma_turn_shortens_epoch(s: O1Shared, i: int, s2: O1Shared, s3: O1Shared)
    requires
        0 <= i < NPROC,
        !s.is_expired@[i],
        begun(s, i, s2),
        charged(s2, i, s3),
    ensures
        backlog(s3, NPROC as nat) == backlog(s, NPROC as nat) - 1,
{
    lemma_timeslice_range(s.dyn_priority@[i]);
    lemma_backlog_moves(s, i, s3, NPROC as nat);
}

proof fn lemma_backlog_moves(s: O1Shared, i: int, s2: O1Shared, n: nat)
    requires
        0 <= i < NPROC,
        n <= NPROC,
        forall|k: int| 0 <= k < NPROC && k != i ==> #[trigger] turns_left(s2, k) == turns_left(s, k),
        turns_left(s2, i) == turns_left(s, i) - 1,
    ensures
        backlog(s2, n) == backlog(s, n) - (if i < n {
            1int
        } else {
            0
        }),
    decreases n,
{
    if n > 0 {
        lemma_backlog_moves(s, i, s2, (n - 1) as nat);
        if n - 1 != i {
            assert(turns_left(s2, n - 1) == turns_left(s, n - 1));
        }
    }
}

/// An epoch without newcomers has a bounded number of turns, and with none left
/// no task is active.
pub proof fn lemma_epoch_ends(s: O1Shared, n: nat)
    requires
        s.wf(),
        n <= NPROC,
    ensures
        0 <= backlog(s, n) <= n * MAX_TIMESLICE,
        backlog(s, n) == 0 ==> forall|i: int| 0 <= i < n ==> #[trigger] s.is_expired@[i],
    decreases n,
{
    if n > 0 {
        let before = (n - 1) as nat;
        lemma_epoch_ends(s, before);
        assert(s.slot_wf(n - 1));
        lemma_timeslice_range(s.dyn_priority@[n - 1]);
    }
}

/// A process starts at the base priority, without a bonus that it has not
/// earned, and its first turn gives it the slice of that priority.
pub proof fn lemma_newcomer_starts_at_base(
    s: O1Shared,
    i: int,
    s2: O1Shared,
    s3: O1Shared,
)
    requires
        0 <= i < NPROC,
        entered(s, i, s2),
        begun(s2, i, s3),
    ensures
        s2.dyn_priority@[i] == BASE_PRIORITY,
        s2.sleep_avg@[i] == 0,
        !s2.is_expired@[i],
        s3.timeslice@[i] == timeslice_of(BASE_PRIORITY),
{
}

} // verus!
