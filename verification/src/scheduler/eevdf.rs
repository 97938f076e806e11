//! EEVDF: earliest eligible virtual deadline first.
//!
//! Like CFS it charges virtual runtime, with two additions. Each task has a
//! virtual deadline, one slice ahead of the vruntime at which the slice began.
//! And a task is eligible only if it has not received more than its share of
//! the CPU, that is, if its vruntime is not above the mean of the active tasks.
//! Among the eligible runnable tasks the one with the earliest deadline runs.

use crate::arith::max_int;
use crate::process::{ProcState, NPROC};
use crate::scheduler::scan::{lemma_offer, lemma_skip, precedes, turn, Best};
use crate::scheduler::vtime::{
    active_total, advanced, clamp_vruntime, clamped, floor_after, is_active_min,
    lemma_default_weight, lemma_least_is_eligible, mean_vruntime, picks_preferred, renewed, survey,
    vruntime_keys, Survey, NICE_0_WEIGHT,
};
use crate::scheduler::Scheduler;
use vstd::prelude::*;

verus! {

/// Length of a slice, in virtual-time units: turns at the default weight.
pub const SCHED_SLICE: u64 = 3;

/// Charge for one turn on the CPU.
pub const SCHED_MIN_GRANULARITY: u64 = 1;

/// How far behind the floor a waking task may be.
pub const WAKEUP_LAG_LIMIT: u64 = SCHED_SLICE;

/// The tables that all CPUs share.
#[derive(Clone, Copy, Debug)]
pub struct EevdfShared {
    /// Virtual runtime, indexed by slot.
    pub vruntime: [u64; NPROC],
    /// Virtual deadline, indexed by slot. It is assigned with the first turn.
    pub deadline: [u64; NPROC],
    /// The least vruntime of the active tasks when last looked at. It never
    /// moves backward.
    pub min_vruntime: u64,
}

/// The scheduler keeps nothing per CPU.
#[derive(Clone, Copy, Debug)]
pub struct Eevdf;

/// The eligible runnable tasks, which compete by their deadline.
pub open spec fn deadline_keys(
    shared: EevdfShared,
    states: Seq<ProcState>,
    avg_vruntime: u64,
) -> Seq<Option<int>> {
    Seq::new(
        NPROC as nat,
        |i: int|
            if states[i] == ProcState::RUNNABLE && shared.vruntime@[i] <= avg_vruntime
                && shared.deadline@[i] < u64::MAX {
                Some(shared.deadline@[i] as int)
            } else {
                None
            },
    )
}

/// Computes the vruntime delta for one turn:
/// `delta_exec * (NICE_0_WEIGHT / weight)`.
pub fn calc_delta(delta_exec: u64, weight: u64) -> (r: u64)
    requires
        delta_exec * NICE_0_WEIGHT <= u64::MAX,
    ensures
        r == delta_exec * NICE_0_WEIGHT / max_int(weight as int, 1),
{
    delta_exec * NICE_0_WEIGHT / if weight > 1 { weight } else { 1 }
}

/// Computes the virtual-time length of one slice. A higher weight makes a
/// shorter slice, and so earlier deadlines.
pub fn calc_slice_vruntime(weight: u64) -> (r: u64)
    ensures
        r == SCHED_SLICE * NICE_0_WEIGHT / max_int(weight as int, 1),
{
    SCHED_SLICE * NICE_0_WEIGHT / if weight > 1 { weight } else { 1 }
}

impl EevdfShared {
    /// No deadline is more than a slice ahead.
    pub open spec fn inv(self) -> bool {
        forall|i: int|
            0 <= i < NPROC ==> #[trigger] self.deadline@[i] <= self.vruntime@[i] + SCHED_SLICE
    }

    /// Tables for a system in which nothing has run yet.
    pub fn new() -> (r: Self)
        ensures
            r.inv(),
            r.min_vruntime == 0,
            forall|i: int|
                0 <= i < NPROC ==> #[trigger] r.vruntime@[i] == 0 && r.deadline@[i] == 0,
    {
        EevdfShared { vruntime: [0;NPROC], deadline: [0;NPROC], min_vruntime: 0 }
    }

    /// Advances the floor to `candidate` if that is larger.
    pub fn advance_min_vruntime(&mut self, candidate: u64)
        ensures
            *final(self) == (EevdfShared {
                min_vruntime: advanced(old(self).min_vruntime, candidate),
                ..*old(self)
            }),
    {
        if candidate > self.min_vruntime {
            self.min_vruntime = candidate;
        }
    }

    /// Takes note of what the first pass found: a floor, unless nothing was
    /// active.
    pub fn note_survey(&mut self, survey: &Survey)
        ensures
            *final(self) == (EevdfShared {
                min_vruntime: floor_after(old(self).min_vruntime, survey.active_min),
                ..*old(self)
            }),
    {
        if survey.active_min < u64::MAX {
            self.advance_min_vruntime(survey.active_min);
        }
    }
}

impl Default for Eevdf {
    fn default() -> (r: Self)
        ensures
            r == Eevdf,
    {
        Eevdf
    }
}

impl Eevdf {
    /// First pass: the mean vruntime and the floor.
    pub fn survey(&self, shared: &EevdfShared, states: &[ProcState; NPROC]) -> (r: Survey)
        ensures
            r.avg_vruntime == mean_vruntime(shared.vruntime@, states@),
            is_active_min(shared.vruntime@, states@, r.active_min),
    {
        survey(&shared.vruntime, states)
    }

    /// Both passes: surveys the active tasks, notes the floor and chooses.
    pub fn scan(
        &self,
        shared: &mut EevdfShared,
        surveyed: &[ProcState; NPROC],
        states: &[ProcState; NPROC],
    ) -> (r: (Survey, Option<usize>))
        ensures
            scanned(*old(shared), surveyed@, states@, r.0, *final(shared), r.1),
            old(shared).inv() ==> final(shared).inv(),
    {
        let survey: Survey = self.survey(shared, surveyed);
        shared.note_survey(&survey);
        let pick: Option<usize> = self.select(shared, states, survey.avg_vruntime);
        (survey, pick)
    }

    /// Second pass: the eligible runnable task with the earliest deadline, or
    /// the runnable task with the lowest vruntime if none is eligible.
    pub fn select(
        &self,
        shared: &EevdfShared,
        states: &[ProcState; NPROC],
        avg_vruntime: u64,
    ) -> (pick: Option<usize>)
        ensures
            picks_preferred(
                deadline_keys(*shared, states@, avg_vruntime),
                vruntime_keys(shared.vruntime@, states@),
                pick,
            ),
    {
        let ghost preferred = deadline_keys(*shared, states@, avg_vruntime);
        let ghost others = vruntime_keys(shared.vruntime@, states@);
        let mut best: Best = Best::new();
        let mut fallback: Best = Best::new();
        assert(best.after(preferred, 0, 0));
        assert(fallback.after(others, 0, 0));
        let mut i: usize = 0;
        while i < NPROC
            invariant
                i <= NPROC,
                preferred == deadline_keys(*shared, states@, avg_vruntime),
                others == vruntime_keys(shared.vruntime@, states@),
                best.after(preferred, 0, i as int),
                fallback.after(others, 0, i as int),
            decreases NPROC - i,
        {
            assert(turn(0, i as int) == i);
            if states[i] == ProcState::RUNNABLE {
                let vrt: u64 = shared.vruntime[i];
                let dl: u64 = shared.deadline[i];
                if vrt <= avg_vruntime {
                    proof {
                        lemma_offer(best, preferred, 0, i as int, i, dl);
                    }
                    best.offer(i, dl);
                } else {
                    proof {
                        lemma_skip(best, preferred, 0, i as int, i as int);
                    }
                }
                proof {
                    lemma_offer(fallback, others, 0, i as int, i, vrt);
                }
                fallback.offer(i, vrt);
            } else {
                proof {
                    lemma_skip(best, preferred, 0, i as int, i as int);
                    lemma_skip(fallback, others, 0, i as int, i as int);
                }
            }
            i = i + 1;
        }
        assert(forall|k: int| 0 <= k < NPROC ==> turn(0, k) < NPROC);
        match best.pick {
            Some(idx) => Some(idx),
            None => fallback.pick,
        }
    }
}

/// A scan of the tables `s`, of which the first pass saw the states `surveyed`
/// and the second `states`, found `survey`, left the tables `noted` and led to
/// `pick`.
pub open spec fn scanned(
    s: EevdfShared,
    surveyed: Seq<ProcState>,
    states: Seq<ProcState>,
    survey: Survey,
    noted: EevdfShared,
    pick: Option<usize>,
) -> bool {
    &&& survey.avg_vruntime == mean_vruntime(s.vruntime@, surveyed)
    &&& is_active_min(s.vruntime@, surveyed, survey.active_min)
    &&& noted == EevdfShared {
        min_vruntime: floor_after(s.min_vruntime, survey.active_min),
        ..s
    }
    &&& picks_preferred(
        deadline_keys(noted, states, survey.avg_vruntime),
        vruntime_keys(noted.vruntime@, states),
        pick,
    )
}

/// Slot `i` was switched in: `s` are the tables before, `s2` after.
pub open spec fn begun(s: EevdfShared, i: int, s2: EevdfShared) -> bool {
    let v = clamped(s.vruntime@[i], s.min_vruntime, WAKEUP_LAG_LIMIT);
    &&& s2.vruntime@ == s.vruntime@.update(i, v)
    &&& s2.deadline@ == s.deadline@.update(i, renewed(s.deadline@[i], v, SCHED_SLICE) as u64)
    &&& s2.min_vruntime == s.min_vruntime
}

/// Slot `i` handed the CPU back: `s` are the tables before, `s2` after.
pub open spec fn charged(s: EevdfShared, i: int, s2: EevdfShared) -> bool {
    let v = (s.vruntime@[i] + SCHED_MIN_GRANULARITY) as u64;
    &&& s2.vruntime@ == s.vruntime@.update(i, v)
    &&& s2.deadline@ == s.deadline@.update(i, renewed(s.deadline@[i], v, SCHED_SLICE) as u64)
    &&& s2.min_vruntime == s.min_vruntime
}

impl Scheduler for Eevdf {
    type Shared = EevdfShared;

    type Choice = usize;

    open spec fn begin_ok(self, shared: EevdfShared, choice: usize) -> bool {
        &&& choice < NPROC
        &&& {
            let i = choice as int;
            let v = clamped(shared.vruntime@[i], shared.min_vruntime, WAKEUP_LAG_LIMIT);
            renewed(shared.deadline@[i], v, SCHED_SLICE) <= u64::MAX
        }
    }

    open spec fn finish_ok(self, shared: EevdfShared, choice: usize) -> bool {
        &&& choice < NPROC
        &&& shared.vruntime@[choice as int] + SCHED_MIN_GRANULARITY <= u64::MAX
        &&& renewed(
            shared.deadline@[choice as int],
            (shared.vruntime@[choice as int] + SCHED_MIN_GRANULARITY) as u64,
            SCHED_SLICE,
        ) <= u64::MAX
    }

    fn can_begin(&self, shared: &EevdfShared, choice: &usize) -> (b: bool) {
        if *choice >= NPROC {
            return false;
        }
        let v: u64 = clamp_vruntime(
            shared.vruntime[*choice],
            shared.min_vruntime,
            WAKEUP_LAG_LIMIT,
        );
        shared.deadline[*choice] > v || v <= u64::MAX - SCHED_SLICE
    }

    fn begin(&mut self, shared: &mut EevdfShared, choice: &usize, state: ProcState) -> (run: bool)
        ensures
            run == (state == ProcState::RUNNABLE),
            run ==> begun(*old(shared), *choice as int, *final(shared)),
            old(shared).inv() ==> final(shared).inv(),
    {
        if state != ProcState::RUNNABLE {
            return false;
        }
        proof {
            lemma_default_weight(SCHED_SLICE as int);
        }
        let idx: usize = *choice;
        let vrt: u64 = clamp_vruntime(shared.vruntime[idx], shared.min_vruntime, WAKEUP_LAG_LIMIT);
        shared.vruntime[idx] = vrt;
        let dl: u64 = shared.deadline[idx];
        if dl <= vrt {
            shared.deadline[idx] = vrt + calc_slice_vruntime(NICE_0_WEIGHT);
        }
        assert(shared.deadline@ =~= old(shared).deadline@.update(
            idx as int,
            renewed(dl, vrt, SCHED_SLICE) as u64,
        ));
        true
    }

    fn can_finish(&self, shared: &EevdfShared, choice: &usize) -> (b: bool) {
        if *choice >= NPROC {
            return false;
        }
        let vrt: u64 = shared.vruntime[*choice];
        if vrt > u64::MAX - SCHED_MIN_GRANULARITY {
            return false;
        }
        let new_vrt: u64 = vrt + SCHED_MIN_GRANULARITY;
        shared.deadline[*choice] > new_vrt || new_vrt <= u64::MAX - SCHED_SLICE
    }

    fn finish(&mut self, shared: &mut EevdfShared, choice: &usize)
        ensures
            charged(*old(shared), *choice as int, *final(shared)),
            old(shared).inv() ==> final(shared).inv(),
    {
        proof {
            lemma_default_weight(SCHED_SLICE as int);
            lemma_default_weight(SCHED_MIN_GRANULARITY as int);
        }
        let idx: usize = *choice;
        let delta: u64 = calc_delta(SCHED_MIN_GRANULARITY, NICE_0_WEIGHT);
        let new_vrt: u64 = shared.vruntime[idx] + delta;
        shared.vruntime[idx] = new_vrt;
        let dl: u64 = shared.deadline[idx];
        if new_vrt >= dl {
            shared.deadline[idx] = new_vrt + calc_slice_vruntime(NICE_0_WEIGHT);
        }
        assert(shared.deadline@ =~= old(shared).deadline@.update(
            idx as int,
            renewed(dl, new_vrt, SCHED_SLICE) as u64,
        ));
    }
}

/// The scheduling rule: if any eligible task is runnable, the chosen one is
/// eligible and no eligible runnable task has an earlier deadline.
pub proof fn lemma_earliest_eligible_runs(
    shared: EevdfShared,
    states: Seq<ProcState>,
    avg_vruntime: u64,
    pick: Option<usize>,
    q: int,
)
    requires
        picks_preferred(
            deadline_keys(shared, states, avg_vruntime),
            vruntime_keys(shared.vruntime@, states),
            pick,
        ),
        0 <= q < NPROC,
        states[q] == ProcState::RUNNABLE,
        shared.vruntime@[q] <= avg_vruntime,
        shared.deadline@[q] < u64::MAX,
    ensures
        pick is Some,
        pick->0 < NPROC,
        states[pick->0 as int] == ProcState::RUNNABLE,
        shared.vruntime@[pick->0 as int] <= avg_vruntime,
        shared.deadline@[pick->0 as int] <= shared.deadline@[q],
{
    let keys = deadline_keys(shared, states, avg_vruntime);
    assert(keys[q] is Some);
    assert(turn(0, q) == q);
    if pick is Some {
        assert(keys[pick->0 as int] is Some);
        assert(precedes(keys, 0, pick->0 as int, q));
    }
}

/// If no runnable task is eligible, the one that got the least CPU runs.
pub proof fn lemma_fallback_is_least_vruntime(
    shared: EevdfShared,
    states: Seq<ProcState>,
    avg_vruntime: u64,
    pick: usize,
    q: int,
)
    requires
        picks_preferred(
            deadline_keys(shared, states, avg_vruntime),
            vruntime_keys(shared.vruntime@, states),
            Some(pick),
        ),
        forall|i: int|
            0 <= i < NPROC && states[i] == ProcState::RUNNABLE ==> #[trigger] shared.vruntime@[i]
                > avg_vruntime,
        0 <= q < NPROC,
        states[q] == ProcState::RUNNABLE,
    ensures
        pick < NPROC,
        states[pick as int] == ProcState::RUNNABLE,
        shared.vruntime@[pick as int] <= shared.vruntime@[q],
{
    let preferred = deadline_keys(shared, states, avg_vruntime);
    let others = vruntime_keys(shared.vruntime@, states);
    assert forall|i: int| 0 <= i < NPROC implies #[trigger] preferred[i] is None by {
        if states[i] == ProcState::RUNNABLE {
            assert(shared.vruntime@[i] > avg_vruntime);
        }
    }
    assert(turn(0, q) == q);
    assert(others[pick as int] is Some);
    if others[q] is Some {
        assert(precedes(others, 0, pick as int, q));
    }
}

/// No starvation: a runnable task that got the least CPU of all active tasks is
/// always eligible, so whatever is chosen instead has a deadline that is no
/// later than its own.
pub proof fn lemma_most_starved_is_considered(
    shared: EevdfShared,
    states: Seq<ProcState>,
    avg_vruntime: u64,
    pick: Option<usize>,
    q: int,
)
    requires
        avg_vruntime == mean_vruntime(shared.vruntime@, states),
        active_total(shared.vruntime@, states, NPROC as nat) <= u64::MAX,
        picks_preferred(
            deadline_keys(shared, states, avg_vruntime),
            vruntime_keys(shared.vruntime@, states),
            pick,
        ),
        0 <= q < NPROC,
        states[q] == ProcState::RUNNABLE,
        is_active_min(shared.vruntime@, states, shared.vruntime@[q]),
        shared.deadline@[q] < u64::MAX,
    ensures
        shared.vruntime@[q] <= avg_vruntime,
        pick is Some,
        shared.vruntime@[pick->0 as int] <= avg_vruntime,
        shared.deadline@[pick->0 as int] <= shared.deadline@[q],
{
    lemma_least_is_eligible(shared.vruntime@, states, q);
    lemma_earliest_eligible_runs(shared, states, avg_vruntime, pick, q);
}

/// Bounded lag: a task that is switched in, or that hands the CPU back, has a
/// deadline ahead of its vruntime, and at most a slice ahead.
pub proof fn lemma_deadline_ahead(
    e: Eevdf,
    s: EevdfShared,
    i: usize,
    s2: EevdfShared,
    s3: EevdfShared,
    s4: EevdfShared,
)
    requires
        s.inv(),
        s3.inv(),
        e.begin_ok(s, i),
        begun(s, i as int, s2),
        e.finish_ok(s3, i),
        charged(s3, i as int, s4),
    ensures
        s2.vruntime@[i as int] < s2.deadline@[i as int] <= s2.vruntime@[i as int] + SCHED_SLICE,
        s4.vruntime@[i as int] < s4.deadline@[i as int] <= s4.vruntime@[i as int] + SCHED_SLICE,
{
}

/// A task that slept starts its turn at most the lag limit behind the floor.
pub proof fn lemma_wakeup_lag_bounded(s: EevdfShared, i: int, s2: EevdfShared)
    requires
        0 <= i < NPROC,
        begun(s, i, s2),
    ensures
        s2.vruntime@[i] >= s.min_vruntime - WAKEUP_LAG_LIMIT,
        s2.vruntime@[i] >= s.vruntime@[i],
{
}

/// An eligible task cannot run far ahead: its turn takes it at most one unit
/// above the mean, or above the clamped start if that is higher.
pub proof fn lemma_eligible_stays_near_mean(
    s: EevdfShared,
    i: int,
    avg_vruntime: u64,
    s2: EevdfShared,
    s3: EevdfShared,
)
    requires
        0 <= i < NPROC,
        s.vruntime@[i] <= avg_vruntime,
        begun(s, i, s2),
        s2.vruntime@[i] < u64::MAX,
        charged(s2, i, s3),
    ensures
        s3.vruntime@[i] <= max_int(avg_vruntime as int, s.min_vruntime - WAKEUP_LAG_LIMIT)
            + SCHED_MIN_GRANULARITY,
{
}

} // verus!
