//! Runs of EEVDF with learned deadlines.

use crate::arith::max_int;
use crate::process::{ProcState, NPROC};
use crate::scheduler::Scheduler;
use crate::scheduler::fairness::{anchored, lemma_scan_keeps_anchor, lemma_turn_starts_at_level};
use crate::scheduler::hybrid_drl::{
    begun, charged, lemma_adjustment_bounded, scanned, slot_of, HybridChoice, HybridDrl,
    HybridShared, MAX_DRL_ADJ, SCHED_SLICE, WAKEUP_LAG_LIMIT,
};
use crate::scheduler::scan::{precedes, turn};
use crate::scheduler::vtime::{clamped, lemma_pick_is_least, Survey};
use vstd::prelude::*;

verus! {

/// One pass of a CPU. The learner may be any: it may have changed in any way
/// since the pass before.
pub struct HybridPass {
    /// The states in which the first pass over the table saw the tasks.
    pub surveyed: Seq<ProcState>,
    /// The states in which the second one saw them.
    pub states: Seq<ProcState>,
    /// The learner when it chooses.
    pub learner: HybridDrl,
    /// The round in which the pass began.
    pub round: u64,
    pub survey: Survey,
    pub choice: Option<HybridChoice>,
    /// The tables after the states were observed.
    pub observed: HybridShared,
    /// The tables after the floor was noted.
    pub noted: HybridShared,
    /// The learner when the chosen task is switched in.
    pub recorded: HybridDrl,
    /// The tables when the chosen task is switched in.
    pub switched: HybridShared,
    pub after: HybridShared,
}

/// `p` is a pass that finds the tables `s`. What the observation of the states
/// does to wake credit and bursts is left open.
pub open spec fn is_pass(s: HybridShared, p: HybridPass) -> bool {
    &&& p.observed.vruntime == s.vruntime
    &&& p.observed.deadline == s.deadline
    &&& p.observed.min_vruntime == s.min_vruntime
    &&& scanned(
        p.learner,
        p.observed,
        p.surveyed,
        p.states,
        p.round,
        p.survey,
        p.noted,
        p.choice,
    )
    &&& match p.choice {
        Some(c) => {
            &&& p.learner.begin_ok(p.noted, c)
            &&& begun(p.learner, p.noted, c, p.recorded, p.switched)
            &&& p.recorded.finish_ok(p.switched, c)
            &&& charged(p.switched, c.idx as int, p.after)
        },
        None => p.after == p.noted,
    }
}

/// No deadline is more than a slice ahead.
pub open spec fn deadlines_near(s: HybridShared) -> bool {
    forall|i: int|
        0 <= i < NPROC ==> #[trigger] s.deadline@[i] <= s.vruntime@[i] + SCHED_SLICE
}

/// The tables after the first `t` passes.
pub open spec fn tables_after(s: HybridShared, run: Seq<HybridPass>, t: nat) -> HybridShared {
    if t == 0 {
        s
    } else {
        run[t - 1].after
    }
}

/// `run` is a series of passes from the tables `s`.
pub open spec fn is_run(s: HybridShared, run: Seq<HybridPass>) -> bool {
    forall|t: int|
        0 <= t < run.len() ==> is_pass(tables_after(s, run, t as nat), #[trigger] run[t])
}

/// Slot `i` is runnable in every pass.
pub open spec fn stays_runnable(run: Seq<HybridPass>, i: int) -> bool {
    forall|t: int|
        0 <= t < run.len() ==> (#[trigger] run[t]).surveyed[i] == ProcState::RUNNABLE
            && run[t].states[i] == ProcState::RUNNABLE
}

/// How many of the first `t` passes gave slot `i` a turn.
pub open spec fn turns(run: Seq<HybridPass>, i: int, t: nat) -> nat
    decreases t,
{
    if t == 0 {
        0
    } else {
        turns(run, i, (t - 1) as nat) + if slot_of(run[t - 1].choice) == Some(i as usize) {
            1nat
        } else {
            0
        }
    }
}

/// The level of slot `i` in `now`, in a run that began with the tables `s`.
pub open spec fn level(s: HybridShared, now: HybridShared, i: int) -> int {
    clamped(now.vruntime@[i], s.min_vruntime, WAKEUP_LAG_LIMIT) as int
}

/// The floor never falls.
pub proof fn lemma_floor_never_falls(s: HybridShared, run: Seq<HybridPass>, t: nat, u: nat)
    requires
        is_run(s, run),
        t <= u <= run.len(),
    ensures
        tables_after(s, run, t).min_vruntime <= tables_after(s, run, u).min_vruntime,
    decreases u,
{
    if t < u {
        lemma_floor_never_falls(s, run, t, (u - 1) as nat);
        assert(is_pass(tables_after(s, run, (u - 1) as nat), run[u - 1]));
    }
}

/// No deadline is ever more than a slice ahead.
pub proof fn lemma_deadlines_stay_near(s: HybridShared, run: Seq<HybridPass>, t: nat)
    requires
        is_run(s, run),
        deadlines_near(s),
        t <= run.len(),
    ensures
        deadlines_near(tables_after(s, run, t)),
    decreases t,
{
    if t > 0 {
        let before = tables_after(s, run, (t - 1) as nat);
        let after = tables_after(s, run, t);
        lemma_deadlines_stay_near(s, run, (t - 1) as nat);
        assert(is_pass(before, run[t - 1]));
        assert forall|i: int| 0 <= i < NPROC implies #[trigger] after.deadline@[i]
            <= after.vruntime@[i] + SCHED_SLICE by {
            assert(before.deadline@[i] <= before.vruntime@[i] + SCHED_SLICE);
        }
    }
}

/// Bounded lag: once a task has had a turn its deadline is always ahead of its
/// vruntime, and at most a slice ahead.
pub proof fn lemma_deadline_stays_ahead(s: HybridShared, run: Seq<HybridPass>, i: int, t: nat)
    requires
        is_run(s, run),
        deadlines_near(s),
        t <= run.len(),
        0 <= i < NPROC,
        turns(run, i, t) > 0,
    ensures
        ({
            let now = tables_after(s, run, t);
            now.vruntime@[i] < now.deadline@[i] <= now.vruntime@[i] + SCHED_SLICE
        }),
    decreases t,
{
    lemma_deadlines_stay_near(s, run, t);
    let before = tables_after(s, run, (t - 1) as nat);
    assert(is_pass(before, run[t - 1]));
    assert(tables_after(s, run, t).deadline@[i] <= tables_after(s, run, t).vruntime@[i]
        + SCHED_SLICE);
    if slot_of(run[t - 1].choice) != Some(i as usize) {
        lemma_deadline_stays_ahead(s, run, i, (t - 1) as nat);
    }
}

/// The level of a task that stays runnable counts its turns.
pub proof fn lemma_level_counts_turns(s: HybridShared, run: Seq<HybridPass>, i: int, t: nat)
    requires
        is_run(s, run),
        t <= run.len(),
        0 <= i < NPROC,
        stays_runnable(run, i),
    ensures
        ({
            let now = tables_after(s, run, t);
            &&& anchored(now.vruntime@[i], s.min_vruntime, now.min_vruntime)
            &&& level(s, now, i) == level(s, s, i) + turns(run, i, t)
        }),
    decreases t,
{
    if t > 0 {
        let before = tables_after(s, run, (t - 1) as nat);
        let p = run[t - 1];
        lemma_level_counts_turns(s, run, i, (t - 1) as nat);
        assert(is_pass(before, p));
        assert(p.states[i] == ProcState::RUNNABLE);
        lemma_scan_keeps_anchor(
            before.vruntime@,
            p.surveyed,
            p.survey.active_min,
            i,
            s.min_vruntime,
            before.min_vruntime,
        );
        lemma_turn_starts_at_level(
            before.vruntime@[i],
            s.min_vruntime,
            p.noted.min_vruntime,
            WAKEUP_LAG_LIMIT,
        );
    }
}

/// The task that a pass chooses is, give or take what the learner may add, no
/// further from its deadline than any runnable one, or has no more vruntime.
pub proof fn lemma_pick_is_due(s: HybridShared, p: HybridPass, pick: usize, q: int)
    requires
        is_pass(s, p),
        slot_of(p.choice) == Some(pick),
        0 <= q < NPROC,
        p.states[q] == ProcState::RUNNABLE,
    ensures
        s.vruntime@[pick as int] <= s.vruntime@[q] || s.deadline@[pick as int]
            <= s.deadline@[q] + 2 * MAX_DRL_ADJ,
{
    let avg = p.survey.avg_vruntime;
    let preferred = p.learner.deadline_keys(p.noted, p.states, p.round, avg);
    lemma_adjustment_bounded(p.learner, p.noted, pick as int, p.round, avg);
    lemma_adjustment_bounded(p.learner, p.noted, q, p.round, avg);
    if exists|i: int| 0 <= i < NPROC && #[trigger] preferred[i] is Some {
        assert(preferred[pick as int] is Some);
        assert(turn(0, q) == q);
        if preferred[q] is Some {
            assert(precedes(preferred, 0, pick as int, q));
        }
    } else {
        lemma_pick_is_least(p.noted.vruntime@, p.states, pick, q);
    }
}

/// Between two tasks that stay runnable, whatever the others do, the one is
/// never more than `bound` ahead of the other, for any bound of at least a
/// slice and twice the largest adjustment that is not reached at the beginning.
pub proof fn lemma_levels_stay_close(
    s: HybridShared,
    run: Seq<HybridPass>,
    p: int,
    q: int,
    bound: int,
    t: nat,
)
    requires
        is_run(s, run),
        deadlines_near(s),
        t <= run.len(),
        0 <= p < NPROC,
        0 <= q < NPROC,
        stays_runnable(run, p),
        stays_runnable(run, q),
        bound >= SCHED_SLICE + 2 * MAX_DRL_ADJ,
        level(s, s, p) < level(s, s, q) + bound,
    ensures
        ({
            let now = tables_after(s, run, t);
            &&& level(s, now, p) <= level(s, now, q) + bound
            &&& now.vruntime@[p] < now.deadline@[p] || level(s, now, p) < level(s, now, q) + bound
        }),
    decreases t,
{
    if t > 0 {
        let before = tables_after(s, run, (t - 1) as nat);
        let pass = run[t - 1];
        lemma_levels_stay_close(s, run, p, q, bound, (t - 1) as nat);
        lemma_deadlines_stay_near(s, run, (t - 1) as nat);
        lemma_level_counts_turns(s, run, p, (t - 1) as nat);
        lemma_level_counts_turns(s, run, q, (t - 1) as nat);
        lemma_level_counts_turns(s, run, p, t);
        lemma_level_counts_turns(s, run, q, t);
        assert(is_pass(before, pass));
        assert(pass.states[q] == ProcState::RUNNABLE);
        if slot_of(pass.choice) == Some(p as usize) {
            assert(before.deadline@[q] <= before.vruntime@[q] + SCHED_SLICE);
            lemma_pick_is_due(before, pass, p as usize, q);
            lemma_deadline_stays_ahead(s, run, p, t);
        }
    }
}

/// Fairness, whatever the learner has come to prefer and whatever the other tasks
/// do: of two tasks that stay runnable, neither gets more turns more than the
/// other than a slice and twice the largest adjustment, apart from what they
/// differ by at the beginning.
pub proof fn lemma_turns_stay_close(s: HybridShared, run: Seq<HybridPass>, p: int, q: int, t: nat)
    requires
        is_run(s, run),
        deadlines_near(s),
        t <= run.len(),
        0 <= p < NPROC,
        0 <= q < NPROC,
        stays_runnable(run, p),
        stays_runnable(run, q),
    ensures
        ({
            let lead = level(s, s, p) - level(s, s, q);
            turns(run, p, t) - turns(run, q, t) <= max_int(SCHED_SLICE + 2 * MAX_DRL_ADJ, lead + 1)
                - lead
        }),
        level(s, s, p) == level(s, s, q) ==> turns(run, p, t) <= turns(run, q, t) + SCHED_SLICE + 2
            * MAX_DRL_ADJ,
{
    let bound = max_int(SCHED_SLICE + 2 * MAX_DRL_ADJ, level(s, s, p) + 1 - level(s, s, q));
    lemma_levels_stay_close(s, run, p, q, bound, t);
    lemma_level_counts_turns(s, run, p, t);
    lemma_level_counts_turns(s, run, q, t);
}

} // verus!
