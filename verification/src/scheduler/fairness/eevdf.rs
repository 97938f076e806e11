//! Runs of EEVDF.

use crate::arith::max_int;
use crate::process::{is_active, ProcState, NPROC};
use crate::scheduler::Scheduler;
use crate::scheduler::eevdf::{
    begun, charged, deadline_keys, scanned, Eevdf, EevdfShared, SCHED_SLICE, WAKEUP_LAG_LIMIT,
};
use crate::scheduler::fairness::{
    anchored, lemma_mean_below_top, lemma_scan_keeps_anchor, lemma_turn_starts_at_level,
};
use crate::scheduler::scan::{precedes, turn};
use crate::scheduler::vtime::{clamped, lemma_pick_is_least, vruntime_keys, Survey};
use vstd::prelude::*;

verus! {

/// One pass of a CPU.
pub struct EevdfPass {
    /// The states in which the first pass over the table saw the tasks.
    pub surveyed: Seq<ProcState>,
    /// The states in which the second one saw them.
    pub states: Seq<ProcState>,
    pub survey: Survey,
    pub pick: Option<usize>,
    /// The tables after the floor was noted.
    pub noted: EevdfShared,
    /// The tables when the chosen task is switched in.
    pub switched: EevdfShared,
    pub after: EevdfShared,
}

/// `p` is a pass that finds the tables `s`.
pub open spec fn is_pass(s: EevdfShared, p: EevdfPass) -> bool {
    &&& scanned(s, p.surveyed, p.states, p.survey, p.noted, p.pick)
    &&& match p.pick {
        Some(i) => {
            &&& Eevdf.begin_ok(p.noted, i)
            &&& begun(p.noted, i as int, p.switched)
            &&& Eevdf.finish_ok(p.switched, i)
            &&& charged(p.switched, i as int, p.after)
        },
        None => p.after == p.noted,
    }
}

/// The tables after the first `t` passes.
pub open spec fn tables_after(s: EevdfShared, run: Seq<EevdfPass>, t: nat) -> EevdfShared {
    if t == 0 {
        s
    } else {
        run[t - 1].after
    }
}

/// `run` is a series of passes from the tables `s`.
pub open spec fn is_run(s: EevdfShared, run: Seq<EevdfPass>) -> bool {
    forall|t: int|
        0 <= t < run.len() ==> is_pass(tables_after(s, run, t as nat), #[trigger] run[t])
}

/// Slot `i` is runnable in every pass.
pub open spec fn stays_runnable(run: Seq<EevdfPass>, i: int) -> bool {
    forall|t: int|
        0 <= t < run.len() ==> (#[trigger] run[t]).surveyed[i] == ProcState::RUNNABLE
            && run[t].states[i] == ProcState::RUNNABLE
}

/// Every pass finds the tasks in the same states, and none is running on
/// another CPU.
pub open spec fn same_crowd(run: Seq<EevdfPass>, states: Seq<ProcState>) -> bool {
    &&& forall|t: int|
        0 <= t < run.len() ==> (#[trigger] run[t]).surveyed == states && run[t].states == states
    &&& forall|i: int| 0 <= i < NPROC ==> #[trigger] states[i] != ProcState::RUNNING
}

/// How many of the first `t` passes gave slot `i` a turn.
pub open spec fn turns(run: Seq<EevdfPass>, i: int, t: nat) -> nat
    decreases t,
{
    if t == 0 {
        0
    } else {
        turns(run, i, (t - 1) as nat) + if run[t - 1].pick == Some(i as usize) {
            1nat
        } else {
            0
        }
    }
}

/// The level of slot `i` in `now`, in a run that began with the tables `s`.
pub open spec fn level(s: EevdfShared, now: EevdfShared, i: int) -> int {
    clamped(now.vruntime@[i], s.min_vruntime, WAKEUP_LAG_LIMIT) as int
}

/// Any two runnable tasks are within `spread` of each other.
pub open spec fn levels_within(
    s: EevdfShared,
    now: EevdfShared,
    states: Seq<ProcState>,
    spread: int,
) -> bool {
    forall|a: int, b: int|
        0 <= a < NPROC && 0 <= b < NPROC && states[a] == ProcState::RUNNABLE && states[b]
            == ProcState::RUNNABLE ==> #[trigger] level(s, now, a) <= #[trigger] level(s, now, b)
            + spread
}

/// The floor never falls.
pub proof fn lemma_floor_never_falls(s: EevdfShared, run: Seq<EevdfPass>, t: nat, u: nat)
    requires
        is_run(s, run),
        t <= u <= run.len(),
    ensures
        tables_after(s, run, t).min_vruntime <= tables_after(s, run, u).min_vruntime,
    decreases u,
{
    if t < u {
        lemma_floor_never_falls(s, run, t, (u - 1) as nat);
        assert(is_pass(tables_after(s, run, (u - 1) as nat), run[u - 1]));
    }
}

/// No deadline is ever more than a slice ahead.
pub proof fn lemma_deadlines_stay_near(s: EevdfShared, run: Seq<EevdfPass>, t: nat)
    requires
        is_run(s, run),
        s.inv(),
        t <= run.len(),
    ensures
        tables_after(s, run, t).inv(),
    decreases t,
{
    if t > 0 {
        let before = tables_after(s, run, (t - 1) as nat);
        let after = tables_after(s, run, t);
        lemma_deadlines_stay_near(s, run, (t - 1) as nat);
        assert(is_pass(before, run[t - 1]));
        assert forall|i: int| 0 <= i < NPROC implies #[trigger] after.deadline@[i]
            <= after.vruntime@[i] + SCHED_SLICE by {
            assert(before.deadline@[i] <= before.vruntime@[i] + SCHED_SLICE);
        }
    }
}

/// Bounded lag: once a task has had a turn its deadline is always ahead of its
/// vruntime, and at most a slice ahead.
pub proof fn lemma_deadline_stays_ahead(s: EevdfShared, run: Seq<EevdfPass>, i: int, t: nat)
    requires
        is_run(s, run),
        s.inv(),
        t <= run.len(),
        0 <= i < NPROC,
        turns(run, i, t) > 0,
    ensures
        ({
            let now = tables_after(s, run, t);
            now.vruntime@[i] < now.deadline@[i] <= now.vruntime@[i] + SCHED_SLICE
        }),
    decreases t,
{
    lemma_deadlines_stay_near(s, run, t);
    let before = tables_after(s, run, (t - 1) as nat);
    assert(is_pass(before, run[t - 1]));
    assert(tables_after(s, run, t).deadline@[i] <= tables_after(s, run, t).vruntime@[i]
        + SCHED_SLICE);
    if run[t - 1].pick != Some(i as usize) {
        lemma_deadline_stays_ahead(s, run, i, (t - 1) as nat);
    }
}

/// The level of a task that stays runnable counts its turns.
pub proof fn lemma_level_counts_turns(s: EevdfShared, run: Seq<EevdfPass>, i: int, t: nat)
    requires
        is_run(s, run),
        t <= run.len(),
        0 <= i < NPROC,
        stays_runnable(run, i),
    ensures
        ({
            let now = tables_after(s, run, t);
            &&& anchored(now.vruntime@[i], s.min_vruntime, now.min_vruntime)
            &&& level(s, now, i) == level(s, s, i) + turns(run, i, t)
        }),
    decreases t,
{
    if t > 0 {
        let before = tables_after(s, run, (t - 1) as nat);
        let p = run[t - 1];
        lemma_level_counts_turns(s, run, i, (t - 1) as nat);
        assert(is_pass(before, p));
        assert(p.states[i] == ProcState::RUNNABLE);
        lemma_scan_keeps_anchor(
            before.vruntime@,
            p.surveyed,
            p.survey.active_min,
            i,
            s.min_vruntime,
            before.min_vruntime,
        );
        lemma_turn_starts_at_level(
            before.vruntime@[i],
            s.min_vruntime,
            p.noted.min_vruntime,
            WAKEUP_LAG_LIMIT,
        );
    }
}

/// The task that a pass chooses is no further from its deadline than any
/// runnable one, or has no more vruntime.
pub proof fn lemma_pick_is_due(s: EevdfShared, p: EevdfPass, pick: usize, q: int)
    requires
        is_pass(s, p),
        p.pick == Some(pick),
        0 <= q < NPROC,
        p.states[q] == ProcState::RUNNABLE,
    ensures
        s.vruntime@[pick as int] <= s.vruntime@[q] || s.deadline@[pick as int]
            <= s.deadline@[q],
        s.vruntime@[pick as int] <= p.survey.avg_vruntime || s.vruntime@[pick as int]
            <= s.vruntime@[q],
{
    let preferred = deadline_keys(p.noted, p.states, p.survey.avg_vruntime);
    if exists|i: int| 0 <= i < NPROC && #[trigger] preferred[i] is Some {
        assert(preferred[pick as int] is Some);
        assert(turn(0, q) == q);
        if preferred[q] is Some {
            assert(precedes(preferred, 0, pick as int, q));
        }
    } else {
        lemma_pick_is_least(p.noted.vruntime@, p.states, pick, q);
    }
}

/// Between two tasks that stay runnable, whatever the others do, the one is
/// never more than `bound` ahead of the other, for any bound of at least a
/// slice that is not reached at the beginning.
pub proof fn lemma_levels_stay_close(
    s: EevdfShared,
    run: Seq<EevdfPass>,
    p: int,
    q: int,
    bound: int,
    t: nat,
)
    requires
        is_run(s, run),
        s.inv(),
        t <= run.len(),
        0 <= p < NPROC,
        0 <= q < NPROC,
        stays_runnable(run, p),
        stays_runnable(run, q),
        bound >= SCHED_SLICE,
        level(s, s, p) < level(s, s, q) + bound,
    ensures
        ({
            let now = tables_after(s, run, t);
            &&& level(s, now, p) <= level(s, now, q) + bound
            &&& now.vruntime@[p] < now.deadline@[p] || level(s, now, p) < level(s, now, q) + bound
        }),
    decreases t,
{
    if t > 0 {
        let before = tables_after(s, run, (t - 1) as nat);
        let pass = run[t - 1];
        lemma_levels_stay_close(s, run, p, q, bound, (t - 1) as nat);
        lemma_deadlines_stay_near(s, run, (t - 1) as nat);
        lemma_level_counts_turns(s, run, p, (t - 1) as nat);
        lemma_level_counts_turns(s, run, q, (t - 1) as nat);
        lemma_level_counts_turns(s, run, p, t);
        lemma_level_counts_turns(s, run, q, t);
        assert(is_pass(before, pass));
        assert(pass.states[q] == ProcState::RUNNABLE);
        if pass.pick == Some(p as usize) {
            assert(before.deadline@[q] <= before.vruntime@[q] + SCHED_SLICE);
            lemma_pick_is_due(before, pass, p as usize, q);
            lemma_deadline_stays_ahead(s, run, p, t);
        }
    }
}

/// Fairness: of two tasks that stay runnable, whatever the others do, neither
/// gets more than a slice of turns more than the other, apart from what they
/// differ by at the beginning.
pub proof fn lemma_turns_stay_close(s: EevdfShared, run: Seq<EevdfPass>, p: int, q: int, t: nat)
    requires
        is_run(s, run),
        s.inv(),
        t <= run.len(),
        0 <= p < NPROC,
        0 <= q < NPROC,
        stays_runnable(run, p),
        stays_runnable(run, q),
    ensures
        ({
            let lead = level(s, s, p) - level(s, s, q);
            turns(run, p, t) - turns(run, q, t) <= max_int(SCHED_SLICE as int, lead + 1) - lead
        }),
        level(s, s, p) == level(s, s, q) ==> turns(run, p, t) <= turns(run, q, t) + SCHED_SLICE,
{
    let bound = max_int(SCHED_SLICE as int, level(s, s, p) + 1 - level(s, s, q));
    lemma_levels_stay_close(s, run, p, q, bound, t);
    lemma_level_counts_turns(s, run, p, t);
    lemma_level_counts_turns(s, run, q, t);
}

/// While the same tasks compete, their levels stay within any spread of at least
/// one turn that they are within at the beginning, whatever their deadlines.
pub proof fn lemma_crowd_stays_close(
    s: EevdfShared,
    run: Seq<EevdfPass>,
    states: Seq<ProcState>,
    spread: int,
    t: nat,
)
    requires
        is_run(s, run),
        t <= run.len(),
        same_crowd(run, states),
        spread >= 1,
        levels_within(s, s, states, spread),
    ensures
        levels_within(s, tables_after(s, run, t), states, spread),
    decreases t,
{
    if t > 0 {
        let before = tables_after(s, run, (t - 1) as nat);
        let after = tables_after(s, run, t);
        let pass = run[t - 1];
        lemma_crowd_stays_close(s, run, states, spread, (t - 1) as nat);
        assert(is_pass(before, pass));
        assert(pass.states == states);
        assert forall|a: int, b: int|
            0 <= a < NPROC && 0 <= b < NPROC && states[a] == ProcState::RUNNABLE && states[b]
                == ProcState::RUNNABLE implies #[trigger] level(s, after, a) <= #[trigger] level(
            s,
            after,
            b,
        ) + spread by {
            assert(stays_runnable(run, a));
            assert(stays_runnable(run, b));
            lemma_level_counts_turns(s, run, a, (t - 1) as nat);
            lemma_level_counts_turns(s, run, b, (t - 1) as nat);
            lemma_level_counts_turns(s, run, a, t);
            lemma_level_counts_turns(s, run, b, t);
            assert(level(s, before, a) <= level(s, before, b) + spread);
            if pass.pick == Some(a as usize) && level(s, before, a) == level(s, before, b)
                + spread {
                lemma_leader_waits(s, before, pass, states, spread, a, b);
            }
        }
    }
}

/// The task that is furthest ahead of another is not the one that runs.
proof fn lemma_leader_waits(
    s: EevdfShared,
    before: EevdfShared,
    pass: EevdfPass,
    states: Seq<ProcState>,
    spread: int,
    a: int,
    b: int,
)
    requires
        is_pass(before, pass),
        pass.surveyed == states,
        pass.states == states,
        forall|i: int| 0 <= i < NPROC ==> #[trigger] states[i] != ProcState::RUNNING,
        levels_within(s, before, states, spread),
        spread >= 1,
        0 <= a < NPROC,
        0 <= b < NPROC,
        states[a] == ProcState::RUNNABLE,
        states[b] == ProcState::RUNNABLE,
        level(s, before, a) == level(s, before, b) + spread,
    ensures
        pass.pick != Some(a as usize),
{
    let top = before.vruntime@[a];
    assert forall|i: int| 0 <= i < NPROC && is_active(states[i]) implies #[trigger] before.vruntime@[i]
        <= top by {
        assert(states[i] != ProcState::RUNNING);
        assert(level(s, before, i) <= level(s, before, b) + spread);
    }
    lemma_mean_below_top(before.vruntime@, states, top, b);
    if pass.pick == Some(a as usize) {
        lemma_pick_is_due(before, pass, a as usize, b);
    }
}

/// A pass gives some task a turn, as long as one is runnable with a vruntime
/// below the limit of its type.
pub proof fn lemma_pass_runs_a_task(s: EevdfShared, p: EevdfPass, i: int)
    requires
        is_pass(s, p),
        0 <= i < NPROC,
        p.states[i] == ProcState::RUNNABLE,
        s.vruntime@[i] < u64::MAX,
    ensures
        p.pick is Some,
        p.states[p.pick->0 as int] == ProcState::RUNNABLE,
{
    let preferred = deadline_keys(p.noted, p.states, p.survey.avg_vruntime);
    let others = vruntime_keys(p.noted.vruntime@, p.states);
    assert(others[i] is Some);
    assert(turn(0, i) == i);
    if exists|k: int| 0 <= k < NPROC && #[trigger] preferred[k] is Some {
        let k = choose|k: int| 0 <= k < NPROC && #[trigger] preferred[k] is Some;
        assert(turn(0, k) == k);
        assert(p.pick is Some);
        assert(preferred[p.pick->0 as int] is Some);
    } else {
        assert(others[p.pick->0 as int] is Some);
    }
}

/// Fairness while the same tasks compete: if they begin level, the numbers of
/// their turns are never more than one apart, whatever their deadlines.
pub proof fn lemma_crowd_shares_turns(
    s: EevdfShared,
    run: Seq<EevdfPass>,
    states: Seq<ProcState>,
    p: int,
    q: int,
    t: nat,
)
    requires
        is_run(s, run),
        t <= run.len(),
        same_crowd(run, states),
        levels_within(s, s, states, 0),
        0 <= p < NPROC,
        0 <= q < NPROC,
        states[p] == ProcState::RUNNABLE,
        states[q] == ProcState::RUNNABLE,
    ensures
        turns(run, p, t) <= turns(run, q, t) + 1,
{
    let now = tables_after(s, run, t);
    assert(level(s, s, p) <= level(s, s, q) + 0);
    assert(level(s, s, q) <= level(s, s, p) + 0);
    assert forall|a: int, b: int|
        0 <= a < NPROC && 0 <= b < NPROC && states[a] == ProcState::RUNNABLE && states[b]
            == ProcState::RUNNABLE implies #[trigger] level(s, s, a) <= #[trigger] level(s, s, b)
        + 1 by {
        assert(level(s, s, a) <= level(s, s, b) + 0);
    }
    lemma_crowd_stays_close(s, run, states, 1, t);
    assert(level(s, now, p) <= level(s, now, q) + 1);
    assert(stays_runnable(run, p));
    assert(stays_runnable(run, q));
    lemma_level_counts_turns(s, run, p, t);
    lemma_level_counts_turns(s, run, q, t);
}

} // verus!
