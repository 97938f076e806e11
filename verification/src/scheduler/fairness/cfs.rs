//! Runs of the completely fair scheduler.

use crate::arith::max_int;
use crate::process::{ProcState, NPROC};
use crate::scheduler::cfs::{
    begun, charged, scanned, CfsScan, CfsShared, SCHED_MIN_GRANULARITY, SLEEPER_BONUS,
};
use crate::scheduler::fairness::{anchored, lemma_scan_keeps_anchor, lemma_turn_starts_at_level};
use crate::scheduler::vtime::{clamped, lemma_pick_is_least};
use vstd::prelude::*;

verus! {

/// One pass of a CPU.
pub struct CfsPass {
    pub states: Seq<ProcState>,
    pub scan: CfsScan,
    /// The tables after the floor was noted.
    pub noted: CfsShared,
    /// The tables when the chosen task is switched in.
    pub switched: CfsShared,
    pub after: CfsShared,
}

/// `p` is a pass that finds the tables `s`.
pub open spec fn is_pass(s: CfsShared, p: CfsPass) -> bool {
    &&& scanned(s, p.states, p.scan, p.noted)
    &&& match p.scan.best {
        Some(i) => begun(p.noted, i as int, p.switched) && charged(p.switched, i as int, p.after),
        None => p.after == p.noted,
    }
}

/// The tables after the first `t` passes.
pub open spec fn tables_after(s: CfsShared, run: Seq<CfsPass>, t: nat) -> CfsShared {
    if t == 0 {
        s
    } else {
        run[t - 1].after
    }
}

/// `run` is a series of passes from the tables `s`.
pub open spec fn is_run(s: CfsShared, run: Seq<CfsPass>) -> bool {
    forall|t: int|
        0 <= t < run.len() ==> is_pass(tables_after(s, run, t as nat), #[trigger] run[t])
}

/// Slot `i` is runnable in every pass.
pub open spec fn stays_runnable(run: Seq<CfsPass>, i: int) -> bool {
    forall|t: int| 0 <= t < run.len() ==> (#[trigger] run[t]).states[i] == ProcState::RUNNABLE
}

/// How many of the first `t` passes gave slot `i` a turn.
pub open spec fn turns(run: Seq<CfsPass>, i: int, t: nat) -> nat
    decreases t,
{
    if t == 0 {
        0
    } else {
        turns(run, i, (t - 1) as nat) + if run[t - 1].scan.best == Some(i as usize) {
            1nat
        } else {
            0
        }
    }
}

/// The level of slot `i` in `now`, in a run that began with the tables `s`.
pub open spec fn level(s: CfsShared, now: CfsShared, i: int) -> int {
    clamped(now.vruntime@[i], s.min_vruntime, SLEEPER_BONUS) as int
}

/// The floor never falls.
pub proof fn lemma_floor_never_falls(s: CfsShared, run: Seq<CfsPass>, t: nat, u: nat)
    requires
        is_run(s, run),
        t <= u <= run.len(),
    ensures
        tables_after(s, run, t).min_vruntime <= tables_after(s, run, u).min_vruntime,
    decreases u,
{
    if t < u {
        lemma_floor_never_falls(s, run, t, (u - 1) as nat);
        assert(is_pass(tables_after(s, run, (u - 1) as nat), run[u - 1]));
    }
}

/// The level of a task that stays runnable counts its turns.
pub proof fn lemma_level_counts_turns(s: CfsShared, run: Seq<CfsPass>, i: int, t: nat)
    requires
        is_run(s, run),
        t <= run.len(),
        0 <= i < NPROC,
        stays_runnable(run, i),
    ensures
        ({
            let now = tables_after(s, run, t);
            &&& anchored(now.vruntime@[i], s.min_vruntime, now.min_vruntime)
            &&& level(s, now, i) == level(s, s, i) + turns(run, i, t)
        }),
    decreases t,
{
    if t > 0 {
        let before = tables_after(s, run, (t - 1) as nat);
        let p = run[t - 1];
        lemma_level_counts_turns(s, run, i, (t - 1) as nat);
        assert(is_pass(before, p));
        assert(p.states[i] == ProcState::RUNNABLE);
        lemma_scan_keeps_anchor(
            before.vruntime@,
            p.states,
            p.scan.active_min,
            i,
            s.min_vruntime,
            before.min_vruntime,
        );
        lemma_turn_starts_at_level(
            before.vruntime@[i],
            s.min_vruntime,
            p.noted.min_vruntime,
            SLEEPER_BONUS,
        );
        if p.scan.best is Some {
            lemma_pick_is_least(before.vruntime@, p.states, p.scan.best->0, i);
        }
    }
}

/// Between two tasks that stay runnable, whatever the others do, the one is
/// never more than `bound` ahead of the other, for any bound of at least one
/// turn that holds at the beginning.
pub proof fn lemma_levels_stay_close(
    s: CfsShared,
    run: Seq<CfsPass>,
    p: int,
    q: int,
    bound: int,
    t: nat,
)
    requires
        is_run(s, run),
        t <= run.len(),
        0 <= p < NPROC,
        0 <= q < NPROC,
        stays_runnable(run, p),
        stays_runnable(run, q),
        bound >= SCHED_MIN_GRANULARITY,
        level(s, s, p) <= level(s, s, q) + bound,
    ensures
        level(s, tables_after(s, run, t), p) <= level(s, tables_after(s, run, t), q) + bound,
    decreases t,
{
    if t > 0 {
        let before = tables_after(s, run, (t - 1) as nat);
        let pass = run[t - 1];
        lemma_levels_stay_close(s, run, p, q, bound, (t - 1) as nat);
        lemma_level_counts_turns(s, run, p, (t - 1) as nat);
        lemma_level_counts_turns(s, run, q, (t - 1) as nat);
        lemma_level_counts_turns(s, run, p, t);
        lemma_level_counts_turns(s, run, q, t);
        assert(is_pass(before, pass));
        assert(pass.states[q] == ProcState::RUNNABLE);
        if pass.scan.best == Some(p as usize) {
            lemma_pick_is_least(before.vruntime@, pass.states, p as usize, q);
        }
    }
}

/// Fairness: of two tasks that stay runnable, neither gets more than one turn
/// more than the other, apart from what they differ by at the beginning.
pub proof fn lemma_turns_stay_close(s: CfsShared, run: Seq<CfsPass>, p: int, q: int, t: nat)
    requires
        is_run(s, run),
        t <= run.len(),
        0 <= p < NPROC,
        0 <= q < NPROC,
        stays_runnable(run, p),
        stays_runnable(run, q),
    ensures
        ({
            let lead = level(s, s, p) - level(s, s, q);
            turns(run, p, t) - turns(run, q, t) <= max_int(SCHED_MIN_GRANULARITY as int, lead)
                - lead
        }),
        level(s, s, p) == level(s, s, q) ==> turns(run, p, t) <= turns(run, q, t) + 1,
{
    let bound = max_int(SCHED_MIN_GRANULARITY as int, level(s, s, p) - level(s, s, q));
    lemma_levels_stay_close(s, run, p, q, bound, t);
    lemma_level_counts_turns(s, run, p, t);
    lemma_level_counts_turns(s, run, q, t);
}

} // verus!
