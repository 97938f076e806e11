//! Runs of the multi-level feedback queue.

use crate::process::{ProcState, NPROC};
use crate::scheduler::Scheduler;
use crate::scheduler::mlfq::{
    accounted, boosts, exhausted, lemma_charge_keeps_wf, level_keys, Mlfq, MlfqShared,
    BOOST_INTERVAL, NUM_LEVELS,
};
use crate::scheduler::scan::{
    lemma_equal_comes_closer, lemma_equal_has_its_turn, lemma_turn_injective, picks_least,
    precedes, turn, Scan,
};
use vstd::prelude::*;

verus! {

/// One pass of a CPU.
pub struct MlfqPass {
    pub cpu: Mlfq,
    /// The tables that the pass finds.
    pub found: MlfqShared,
    pub states: Seq<ProcState>,
    pub pick: Option<usize>,
    pub after: MlfqShared,
    pub cpu_after: Mlfq,
}

/// `p` is a pass: a scan, the turn of the task that it chose, and the accounting.
pub open spec fn is_pass(p: MlfqPass) -> bool {
    &&& p.cpu.wf()
    &&& picks_least(level_keys(p.found.queue_level@, p.states), p.cpu.scan_offset as int, p.pick)
    &&& match p.pick {
        Some(i) => {
            &&& p.cpu.finish_ok(p.found, i)
            &&& accounted(p.found, i as int, p.after)
            &&& p.cpu_after.scan_offset == (i + 1) % (NPROC as int)
        },
        None => p.after == p.found && p.cpu_after == p.cpu,
    }
}

/// Between the tables `s` and `s2` some processes may have taken slots.
pub open spec fn only_newcomers(s: MlfqShared, s2: MlfqShared) -> bool {
    &&& forall|k: int|
        0 <= k < NPROC ==> #[trigger] s2.queue_level@[k] == s.queue_level@[k]
            && s2.ticks_at_level@[k] == s.ticks_at_level@[k] || s2.queue_level@[k] == 0
            && s2.ticks_at_level@[k] == 0
    &&& s2.dispatch_count == s.dispatch_count
}

/// `run` is a series of passes of one CPU, with newcomers in between.
pub open spec fn is_run(run: Seq<MlfqPass>) -> bool {
    &&& forall|t: int| 0 <= t < run.len() ==> is_pass(#[trigger] run[t])
    &&& forall|t: int|
        0 < t < run.len() ==> (#[trigger] run[t]).cpu == run[t - 1].cpu_after && only_newcomers(
            run[t - 1].after,
            run[t].found,
        )
}

/// Slot `i` is runnable in every pass.
pub open spec fn stays_runnable(run: Seq<MlfqPass>, i: int) -> bool {
    forall|t: int| 0 <= t < run.len() ==> (#[trigger] run[t]).states[i] == ProcState::RUNNABLE
}

/// The tables stay well-formed.
pub proof fn lemma_tables_stay_wf(run: Seq<MlfqPass>, t: int)
    requires
        is_run(run),
        0 <= t < run.len(),
        run[0].found.wf(),
    ensures
        run[t].found.wf(),
        run[t].after.wf(),
    decreases t,
{
    if t > 0 {
        lemma_tables_stay_wf(run, t - 1);
        let s = run[t - 1].after;
        let s2 = run[t].found;
        assert(only_newcomers(s, s2));
        assert forall|k: int| 0 <= k < NPROC implies #[trigger] s2.queue_level@[k] < NUM_LEVELS by {
            assert(s.queue_level@[k] < NUM_LEVELS);
        }
        assert forall|k: int| 0 <= k < NPROC implies !exhausted(
            s2.queue_level@[k],
            #[trigger] s2.ticks_at_level@[k],
        ) && s2.ticks_at_level@[k] <= s2.dispatch_count % BOOST_INTERVAL by {
            assert(s2.queue_level@[k] == 0 || s2.queue_level@[k] == s.queue_level@[k]);
            assert(!exhausted(s.queue_level@[k], s.ticks_at_level@[k]));
            assert(s.ticks_at_level@[k] <= s.dispatch_count % BOOST_INTERVAL);
        }
    }
    let p = run[t];
    assert(is_pass(p));
    if p.pick is Some && !boosts(p.found.dispatch_count) {
        lemma_charge_keeps_wf(p.found, p.pick->0 as int, p.after);
    }
}

/// While a task is runnable, every pass gives some task a turn.
pub proof fn lemma_pass_runs_a_task(p: MlfqPass, i: int)
    requires
        is_pass(p),
        p.found.wf(),
        0 <= i < NPROC,
        p.states[i] == ProcState::RUNNABLE,
    ensures
        p.pick is Some,
        p.pick->0 < NPROC,
        p.found.queue_level@[p.pick->0 as int] <= p.found.queue_level@[i],
        p.after.dispatch_count == p.found.dispatch_count + 1,
{
    let keys = level_keys(p.found.queue_level@, p.states);
    assert(p.found.queue_level@[i] < NUM_LEVELS);
    assert(keys[i] is Some);
    lemma_turn_injective(p.cpu.scan_offset as int);
    assert(turn(p.cpu.scan_offset as int, i) < NPROC);
    if p.pick is Some {
        assert(precedes(keys, p.cpu.scan_offset as int, p.pick->0 as int, i));
    }
}

/// The dispatches are counted one by one.
pub proof fn lemma_dispatches_counted(run: Seq<MlfqPass>, i: int, t: int, u: int)
    requires
        is_run(run),
        run[0].found.wf(),
        0 <= i < NPROC,
        stays_runnable(run, i),
        0 <= t <= u < run.len(),
    ensures
        run[u].found.dispatch_count == run[t].found.dispatch_count + (u - t),
    decreases u - t,
{
    if t < u {
        lemma_dispatches_counted(run, i, t, u - 1);
        lemma_tables_stay_wf(run, u - 1);
        assert(run[u - 1].states[i] == ProcState::RUNNABLE);
        lemma_pass_runs_a_task(run[u - 1], i);
        assert(only_newcomers(run[u - 1].after, run[u].found));
    }
}

/// A task at the highest priority that stays runnable has a turn after at most
/// as many others as precede it in the scan.
pub proof fn lemma_top_task_has_its_turn(run: Seq<MlfqPass>, i: int, t: int)
    requires
        is_run(run),
        run[0].found.wf(),
        0 <= i < NPROC,
        stays_runnable(run, i),
        0 <= t < run.len(),
        run[t].found.queue_level@[i] == 0,
        t + turn(run[t].cpu.scan_offset as int, i) < run.len(),
    ensures
        exists|u: int|
            t <= u <= t + turn(run[t].cpu.scan_offset as int, i) && (#[trigger] run[u]).pick
                == Some(i as usize),
    decreases turn(run[t].cpu.scan_offset as int, i),
{
    let p = run[t];
    let start = p.cpu.scan_offset as int;
    lemma_tables_stay_wf(run, t);
    assert(is_pass(p));
    assert(p.states[i] == ProcState::RUNNABLE);
    lemma_pass_runs_a_task(p, i);
    let pick = p.pick->0;
    if pick == i {
        assert(run[t].pick == Some(i as usize));
    } else {
        let keys = level_keys(p.found.queue_level@, p.states);
        assert(keys[pick as int] is Some);
        lemma_turn_injective(start);
        lemma_equal_comes_closer(keys, start, pick, i, p.cpu_after.scan_offset as int);
        assert(p.after.queue_level@[i] == 0);
        assert(run[t + 1].cpu == run[t].cpu_after);
        assert(only_newcomers(run[t].after, run[t + 1].found));
        lemma_top_task_has_its_turn(run, i, t + 1);
        let u = choose|u: int|
            t + 1 <= u <= t + 1 + turn(run[t + 1].cpu.scan_offset as int, i) && (
            #[trigger] run[u]).pick == Some(i as usize);
        assert(run[u].pick == Some(i as usize));
    }
}

/// Rule 5 prevents starvation: a task that stays runnable has a turn within
/// `BOOST_INTERVAL + NPROC` dispatches, whatever newcomers there are.
pub proof fn lemma_no_starvation(run: Seq<MlfqPass>, i: int, t: int)
    requires
        is_run(run),
        run[0].found.wf(),
        0 <= i < NPROC,
        stays_runnable(run, i),
        0 <= t,
        t + BOOST_INTERVAL + NPROC <= run.len(),
    ensures
        exists|u: int|
            t <= u < t + BOOST_INTERVAL + NPROC && (#[trigger] run[u]).pick == Some(i as usize),
{
    let count = run[t].found.dispatch_count;
    let wait = BOOST_INTERVAL - 1 - count as int % BOOST_INTERVAL as int;
    let b = t + wait;
    lemma_dispatches_counted(run, i, t, b);
    lemma_tables_stay_wf(run, b);
    assert(is_pass(run[b]));
    assert(run[b].states[i] == ProcState::RUNNABLE);
    lemma_pass_runs_a_task(run[b], i);
    assert(boosts(run[b].found.dispatch_count));
    assert(run[b].after.queue_level@[i] == 0);
    assert(run[b + 1].cpu == run[b].cpu_after);
    assert(only_newcomers(run[b].after, run[b + 1].found));
    assert(run[b + 1].found.queue_level@[i] == 0);
    assert(is_pass(run[b + 1]));
    lemma_turn_injective(run[b + 1].cpu.scan_offset as int);
    assert(turn(run[b + 1].cpu.scan_offset as int, i) < NPROC);
    lemma_top_task_has_its_turn(run, i, b + 1);
    let u = choose|u: int|
        b + 1 <= u <= b + 1 + turn(run[b + 1].cpu.scan_offset as int, i) && (
        #[trigger] run[u]).pick == Some(i as usize);
    assert(run[u].pick == Some(i as usize));
}

/// Slot `q` is runnable at the level of the task that runs, in every pass.
pub open spec fn shares_level(run: Seq<MlfqPass>, q: int) -> bool {
    forall|t: int|
        0 <= t < run.len() ==> (#[trigger] run[t]).pick is Some && run[t].states[q]
            == ProcState::RUNNABLE && run[t].found.queue_level@[q]
            == run[t].found.queue_level@[run[t].pick->0 as int]
}

/// Rule 2: a task at the level of those that run has its turn within `NPROC`
/// dispatches.
pub proof fn lemma_equals_share_turns(run: Seq<MlfqPass>, q: int)
    requires
        is_run(run),
        0 <= q < NPROC,
        shares_level(run, q),
        run.len() >= NPROC,
    ensures
        exists|u: int| 0 <= u < NPROC && (#[trigger] run[u]).pick == Some(q as usize),
{
    let scans = Seq::new(
        run.len(),
        |t: int|
            Scan {
                keys: level_keys(run[t].found.queue_level@, run[t].states),
                start: run[t].cpu.scan_offset as int,
                pick: run[t].pick->0,
            },
    );
    assert forall|t: int| 0 <= t < scans.len() implies 0 <= (#[trigger] scans[t]).start < NPROC
        && picks_least(scans[t].keys, scans[t].start, Some(scans[t].pick)) && scans[t].keys[q]
        == scans[t].keys[scans[t].pick as int] by {
        assert(is_pass(run[t]));
        assert(run[t].pick is Some);
        assert(scans[t].keys[scans[t].pick as int] is Some);
    }
    assert forall|t: int| 0 < t < scans.len() implies (#[trigger] scans[t]).start == (scans[t
        - 1].pick + 1) % (NPROC as int) by {
        assert(run[t].cpu == run[t - 1].cpu_after);
        assert(is_pass(run[t - 1]));
        assert(run[t - 1].pick is Some);
    }
    lemma_turn_injective(scans[0].start);
    assert(turn(scans[0].start, q) < NPROC);
    lemma_equal_has_its_turn(scans, q, 0);
    let u = choose|u: int|
        0 <= u <= turn(scans[0].start, q) && (#[trigger] scans[u]).pick == q;
    assert(scans[u].pick == q);
    assert(run[u].pick is Some);
    assert(run[u].pick == Some(q as usize));
}

} // verus!
