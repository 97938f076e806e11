//! Runs of the O(1) scheduler.

use crate::process::{ProcState, NPROC};
use crate::scheduler::o1::{
    any_in_set, backlog, begun, charged, lemma_epoch_ends, lemma_timeslice_range,
    lemma_turn_shortens_epoch, priority_keys, slot_swapped, swap_attempted, turns_left, O1Scan,
    O1Shared, O1Step, MAX_TIMESLICE, O1,
};
use crate::scheduler::scan::{
    lemma_equal_has_its_turn, lemma_turn_injective, picks_least, turn, Scan,
};
use vstd::prelude::*;

verus! {

/// The most turns that an epoch can have.
pub const EPOCH_TURNS: usize = 384;

/// One pass of a CPU.
pub struct O1Pass {
    pub cpu: O1,
    /// The tables that the pass finds.
    pub found: O1Shared,
    pub states: Seq<ProcState>,
    pub scan: O1Scan,
    /// The tables when the chosen task is switched in.
    pub switched: O1Shared,
    pub after: O1Shared,
    pub cpu_after: O1,
}

/// `p` is a pass: a scan, and the turn of the task that it chose or a swap.
pub open spec fn is_pass(p: O1Pass) -> bool {
    &&& p.cpu.wf()
    &&& picks_least(priority_keys(p.found, p.states), p.cpu.scan_offset as int, p.scan.best)
    &&& p.scan.any_active_runnable == any_in_set(p.found, p.states, ProcState::RUNNABLE, false)
    &&& p.scan.any_active_running == any_in_set(p.found, p.states, ProcState::RUNNING, false)
    &&& p.scan.any_expired == any_in_set(p.found, p.states, ProcState::RUNNABLE, true)
    &&& p.scan.epoch == p.found.epoch
    &&& match p.scan.next_step() {
        O1Step::Swap => {
            &&& p.found.swap_fits()
            &&& swap_attempted(p.found, p.scan.epoch, true, p.after)
            &&& p.cpu_after == p.cpu
        },
        O1Step::Dispatch(i) => {
            &&& begun(p.found, i as int, p.switched)
            &&& charged(p.switched, i as int, p.after)
            &&& p.cpu_after.scan_offset == (i + 1) % (NPROC as int)
        },
        O1Step::Rescan => p.after == p.found && p.cpu_after == p.cpu,
    }
}

/// `run` is a series of passes of one CPU, while no process runs on another and
/// none takes a slot.
pub open spec fn is_run(run: Seq<O1Pass>) -> bool {
    &&& forall|t: int| 0 <= t < run.len() ==> is_pass(#[trigger] run[t])
    &&& forall|t: int|
        0 < t < run.len() ==> (#[trigger] run[t]).cpu == run[t - 1].cpu_after && run[t].found
            == run[t - 1].after
    &&& forall|t: int, k: int|
        0 <= t < run.len() && 0 <= k < NPROC ==> #[trigger] run[t].states[k]
            != ProcState::RUNNING
}

/// Slot `i` is runnable in every pass.
pub open spec fn stays_runnable(run: Seq<O1Pass>, i: int) -> bool {
    forall|t: int| 0 <= t < run.len() ==> (#[trigger] run[t]).states[i] == ProcState::RUNNABLE
}

/// Pass `p` gives slot `i` a turn.
pub open spec fn runs(p: O1Pass, i: int) -> bool {
    p.scan.next_step() == O1Step::Dispatch(i as usize)
}

/// A pass keeps the tables well-formed.
pub proof fn lemma_pass_keeps_wf(p: O1Pass)
    requires
        is_pass(p),
        p.found.wf(),
    ensures
        p.after.wf(),
{
    assert forall|k: int| 0 <= k < NPROC implies #[trigger] p.after.slot_wf(k) by {
        assert(p.found.slot_wf(k));
        lemma_timeslice_range(p.found.dyn_priority@[k]);
        match p.scan.next_step() {
            O1Step::Swap => {
                assert(slot_swapped(p.found, p.after, k));
                lemma_timeslice_range(p.after.dyn_priority@[k]);
            },
            O1Step::Dispatch(i) => {
                assert(priority_keys(p.found, p.states)[i as int] is Some);
            },
            O1Step::Rescan => {},
        }
    }
}

/// The tables stay well-formed.
pub proof fn lemma_tables_stay_wf(run: Seq<O1Pass>, t: int)
    requires
        is_run(run),
        0 <= t < run.len(),
        run[0].found.wf(),
    ensures
        run[t].found.wf(),
    decreases t,
{
    if t > 0 {
        lemma_tables_stay_wf(run, t - 1);
        assert(is_pass(run[t - 1]));
        lemma_pass_keeps_wf(run[t - 1]);
        assert(run[t].found == run[t - 1].after);
    }
}

/// While an active task is runnable, a pass runs an active task.
pub proof fn lemma_active_set_runs(p: O1Pass, i: int)
    requires
        is_pass(p),
        p.found.wf(),
        0 <= i < NPROC,
        p.states[i] == ProcState::RUNNABLE,
        !p.found.is_expired@[i],
    ensures
        p.scan.best is Some,
        p.scan.next_step() == O1Step::Dispatch(p.scan.best->0),
        backlog(p.after, NPROC as nat) == backlog(p.found, NPROC as nat) - 1,
{
    let keys = priority_keys(p.found, p.states);
    assert(p.found.slot_wf(i));
    assert(keys[i] is Some);
    lemma_turn_injective(p.cpu.scan_offset as int);
    assert(turn(p.cpu.scan_offset as int, i) < NPROC);
    assert(p.found.is_expired@[i] == false);
    assert(any_in_set(p.found, p.states, ProcState::RUNNABLE, false));
    let best = p.scan.best->0;
    assert(keys[best as int] is Some);
    lemma_turn_shortens_epoch(p.found, best as int, p.switched, p.after);
}

/// An active task has turns left in the epoch.
proof fn lemma_active_in_backlog(s: O1Shared, i: int, n: nat)
    requires
        s.wf(),
        0 <= i < n <= NPROC,
        !s.is_expired@[i],
    ensures
        backlog(s, n) >= 1,
    decreases n,
{
    lemma_epoch_ends(s, (n - 1) as nat);
    assert(s.slot_wf(n - 1));
    lemma_timeslice_range(s.dyn_priority@[n - 1]);
    if i < n - 1 {
        lemma_active_in_backlog(s, i, (n - 1) as nat);
    } else {
        assert(turns_left(s, i) >= 1);
    }
}

/// An active task that stays runnable has a turn before the epoch is over.
pub proof fn lemma_active_task_has_its_turn(run: Seq<O1Pass>, i: int, t: int)
    requires
        is_run(run),
        run[0].found.wf(),
        0 <= i < NPROC,
        stays_runnable(run, i),
        0 <= t < run.len(),
        !run[t].found.is_expired@[i],
        t + backlog(run[t].found, NPROC as nat) <= run.len(),
    ensures
        exists|u: int|
            t <= u < t + backlog(run[t].found, NPROC as nat) && runs(#[trigger] run[u], i),
    decreases backlog(run[t].found, NPROC as nat),
{
    let p = run[t];
    lemma_tables_stay_wf(run, t);
    assert(is_pass(p));
    assert(p.states[i] == ProcState::RUNNABLE);
    lemma_active_set_runs(p, i);
    lemma_active_in_backlog(p.found, i, NPROC as nat);
    if p.scan.best->0 == i {
        assert(runs(run[t], i));
    } else {
        lemma_pass_keeps_wf(p);
        assert(!p.after.is_expired@[i]);
        lemma_active_in_backlog(p.after, i, NPROC as nat);
        assert(run[t + 1].found == run[t].after);
        lemma_active_task_has_its_turn(run, i, t + 1);
        let u = choose|u: int|
            t + 1 <= u < t + 1 + backlog(run[t + 1].found, NPROC as nat) && runs(
                #[trigger] run[u],
                i,
            );
        assert(runs(run[u], i));
    }
}

/// A pass that finds no active task runnable, and none running, brings an
/// expired runnable task back.
proof fn lemma_exhausted_set_swaps(p: O1Pass, i: int)
    requires
        is_pass(p),
        0 <= i < NPROC,
        p.states[i] == ProcState::RUNNABLE,
        p.found.is_expired@[i],
        !p.scan.any_active_runnable,
        forall|k: int| 0 <= k < NPROC ==> #[trigger] p.states[k] != ProcState::RUNNING,
    ensures
        !p.after.is_expired@[i],
{
    assert(p.found.is_expired@[i] == true);
    assert(any_in_set(p.found, p.states, ProcState::RUNNABLE, true));
    assert(!any_in_set(p.found, p.states, ProcState::RUNNING, false));
    assert(p.scan.next_step() == O1Step::Swap);
    assert(slot_swapped(p.found, p.after, i));
}

/// A pass that runs an active task leaves an expired one where it is, with one
/// turn less until the end of the epoch.
proof fn lemma_expired_task_waits(p: O1Pass, i: int)
    requires
        is_pass(p),
        p.found.wf(),
        0 <= i < NPROC,
        p.found.is_expired@[i],
        p.scan.any_active_runnable,
    ensures
        p.after.is_expired@[i],
        backlog(p.after, NPROC as nat) == backlog(p.found, NPROC as nat) - 1,
{
    let a = choose|a: int|
        0 <= a < NPROC && p.states[a] == ProcState::RUNNABLE && #[trigger] p.found.is_expired@[a]
            == false;
    lemma_active_set_runs(p, a);
    let best = p.scan.best->0;
    assert(priority_keys(p.found, p.states)[best as int] is Some);
}

/// An expired task that stays runnable is active again when the turns that are
/// left of the epoch are used up.
pub proof fn lemma_expired_task_returns(run: Seq<O1Pass>, i: int, t: int)
    requires
        is_run(run),
        run[0].found.wf(),
        0 <= i < NPROC,
        stays_runnable(run, i),
        0 <= t < run.len(),
        run[t].found.is_expired@[i],
        t + backlog(run[t].found, NPROC as nat) < run.len(),
    ensures
        exists|u: int|
            t <= u <= t + backlog(run[t].found, NPROC as nat) && !(
            #[trigger] run[u]).after.is_expired@[i],
    decreases backlog(run[t].found, NPROC as nat),
{
    let p = run[t];
    lemma_epoch_of(run, t);
    assert(is_pass(p));
    assert(p.states[i] == ProcState::RUNNABLE);
    if p.scan.any_active_runnable {
        lemma_expired_task_waits(p, i);
        lemma_pass_keeps_wf(p);
        lemma_epoch_ends(p.after, NPROC as nat);
        assert(run[t + 1].found == run[t].after);
        lemma_expired_task_returns(run, i, t + 1);
        let u = choose|u: int|
            t + 1 <= u <= t + 1 + backlog(run[t + 1].found, NPROC as nat) && !(
            #[trigger] run[u]).after.is_expired@[i];
        assert(!run[u].after.is_expired@[i]);
    } else {
        assert(forall|k: int| 0 <= k < NPROC ==> #[trigger] run[t].states[k] != ProcState::RUNNING);
        lemma_exhausted_set_swaps(p, i);
        assert(!run[t].after.is_expired@[i]);
    }
}

/// The backlog that a pass finds is bounded.
proof fn lemma_epoch_of(run: Seq<O1Pass>, t: int)
    requires
        is_run(run),
        run[0].found.wf(),
        0 <= t < run.len(),
    ensures
        run[t].found.wf(),
        0 <= backlog(run[t].found, NPROC as nat) <= EPOCH_TURNS,
{
    lemma_tables_stay_wf(run, t);
    lemma_epoch_ends(run[t].found, NPROC as nat);
    assert(NPROC * MAX_TIMESLICE == EPOCH_TURNS);
}

/// No starvation: a task that stays runnable has a turn within two epochs and
/// the swap between them.
pub proof fn lemma_no_starvation(run: Seq<O1Pass>, i: int, t: int)
    requires
        is_run(run),
        run[0].found.wf(),
        0 <= i < NPROC,
        stays_runnable(run, i),
        0 <= t,
        t + 2 * EPOCH_TURNS + 1 <= run.len(),
    ensures
        exists|u: int| t <= u <= t + 2 * EPOCH_TURNS && runs(#[trigger] run[u], i),
{
    lemma_epoch_of(run, t);
    let s: int = if run[t].found.is_expired@[i] {
        lemma_expired_task_returns(run, i, t);
        let v = choose|v: int|
            t <= v <= t + backlog(run[t].found, NPROC as nat) && !(
            #[trigger] run[v]).after.is_expired@[i];
        assert(run[v + 1].found == run[v].after);
        v + 1
    } else {
        t
    };
    lemma_epoch_of(run, s);
    lemma_active_task_has_its_turn(run, i, s);
    let u = choose|u: int|
        s <= u < s + backlog(run[s].found, NPROC as nat) && runs(#[trigger] run[u], i);
    assert(runs(run[u], i));
}

/// Slot `q` is active and runnable at the priority of the task that runs, in
/// every pass.
pub open spec fn shares_priority(run: Seq<O1Pass>, q: int) -> bool {
    forall|t: int|
        0 <= t < run.len() ==> {
            &&& (#[trigger] run[t]).scan.best is Some
            &&& run[t].states[q] == ProcState::RUNNABLE
            &&& !run[t].found.is_expired@[q]
            &&& run[t].found.dyn_priority@[q]
                == run[t].found.dyn_priority@[run[t].scan.best->0 as int]
        }
}

/// An active task at the priority of those that run has its turn within `NPROC`
/// dispatches.
pub proof fn lemma_equals_share_turns(run: Seq<O1Pass>, q: int)
    requires
        is_run(run),
        0 <= q < NPROC,
        shares_priority(run, q),
        run.len() >= NPROC,
    ensures
        exists|u: int| 0 <= u < NPROC && runs(#[trigger] run[u], q),
{
    let scans = Seq::new(
        run.len(),
        |t: int|
            Scan {
                keys: priority_keys(run[t].found, run[t].states),
                start: run[t].cpu.scan_offset as int,
                pick: run[t].scan.best->0,
            },
    );
    assert forall|t: int| 0 <= t < run.len() implies runs(
        #[trigger] run[t],
        run[t].scan.best->0 as int,
    ) by {
        assert(is_pass(run[t]));
        assert(run[t].found.is_expired@[q] == false);
        assert(any_in_set(run[t].found, run[t].states, ProcState::RUNNABLE, false));
    }
    assert forall|t: int| 0 <= t < scans.len() implies 0 <= (#[trigger] scans[t]).start < NPROC
        && picks_least(scans[t].keys, scans[t].start, Some(scans[t].pick)) && scans[t].keys[q]
        == scans[t].keys[scans[t].pick as int] by {
        assert(is_pass(run[t]));
        assert(run[t].scan.best is Some);
        assert(scans[t].keys[scans[t].pick as int] is Some);
    }
    assert forall|t: int| 0 < t < scans.len() implies (#[trigger] scans[t]).start == (scans[t
        - 1].pick + 1) % (NPROC as int) by {
        assert(run[t].cpu == run[t - 1].cpu_after);
        assert(is_pass(run[t - 1]));
        assert(runs(run[t - 1], run[t - 1].scan.best->0 as int));
    }
    lemma_turn_injective(scans[0].start);
    assert(turn(scans[0].start, q) < NPROC);
    lemma_equal_has_its_turn(scans, q, 0);
    let u = choose|u: int|
        0 <= u <= turn(scans[0].start, q) && (#[trigger] scans[u]).pick == q;
    assert(scans[u].pick == q);
    assert(runs(run[u], run[u].scan.best->0 as int));
}

} // verus!
