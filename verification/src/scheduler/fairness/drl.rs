//! Runs of the learning scheduler.

use crate::process::{ProcState, NPROC};
use crate::scheduler::drl::{Drl, DrlShared};
use crate::scheduler::scan::{
    lemma_equal_has_its_turn, lemma_turn_injective, picks_least, turn, Scan,
};
use vstd::prelude::*;

verus! {

/// The scan of one pass that gave a task a turn. The learner and the tables may
/// have changed in any way since the pass before.
pub struct DrlPass {
    pub cpu: Drl,
    pub found: DrlShared,
    pub states: Seq<ProcState>,
    pub round: u64,
    pub pick: usize,
}

/// `run` is a series of passes of one CPU, each of which starts its scan after
/// the slot that the one before it ran.
pub open spec fn is_run(run: Seq<DrlPass>) -> bool {
    &&& forall|t: int|
        0 <= t < run.len() ==> (#[trigger] run[t]).cpu.wf() && picks_least(
            run[t].cpu.score_keys(run[t].found, run[t].states, run[t].round),
            run[t].cpu.scan_offset as int,
            Some(run[t].pick),
        )
    &&& forall|t: int|
        0 < t < run.len() ==> (#[trigger] run[t]).cpu.scan_offset == (run[t - 1].pick + 1)
            % (NPROC as int)
}

/// Slot `q` is runnable with the score of the task that runs, in every pass.
pub open spec fn shares_score(run: Seq<DrlPass>, q: int) -> bool {
    forall|t: int|
        0 <= t < run.len() ==> (#[trigger] run[t]).states[q] == ProcState::RUNNABLE
            && run[t].cpu.slot_score(run[t].found, q, run[t].round) == run[t].cpu.slot_score(
            run[t].found,
            run[t].pick as int,
            run[t].round,
        )
}

/// A task with the score of those that run has its turn within `NPROC`
/// dispatches.
pub proof fn lemma_equals_share_turns(run: Seq<DrlPass>, q: int)
    requires
        is_run(run),
        0 <= q < NPROC,
        shares_score(run, q),
        run.len() >= NPROC,
    ensures
        exists|u: int| 0 <= u < NPROC && (#[trigger] run[u]).pick == q,
{
    let scans = Seq::new(
        run.len(),
        |t: int|
            Scan {
                keys: run[t].cpu.score_keys(run[t].found, run[t].states, run[t].round),
                start: run[t].cpu.scan_offset as int,
                pick: run[t].pick,
            },
    );
    assert forall|t: int| 0 <= t < scans.len() implies 0 <= (#[trigger] scans[t]).start < NPROC
        && picks_least(scans[t].keys, scans[t].start, Some(scans[t].pick)) && scans[t].keys[q]
        == scans[t].keys[scans[t].pick as int] by {
        assert(run[t].cpu.wf());
        assert(scans[t].keys[scans[t].pick as int] is Some);
    }
    assert forall|t: int| 0 < t < scans.len() implies (#[trigger] scans[t]).start == (scans[t
        - 1].pick + 1) % (NPROC as int) by {
        assert(run[t].cpu.wf());
    }
    lemma_turn_injective(scans[0].start);
    assert(turn(scans[0].start, q) < NPROC);
    lemma_equal_has_its_turn(scans, q, 0);
    let u = choose|u: int|
        0 <= u <= turn(scans[0].start, q) && (#[trigger] scans[u]).pick == q;
    assert(scans[u].pick == q);
    assert(run[u].pick == q);
}

} // verus!
