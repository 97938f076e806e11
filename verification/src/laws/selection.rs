//! Laws of the choice of the next task.

use crate::process::{ProcState, NPROC};
use crate::scheduler::cfs::{self, CfsScan, CfsShared};
use crate::scheduler::drl::{Drl, DrlShared};
use crate::scheduler::eevdf::{self, EevdfShared};
use crate::scheduler::hybrid_drl::{self, HybridChoice, HybridDrl, HybridShared};
use crate::scheduler::mlfq::{level_keys, Mlfq, MlfqShared};
use crate::scheduler::o1::{any_in_set, priority_keys, O1Scan, O1Shared, O1Step, O1};
use crate::scheduler::scan::{picks_least, precedes, turn};
use crate::scheduler::vtime::{vruntime_keys, Survey};
use vstd::prelude::*;

verus! {

/// The number of slots that come before slot `i` on the way round the process
/// table from slot `start`.
pub open spec fn slots_before(start: int, i: int) -> int {
    if i >= start {
        i - start
    } else {
        i - start + 64
    }
}

/// A scan from `start` chooses the least key, and of several equal ones the one
/// that it meets first. It chooses nothing exactly if nothing competes.
pub proof fn lemma_first_of_the_least(
    keys: Seq<Option<int>>,
    start: int,
    pick: Option<usize>,
    i: int,
)
    requires
        picks_least(keys, start, pick),
        0 <= start < 64,
        0 <= i < 64,
        keys[i] is Some,
    ensures
        pick is Some,
        pick->0 < 64,
        keys[pick->0 as int] is Some,
        keys[pick->0 as int]->0 <= keys[i]->0,
        keys[pick->0 as int]->0 == keys[i]->0 ==> slots_before(start, pick->0 as int)
            <= slots_before(start, i),
{
    assert(NPROC == 64);
    assert(turn(start, i) == slots_before(start, i));
    if pick is Some {
        assert(precedes(keys, start, pick->0 as int, i));
        assert(turn(start, pick->0 as int) == slots_before(start, pick->0 as int));
    }
}

/// A scan chooses nothing but a competitor.
pub proof fn lemma_only_competitors(keys: Seq<Option<int>>, start: int, pick: Option<usize>)
    requires
        picks_least(keys, start, pick),
    ensures
        pick is Some ==> pick->0 < 64 && keys[pick->0 as int] is Some,
{
}

/// No scheduler runs a task that is not runnable, and O(1) none that has
/// expired.
pub proof fn lemma_only_runnable_tasks_run(
    states: Seq<ProcState>,
    m: Mlfq,
    ms: MlfqShared,
    d: Drl,
    ds: DrlShared,
    round: u64,
    o: O1,
    os: O1Shared,
    cs: CfsShared,
    pick: usize,
)
    ensures
        picks_least(level_keys(ms.queue_level@, states), m.scan_offset as int, Some(pick))
            ==> pick < NPROC && states[pick as int] == ProcState::RUNNABLE,
        picks_least(d.score_keys(ds, states, round), d.scan_offset as int, Some(pick)) ==> pick
            < NPROC && states[pick as int] == ProcState::RUNNABLE,
        picks_least(priority_keys(os, states), o.scan_offset as int, Some(pick)) ==> pick < NPROC
            && states[pick as int] == ProcState::RUNNABLE && !os.is_expired@[pick as int],
        picks_least(vruntime_keys(cs.vruntime@, states), 0, Some(pick)) ==> pick < NPROC
            && states[pick as int] == ProcState::RUNNABLE,
{
}

/// A key at the limit of its type does not compete: a vruntime, a deadline, a
/// level, a priority or a score that is there is never chosen.
pub proof fn lemma_limits_do_not_compete(
    states: Seq<ProcState>,
    m: Mlfq,
    ms: MlfqShared,
    d: Drl,
    ds: DrlShared,
    round: u64,
    o: O1,
    os: O1Shared,
    cs: CfsShared,
    es: EevdfShared,
    h: HybridDrl,
    hs: HybridShared,
    avg: u64,
    pick: usize,
)
    ensures
        picks_least(level_keys(ms.queue_level@, states), m.scan_offset as int, Some(pick))
            ==> ms.queue_level@[pick as int] < 255,
        picks_least(d.score_keys(ds, states, round), d.scan_offset as int, Some(pick))
            ==> d.slot_score(ds, pick as int, round) > i64::MIN,
        picks_least(priority_keys(os, states), o.scan_offset as int, Some(pick))
            ==> os.dyn_priority@[pick as int] < 255,
        picks_least(vruntime_keys(cs.vruntime@, states), 0, Some(pick))
            ==> cs.vruntime@[pick as int] < u64::MAX,
        picks_least(eevdf::deadline_keys(es, states, avg), 0, Some(pick))
            ==> es.deadline@[pick as int] < u64::MAX && es.vruntime@[pick as int] <= avg
            && states[pick as int] == ProcState::RUNNABLE,
        picks_least(h.deadline_keys(hs, states, round, avg), 0, Some(pick))
            ==> h.effective_deadline(hs, pick as int, round, avg) < u64::MAX
            && hs.vruntime@[pick as int] <= avg + 1 && states[pick as int] == ProcState::RUNNABLE,
{
}

/// CFS runs a runnable task with the least vruntime, the lowest slot of several,
/// whenever there is one, and leaves the vruntimes as they are.
pub proof fn lemma_cfs_choice(
    s: CfsShared,
    states: Seq<ProcState>,
    scan: CfsScan,
    noted: CfsShared,
    i: int,
)
    requires
        cfs::scanned(s, states, scan, noted),
        0 <= i < NPROC,
        states[i] == ProcState::RUNNABLE,
        s.vruntime@[i] < u64::MAX,
    ensures
        ({
            let p = scan.best->0 as int;
            &&& scan.best is Some
            &&& p < NPROC
            &&& states[p] == ProcState::RUNNABLE
            &&& s.vruntime@[p] < s.vruntime@[i] || (s.vruntime@[p] == s.vruntime@[i] && p <= i)
            &&& scan.active_min <= s.vruntime@[p]
        }),
        noted.vruntime@ == s.vruntime@,
        noted.min_vruntime >= s.min_vruntime,
        noted.min_vruntime >= scan.active_min,
{
    lemma_first_of_the_least(vruntime_keys(s.vruntime@, states), 0, scan.best, i);
}

/// MLFQ runs a runnable task of the highest priority that a runnable task has,
/// the first one on its way round the table, whenever there is one.
pub proof fn lemma_mlfq_choice(
    m: Mlfq,
    s: MlfqShared,
    states: Seq<ProcState>,
    pick: Option<usize>,
    i: int,
)
    requires
        m.wf(),
        picks_least(level_keys(s.queue_level@, states), m.scan_offset as int, pick),
        0 <= i < NPROC,
        states[i] == ProcState::RUNNABLE,
        s.queue_level@[i] < 3,
    ensures
        pick is Some,
        pick->0 < NPROC,
        states[pick->0 as int] == ProcState::RUNNABLE,
        s.queue_level@[pick->0 as int] <= s.queue_level@[i],
        s.queue_level@[pick->0 as int] == s.queue_level@[i] ==> slots_before(
            m.scan_offset as int,
            pick->0 as int,
        ) <= slots_before(m.scan_offset as int, i),
{
    lemma_first_of_the_least(
        level_keys(s.queue_level@, states),
        m.scan_offset as int,
        pick,
        i,
    );
}

/// The DRL scheduler runs a runnable task with the highest score, the first one
/// on its way round the table, whenever there is one. The lowest score of all
/// does not compete.
pub proof fn lemma_drl_choice(
    d: Drl,
    s: DrlShared,
    states: Seq<ProcState>,
    round: u64,
    pick: Option<usize>,
    i: int,
)
    requires
        d.wf(),
        picks_least(d.score_keys(s, states, round), d.scan_offset as int, pick),
        0 <= i < NPROC,
        states[i] == ProcState::RUNNABLE,
        d.slot_score(s, i, round) > i64::MIN,
    ensures
        pick is Some,
        pick->0 < NPROC,
        states[pick->0 as int] == ProcState::RUNNABLE,
        d.slot_score(s, pick->0 as int, round) >= d.slot_score(s, i, round),
        d.slot_score(s, pick->0 as int, round) == d.slot_score(s, i, round) ==> slots_before(
            d.scan_offset as int,
            pick->0 as int,
        ) <= slots_before(d.scan_offset as int, i),
{
    lemma_first_of_the_least(
        d.score_keys(s, states, round),
        d.scan_offset as int,
        pick,
        i,
    );
}

/// A scan of the O(1) scheduler, as `select` promises it.
pub open spec fn o1_scanned(m: O1, s: O1Shared, states: Seq<ProcState>, r: O1Scan) -> bool {
    &&& m.wf()
    &&& picks_least(priority_keys(s, states), m.scan_offset as int, r.best)
    &&& r.any_active_runnable == any_in_set(s, states, ProcState::RUNNABLE, false)
    &&& r.any_active_running == any_in_set(s, states, ProcState::RUNNING, false)
    &&& r.any_expired == any_in_set(s, states, ProcState::RUNNABLE, true)
    &&& r.epoch == s.epoch
}

/// A CPU swaps the two sets if and only if some runnable task has expired and
/// no task that has not is runnable or running.
pub proof fn lemma_o1_swaps_for_expired_only(
    m: O1,
    s: O1Shared,
    states: Seq<ProcState>,
    r: O1Scan,
)
    requires
        o1_scanned(m, s, states, r),
    ensures
        r.next_step() == O1Step::Swap <==> {
            &&& exists|i: int|
                0 <= i < NPROC && #[trigger] states[i] == ProcState::RUNNABLE && s.is_expired@[i]
            &&& forall|i: int|
                0 <= i < NPROC && (#[trigger] states[i] == ProcState::RUNNABLE || states[i]
                    == ProcState::RUNNING) ==> s.is_expired@[i]
        },
{
    let runnable = ProcState::RUNNABLE;
    if r.any_expired {
        let i = choose|i: int|
            0 <= i < NPROC && states[i] == runnable && #[trigger] s.is_expired@[i] == true;
        assert(states[i] == ProcState::RUNNABLE && s.is_expired@[i]);
    }
    if exists|i: int|
        0 <= i < NPROC && #[trigger] states[i] == ProcState::RUNNABLE && s.is_expired@[i] {
        let i = choose|i: int|
            0 <= i < NPROC && #[trigger] states[i] == ProcState::RUNNABLE && s.is_expired@[i];
        assert(s.is_expired@[i] == true);
    }
    if !r.any_active_runnable && !r.any_active_running {
        assert forall|i: int|
            0 <= i < NPROC && (#[trigger] states[i] == ProcState::RUNNABLE || states[i]
                == ProcState::RUNNING) implies s.is_expired@[i] by {
            assert(s.is_expired@[i] == true || s.is_expired@[i] == false);
        }
    }
    if forall|i: int|
        0 <= i < NPROC && (#[trigger] states[i] == ProcState::RUNNABLE || states[i]
            == ProcState::RUNNING) ==> s.is_expired@[i] {
        assert(forall|i: int|
            0 <= i < NPROC && states[i] == runnable ==> #[trigger] s.is_expired@[i]);
        assert(forall|i: int|
            0 <= i < NPROC && states[i] == ProcState::RUNNING ==> #[trigger] s.is_expired@[i]);
    }
}

/// The O(1) scheduler runs an active runnable task of the best priority, the
/// first one on its way round the table, whenever there is one.
pub proof fn lemma_o1_choice(
    m: O1,
    s: O1Shared,
    states: Seq<ProcState>,
    r: O1Scan,
    i: int,
)
    requires
        o1_scanned(m, s, states, r),
        0 <= i < NPROC,
        states[i] == ProcState::RUNNABLE,
        !s.is_expired@[i],
        s.dyn_priority@[i] < 40,
    ensures
        r.next_step() is Dispatch,
        ({
            let p = r.next_step()->Dispatch_0 as int;
            &&& p < NPROC
            &&& states[p] == ProcState::RUNNABLE
            &&& !s.is_expired@[p]
            &&& s.dyn_priority@[p] <= s.dyn_priority@[i]
            &&& s.dyn_priority@[p] == s.dyn_priority@[i] ==> slots_before(m.scan_offset as int, p)
                <= slots_before(m.scan_offset as int, i)
        }),
{
    assert(s.is_expired@[i] == false);
    lemma_first_of_the_least(priority_keys(s, states), m.scan_offset as int, r.best, i);
}

/// EEVDF runs, of the runnable tasks that are not ahead of the mean, one with
/// the earliest deadline; and only where there is none, one of the runnable
/// tasks that are least ahead. Of equal ones it takes the lowest slot.
pub proof fn lemma_eevdf_choice(
    s: EevdfShared,
    surveyed: Seq<ProcState>,
    states: Seq<ProcState>,
    survey: Survey,
    noted: EevdfShared,
    pick: Option<usize>,
    i: int,
)
    requires
        eevdf::scanned(s, surveyed, states, survey, noted, pick),
        0 <= i < NPROC,
        states[i] == ProcState::RUNNABLE,
        s.vruntime@[i] < u64::MAX,
    ensures
        ({
            let p = pick->0 as int;
            let v = s.vruntime@;
            let d = s.deadline@;
            &&& pick is Some
            &&& p < NPROC
            &&& states[p] == ProcState::RUNNABLE
            &&& v[i] <= survey.avg_vruntime && d[i] < u64::MAX ==> {
                &&& v[p] <= survey.avg_vruntime
                &&& d[p] < d[i] || (d[p] == d[i] && p <= i)
            }
            &&& v[p] > survey.avg_vruntime ==> v[p] < v[i] || (v[p] == v[i] && p <= i)
        }),
        noted.vruntime@ == s.vruntime@,
        noted.deadline@ == s.deadline@,
        noted.min_vruntime >= s.min_vruntime,
{
    let keys = eevdf::deadline_keys(noted, states, survey.avg_vruntime);
    let others = vruntime_keys(noted.vruntime@, states);
    if exists|k: int| 0 <= k < NPROC && #[trigger] keys[k] is Some {
        let k = choose|k: int| 0 <= k < NPROC && #[trigger] keys[k] is Some;
        lemma_first_of_the_least(keys, 0, pick, k);
        if keys[i] is Some {
            lemma_first_of_the_least(keys, 0, pick, i);
        }
    } else {
        assert(keys[i] is None);
        assert(others[i] is Some);
        lemma_first_of_the_least(others, 0, pick, i);
    }
}

/// The hybrid does the same with deadlines that the learner has shaped, for
/// tasks that are at most one unit ahead of the mean.
pub proof fn lemma_hybrid_choice(
    h: HybridDrl,
    s: HybridShared,
    surveyed: Seq<ProcState>,
    states: Seq<ProcState>,
    round: u64,
    survey: Survey,
    noted: HybridShared,
    choice: Option<HybridChoice>,
    i: int,
)
    requires
        hybrid_drl::scanned(h, s, surveyed, states, round, survey, noted, choice),
        0 <= i < NPROC,
        states[i] == ProcState::RUNNABLE,
        s.vruntime@[i] < u64::MAX,
    ensures
        ({
            let p = choice->0.idx as int;
            let v = s.vruntime@;
            let avg = survey.avg_vruntime;
            let d = h.effective_deadline(noted, p, round, avg);
            let e = h.effective_deadline(noted, i, round, avg);
            &&& choice is Some
            &&& choice->0.round == round
            &&& choice->0.avg_vruntime == avg
            &&& p < NPROC
            &&& states[p] == ProcState::RUNNABLE
            &&& v[i] <= avg + 1 && e < u64::MAX ==> {
                &&& v[p] <= avg + 1
                &&& d < e || (d == e && p <= i)
            }
            &&& v[p] > avg + 1 ==> v[p] < v[i] || (v[p] == v[i] && p <= i)
        }),
        noted.vruntime@ == s.vruntime@,
        noted.deadline@ == s.deadline@,
        noted.min_vruntime >= s.min_vruntime,
{
    let keys = h.deadline_keys(noted, states, round, survey.avg_vruntime);
    let others = vruntime_keys(noted.vruntime@, states);
    let pick = hybrid_drl::slot_of(choice);
    if exists|k: int| 0 <= k < NPROC && #[trigger] keys[k] is Some {
        let k = choose|k: int| 0 <= k < NPROC && #[trigger] keys[k] is Some;
        lemma_first_of_the_least(keys, 0, pick, k);
        if keys[i] is Some {
            lemma_first_of_the_least(keys, 0, pick, i);
        }
    } else {
        assert(keys[i] is None);
        assert(others[i] is Some);
        lemma_first_of_the_least(others, 0, pick, i);
    }
}

} // verus!
