//! Virtual time: what the schedulers that charge virtual runtime have in common.

use crate::arith::{max_int, sat_u64};
use crate::process::{is_active, ProcState, NPROC};
use crate::scheduler::scan::{picks_least, precedes, turn};
use vstd::prelude::*;

verus! {

/// Default weight, that of nice 0.
pub const NICE_0_WEIGHT: u64 = 1024;

/// The sum of the vruntimes of the active tasks among the first `n` slots.
pub open spec fn active_total(vruntime: Seq<u64>, states: Seq<ProcState>, n: nat) -> nat
    decreases n,
{
    if n == 0 {
        0
    } else {
        active_total(vruntime, states, (n - 1) as nat) + if is_active(states[n - 1]) {
            vruntime[n - 1] as nat
        } else {
            0
        }
    }
}

/// The number of active tasks among the first `n` slots.
pub open spec fn active_count(states: Seq<ProcState>, n: nat) -> nat
    decreases n,
{
    if n == 0 {
        0
    } else {
        active_count(states, (n - 1) as nat) + if is_active(states[n - 1]) {
            1nat
        } else {
            0
        }
    }
}

/// The mean vruntime of the active tasks, whose sum is capped at the limit of
/// its type, and 0 if there is none.
pub open spec fn mean_vruntime(vruntime: Seq<u64>, states: Seq<ProcState>) -> int {
    let count = active_count(states, NPROC as nat);
    if count == 0 {
        0
    } else {
        sat_u64(active_total(vruntime, states, NPROC as nat) as int) / count as int
    }
}

/// `floor` is the least vruntime of the active tasks among the first `n`
/// slots, or the largest number of its type if there is none.
pub open spec fn is_active_min_of(
    vruntime: Seq<u64>,
    states: Seq<ProcState>,
    n: int,
    floor: u64,
) -> bool {
    &&& forall|i: int| 0 <= i < n && is_active(states[i]) ==> floor <= #[trigger] vruntime[i]
    &&& floor == u64::MAX || exists|i: int|
        0 <= i < n && is_active(states[i]) && floor == #[trigger] vruntime[i]
}

/// `floor` is the least vruntime of all active tasks, or the largest number of
/// its type if there is none.
pub open spec fn is_active_min(vruntime: Seq<u64>, states: Seq<ProcState>, floor: u64) -> bool {
    is_active_min_of(vruntime, states, NPROC as int, floor)
}

/// The runnable tasks, which compete by their vruntime.
pub open spec fn vruntime_keys(vruntime: Seq<u64>, states: Seq<ProcState>) -> Seq<Option<int>> {
    Seq::new(
        NPROC as nat,
        |i: int|
            if states[i] == ProcState::RUNNABLE && vruntime[i] < u64::MAX {
                Some(vruntime[i] as int)
            } else {
                None
            },
    )
}

/// The pick among `preferred`, or among `others` where nothing is preferred.
pub open spec fn picks_preferred(
    preferred: Seq<Option<int>>,
    others: Seq<Option<int>>,
    pick: Option<usize>,
) -> bool {
    if exists|i: int| 0 <= i < NPROC && #[trigger] preferred[i] is Some {
        picks_least(preferred, 0, pick)
    } else {
        picks_least(others, 0, pick)
    }
}

/// The vruntime floor after `candidate` was seen: it never goes backward.
pub open spec fn advanced(min_vruntime: u64, candidate: u64) -> u64 {
    if candidate > min_vruntime {
        candidate
    } else {
        min_vruntime
    }
}

/// The floor after a scan that found `active_min`.
pub open spec fn floor_after(min_vruntime: u64, active_min: u64) -> u64 {
    if active_min < u64::MAX {
        advanced(min_vruntime, active_min)
    } else {
        min_vruntime
    }
}

/// The vruntime that a task starts its turn with: at most `credit` behind the
/// floor, however long it slept.
pub open spec fn clamped(vruntime: u64, min_vruntime: u64, credit: u64) -> u64 {
    let floor = sat_u64(min_vruntime - credit) as u64;
    if vruntime < floor {
        floor
    } else {
        vruntime
    }
}

/// The deadline of a task at `vruntime`: a new slice ahead if the old deadline
/// is reached.
pub open spec fn renewed(deadline: u64, vruntime: u64, slice: u64) -> int {
    if deadline <= vruntime {
        vruntime + slice
    } else {
        deadline as int
    }
}

/// What a first pass over the process table found.
#[derive(Clone, Copy, Debug, PartialEq, Eq, Structural)]
pub struct Survey {
    /// Mean vruntime of the active tasks.
    pub avg_vruntime: u64,
    /// Least vruntime of the active tasks.
    pub active_min: u64,
}

/// Looks at all active tasks.
pub fn survey(vruntime: &[u64; NPROC], states: &[ProcState; NPROC]) -> (r: Survey)
    ensures
        r.avg_vruntime == mean_vruntime(vruntime@, states@),
        is_active_min(vruntime@, states@, r.active_min),
{
    let mut sum: u64 = 0;
    let mut count: u64 = 0;
    let mut active_min: u64 = u64::MAX;
    let mut i: usize = 0;
    while i < NPROC
        invariant
            i <= NPROC,
            sum == sat_u64(active_total(vruntime@, states@, i as nat) as int),
            count == active_count(states@, i as nat),
            count <= i,
            is_active_min_of(vruntime@, states@, i as int, active_min),
        decreases NPROC - i,
    {
        match states[i] {
            ProcState::RUNNABLE | ProcState::RUNNING => {
                let vrt: u64 = vruntime[i];
                sum = sum.saturating_add(vrt);
                count = count + 1;
                if vrt < active_min {
                    active_min = vrt;
                }
            },
            _ => {},
        }
        i = i + 1;
    }
    let avg_vruntime: u64 = if count > 0 { sum / count } else { 0 };
    Survey { avg_vruntime, active_min }
}

/// Raises `vruntime` to at most `credit` behind the floor.
pub fn clamp_vruntime(vruntime: u64, min_vruntime: u64, credit: u64) -> (r: u64)
    ensures
        r == clamped(vruntime, min_vruntime, credit),
{
    let floor: u64 = min_vruntime.saturating_sub(credit);
    if vruntime < floor {
        floor
    } else {
        vruntime
    }
}

/// At the default weight, virtual time runs like real time.
pub proof fn lemma_default_weight(units: int)
    ensures
        units * NICE_0_WEIGHT / max_int(NICE_0_WEIGHT as int, 1) == units,
{
    assert(units * 1024 / 1024 == units) by (nonlinear_arith);
}

/// The vruntime floor never moves backward, and ends at the larger of the two.
pub proof fn lemma_floor_monotone(min_vruntime: u64, candidate: u64)
    ensures
        advanced(min_vruntime, candidate) >= min_vruntime,
        advanced(min_vruntime, candidate) >= candidate,
        advanced(min_vruntime, candidate) == min_vruntime || advanced(min_vruntime, candidate)
            == candidate,
{
}

/// The floor that several CPUs reach does not depend on the order in which
/// they report.
pub proof fn lemma_floor_order_free(min_vruntime: u64, a: u64, b: u64)
    ensures
        advanced(advanced(min_vruntime, a), b) == advanced(advanced(min_vruntime, b), a),
{
}

/// A task that slept gets at most `credit` of a head start, and one that did
/// not fall that far behind is left alone.
pub proof fn lemma_clamp_bounds(vruntime: u64, min_vruntime: u64, credit: u64)
    ensures
        clamped(vruntime, min_vruntime, credit) >= min_vruntime - credit,
        clamped(vruntime, min_vruntime, credit) >= vruntime,
        vruntime >= min_vruntime - credit ==> clamped(vruntime, min_vruntime, credit) == vruntime,
{
}

/// The sum of the active vruntimes is at least the least of them, taken as
/// often as there are active tasks.
pub proof fn lemma_total_at_least(vruntime: Seq<u64>, states: Seq<ProcState>, floor: u64, n: nat)
    requires
        n <= NPROC,
        is_active_min(vruntime, states, floor),
    ensures
        active_total(vruntime, states, n) >= floor * active_count(states, n),
    decreases n,
{
    if n > 0 {
        lemma_total_at_least(vruntime, states, floor, (n - 1) as nat);
        let count = active_count(states, (n - 1) as nat);
        if is_active(states[n - 1]) {
            assert(active_count(states, n) == count + 1);
            assert(floor * (count + 1) == floor * count + floor) by (nonlinear_arith);
            assert(floor <= vruntime[n - 1]);
        } else {
            assert(active_count(states, n) == count);
        }
    } else {
        assert(floor * 0 == 0);
    }
}

/// An active task is counted.
pub proof fn lemma_active_counted(states: Seq<ProcState>, i: int, n: nat)
    requires
        0 <= i < n,
        is_active(states[i]),
    ensures
        active_count(states, n) > 0,
    decreases n,
{
    if i < n - 1 {
        lemma_active_counted(states, i, (n - 1) as nat);
    }
}

/// The mean is not below the least active vruntime, as long as the sum of the
/// vruntimes fits its type: the task that got the least CPU is always eligible.
pub proof fn lemma_least_is_eligible(vruntime: Seq<u64>, states: Seq<ProcState>, i: int)
    requires
        0 <= i < NPROC,
        is_active(states[i]),
        is_active_min(vruntime, states, vruntime[i]),
        active_total(vruntime, states, NPROC as nat) <= u64::MAX,
    ensures
        vruntime[i] <= mean_vruntime(vruntime, states),
{
    let count = active_count(states, NPROC as nat) as int;
    let total = active_total(vruntime, states, NPROC as nat) as int;
    let least = vruntime[i] as int;
    lemma_active_counted(states, i, NPROC as nat);
    lemma_total_at_least(vruntime, states, vruntime[i], NPROC as nat);
    assert(least <= total / count) by (nonlinear_arith)
        requires
            count > 0,
            total >= least * count,
    ;
}

/// The pick by least vruntime has no more than any runnable task.
pub proof fn lemma_pick_is_least(
    vruntime: Seq<u64>,
    states: Seq<ProcState>,
    pick: usize,
    q: int,
)
    requires
        picks_least(vruntime_keys(vruntime, states), 0, Some(pick)),
        0 <= q < NPROC,
        states[q] == ProcState::RUNNABLE,
    ensures
        vruntime[pick as int] <= vruntime[q],
        vruntime[pick as int] < u64::MAX,
{
    let keys = vruntime_keys(vruntime, states);
    assert(keys[pick as int] is Some);
    assert(turn(0, q) == q);
    if keys[q] is Some {
        assert(precedes(keys, 0, pick as int, q));
    }
}

} // verus!
