//! What the schedulers promise over any number of passes of one CPU.
//!
//! A run is a series of passes, each a scan of the process table and the turn
//! of the task that it chose. Between two passes the states of the tasks may
//! change in any way.
//!
//! Under the schedulers that charge virtual runtime, the clamp on waking tasks
//! moves a vruntime without a turn, so tasks are compared by their level: the
//! vruntime that a turn would start with under the floor at the beginning of the
//! run. A turn raises the level of its task by one.

pub mod cfs;
pub mod drl;
pub mod eevdf;
pub mod hybrid_drl;
pub mod mlfq;
pub mod o1;

use crate::arith::sat_u64;
use crate::process::{is_active, ProcState, NPROC};
use crate::scheduler::vtime::{
    active_count, active_total, clamped, floor_after, is_active_min, lemma_active_counted,
    mean_vruntime,
};
use vstd::prelude::*;

verus! {

/// The floor has not moved past a task at `vruntime` since it was `start`.
pub open spec fn anchored(vruntime: u64, start: u64, min_vruntime: u64) -> bool {
    &&& start <= min_vruntime
    &&& min_vruntime == start || min_vruntime <= vruntime
}

/// A scan does not move the floor past an active task.
pub proof fn lemma_scan_keeps_anchor(
    vruntime: Seq<u64>,
    states: Seq<ProcState>,
    active_min: u64,
    i: int,
    start: u64,
    min_vruntime: u64,
)
    requires
        0 <= i < NPROC,
        is_active(states[i]),
        is_active_min(vruntime, states, active_min),
        anchored(vruntime[i], start, min_vruntime),
    ensures
        anchored(vruntime[i], start, floor_after(min_vruntime, active_min)),
{
    assert(active_min <= vruntime[i]);
}

/// Where the floor has not moved past a task, its turn starts at its level.
pub proof fn lemma_turn_starts_at_level(vruntime: u64, start: u64, min_vruntime: u64, credit: u64)
    requires
        anchored(vruntime, start, min_vruntime),
    ensures
        clamped(vruntime, min_vruntime, credit) == clamped(vruntime, start, credit),
{
}

/// The sum of the active vruntimes is at most the largest, taken as often as
/// there are active tasks, and less if one of them is smaller.
pub proof fn lemma_total_at_most(
    vruntime: Seq<u64>,
    states: Seq<ProcState>,
    top: u64,
    low: int,
    n: nat,
)
    requires
        n <= NPROC,
        forall|i: int|
            0 <= i < NPROC && is_active(states[i]) ==> #[trigger] vruntime[i] <= top,
        is_active(states[low]),
        vruntime[low] < top,
    ensures
        active_total(vruntime, states, n) + (if 0 <= low < n {
            1int
        } else {
            0
        }) <= top * active_count(states, n),
    decreases n,
{
    if n > 0 {
        lemma_total_at_most(vruntime, states, top, low, (n - 1) as nat);
        let count = active_count(states, (n - 1) as nat);
        if is_active(states[n - 1]) {
            assert(active_count(states, n) == count + 1);
            assert(top * (count + 1) == top * count + top) by (nonlinear_arith);
            assert(vruntime[n - 1] <= top);
        } else {
            assert(active_count(states, n) == count);
        }
    } else {
        assert(top * 0 == 0);
    }
}

/// The mean is below the largest active vruntime unless all are equal.
pub proof fn lemma_mean_below_top(vruntime: Seq<u64>, states: Seq<ProcState>, top: u64, low: int)
    requires
        0 <= low < NPROC,
        forall|i: int|
            0 <= i < NPROC && is_active(states[i]) ==> #[trigger] vruntime[i] <= top,
        is_active(states[low]),
        vruntime[low] < top,
    ensures
        mean_vruntime(vruntime, states) < top,
{
    let count = active_count(states, NPROC as nat) as int;
    let total = active_total(vruntime, states, NPROC as nat) as int;
    let capped = sat_u64(total);
    let largest = top as int;
    lemma_active_counted(states, low, NPROC as nat);
    lemma_total_at_most(vruntime, states, top, low, NPROC as nat);
    assert(capped / count < largest) by (nonlinear_arith)
        requires
            count > 0,
            capped < largest * count,
    ;
}

} // verus!
