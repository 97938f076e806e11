//! CFS: the completely fair scheduler.
//!
//! Every task accumulates virtual runtime as it consumes CPU, the faster the
//! lower its weight. The runnable task with the lowest vruntime runs, so that
//! every task gets its fair share over time. New and waking tasks start at most
//! a small bonus behind the others, so that they cannot starve them.

use crate::arith::{max_int, wrap_inc};
use crate::process::{ProcState, NPROC};
use crate::scheduler::scan::{lemma_offer, lemma_skip, picks_least, turn, Best};
use crate::scheduler::vtime::{
    advanced, clamp_vruntime, clamped, floor_after, is_active_min, is_active_min_of,
    lemma_default_weight, lemma_pick_is_least, vruntime_keys, NICE_0_WEIGHT,
};
use crate::scheduler::Scheduler;
use vstd::prelude::*;

verus! {

/// The period, in turns at the default weight, within which every runnable
/// task should get one.
pub const SCHED_LATENCY: u64 = 8;

/// Charge for one turn on the CPU.
pub const SCHED_MIN_GRANULARITY: u64 = 1;

/// Largest head start of a task that wakes up.
pub const SLEEPER_BONUS: u64 = SCHED_LATENCY / 2;

/// Weights of the nice values from -20 to 19. One level is worth about a tenth
/// of the CPU.
pub const WEIGHT_TABLE: [u64; 40] = [
    88761,
    71755,
    56483,
    46273,
    36291,
    29154,
    23254,
    18705,
    14949,
    11916,
    9548,
    7620,
    6100,
    4904,
    3906,
    3121,
    2501,
    1991,
    1586,
    1277,
    1024,
    820,
    655,
    526,
    423,
    335,
    272,
    215,
    172,
    137,
    110,
    87,
    70,
    56,
    45,
    36,
    29,
    23,
    18,
    15,
];

/// The tables that all CPUs share.
#[derive(Clone, Copy, Debug)]
pub struct CfsShared {
    /// Virtual runtime, indexed by slot.
    pub vruntime: [u64; NPROC],
    /// The least vruntime of the active tasks when last looked at. It never
    /// moves backward.
    pub min_vruntime: u64,
}

/// The scheduler keeps nothing per CPU.
#[derive(Clone, Copy, Debug)]
pub struct Cfs;

/// What a scan of the process table found.
#[derive(Clone, Copy, Debug, PartialEq, Eq, Structural)]
pub struct CfsScan {
    pub best: Option<usize>,
    /// Least vruntime of the active tasks.
    pub active_min: u64,
}

/// The row of the weight table for a nice value, the nearest one if it is out
/// of range.
pub open spec fn weight_row(nice: i8) -> int {
    if nice < -20 {
        0
    } else if nice > 19 {
        39
    } else {
        nice + 20
    }
}

/// The scheduling weight of a nice value.
pub fn weight_of_nice(nice: i8) -> (r: u64)
    ensures
        r == WEIGHT_TABLE@[weight_row(nice)],
{
    let table: [u64; 40] = WEIGHT_TABLE;
    let row: i32 = nice as i32 + 20;
    let idx: usize = if row < 0 {
        0
    } else if row > 39 {
        39
    } else {
        row as usize
    };
    table[idx]
}

/// Computes the vruntime delta for one turn:
/// `delta_exec * (NICE_0_WEIGHT / weight)`. A higher weight makes a smaller
/// delta, and so the task is scheduled more often.
pub fn calc_delta(delta_exec: u64, weight: u64) -> (r: u64)
    requires
        delta_exec * NICE_0_WEIGHT <= u64::MAX,
    ensures
        r == delta_exec * NICE_0_WEIGHT / max_int(weight as int, 1),
{
    delta_exec * NICE_0_WEIGHT / if weight > 1 { weight } else { 1 }
}

impl CfsShared {
    /// Tables for a system in which nothing has run yet.
    pub fn new() -> (r: Self)
        ensures
            r.min_vruntime == 0,
            forall|i: int| 0 <= i < NPROC ==> #[trigger] r.vruntime@[i] == 0,
    {
        CfsShared { vruntime: [0;NPROC], min_vruntime: 0 }
    }

    /// Advances the floor to `candidate` if that is larger.
    pub fn advance_min_vruntime(&mut self, candidate: u64)
        ensures
            final(self).vruntime == old(self).vruntime,
            final(self).min_vruntime == advanced(old(self).min_vruntime, candidate),
    {
        if candidate > self.min_vruntime {
            self.min_vruntime = candidate;
        }
    }

    /// Takes note of what a scan found: a floor, unless nothing was active.
    pub fn note_scan(&mut self, scan: &CfsScan)
        ensures
            final(self).vruntime == old(self).vruntime,
            final(self).min_vruntime == floor_after(old(self).min_vruntime, scan.active_min),
    {
        if scan.active_min < u64::MAX {
            self.advance_min_vruntime(scan.active_min);
        }
    }
}

impl Default for Cfs {
    fn default() -> (r: Self)
        ensures
            r == Cfs,
    {
        Cfs
    }
}

/// A scan of the tables `s`, which saw the tasks in `states`, found `scan` and
/// left the tables `noted`.
pub open spec fn scanned(
    s: CfsShared,
    states: Seq<ProcState>,
    scan: CfsScan,
    noted: CfsShared,
) -> bool {
    &&& picks_least(vruntime_keys(s.vruntime@, states), 0, scan.best)
    &&& is_active_min(s.vruntime@, states, scan.active_min)
    &&& noted.vruntime == s.vruntime
    &&& noted.min_vruntime == floor_after(s.min_vruntime, scan.active_min)
}

impl Cfs {
    /// Chooses, and notes the floor.
    pub fn scan(&self, shared: &mut CfsShared, states: &[ProcState; NPROC]) -> (r: CfsScan)
        ensures
            scanned(*old(shared), states@, r, *final(shared)),
    {
        let scan: CfsScan = self.select(shared, states);
        shared.note_scan(&scan);
        scan
    }

    /// Scans the process table for the runnable task with the lowest vruntime
    /// and for the least vruntime of all active tasks.
    pub fn select(&self, shared: &CfsShared, states: &[ProcState; NPROC]) -> (r: CfsScan)
        ensures
            picks_least(vruntime_keys(shared.vruntime@, states@), 0, r.best),
            is_active_min(shared.vruntime@, states@, r.active_min),
    {
        let ghost keys = vruntime_keys(shared.vruntime@, states@);
        let mut best: Best = Best::new();
        let mut active_min: u64 = u64::MAX;
        assert(best.after(keys, 0, 0));
        let mut i: usize = 0;
        while i < NPROC
            invariant
                i <= NPROC,
                keys == vruntime_keys(shared.vruntime@, states@),
                best.after(keys, 0, i as int),
                is_active_min_of(shared.vruntime@, states@, i as int, active_min),
            decreases NPROC - i,
        {
            assert(turn(0, i as int) == i);
            match states[i] {
                ProcState::RUNNABLE => {
                    let vrt: u64 = shared.vruntime[i];
                    if vrt < active_min {
                        active_min = vrt;
                    }
                    proof {
                        lemma_offer(best, keys, 0, i as int, i, vrt);
                    }
                    best.offer(i, vrt);
                },
                ProcState::RUNNING => {
                    let vrt: u64 = shared.vruntime[i];
                    if vrt < active_min {
                        active_min = vrt;
                    }
                    proof {
                        lemma_skip(best, keys, 0, i as int, i as int);
                    }
                },
                _ => {
                    proof {
                        lemma_skip(best, keys, 0, i as int, i as int);
                    }
                },
            }
            i = i + 1;
        }
        CfsScan { best: best.pick, active_min }
    }
}

/// Slot `i` was switched in: `s` are the tables before, `s2` after.
pub open spec fn begun(s: CfsShared, i: int, s2: CfsShared) -> bool {
    &&& s2.vruntime@ == s.vruntime@.update(
        i,
        clamped(s.vruntime@[i], s.min_vruntime, SLEEPER_BONUS),
    )
    &&& s2.min_vruntime == s.min_vruntime
}

/// Slot `i` handed the CPU back: `s` are the tables before, `s2` after. The
/// vruntime starts over at the limit of its type.
pub open spec fn charged(s: CfsShared, i: int, s2: CfsShared) -> bool {
    &&& s2.vruntime@ == s.vruntime@.update(i, wrap_inc(s.vruntime@[i]))
    &&& s2.min_vruntime == s.min_vruntime
}

impl Scheduler for Cfs {
    type Shared = CfsShared;

    type Choice = usize;

    open spec fn begin_ok(self, shared: CfsShared, choice: usize) -> bool {
        choice < NPROC
    }

    open spec fn finish_ok(self, shared: CfsShared, choice: usize) -> bool {
        choice < NPROC
    }

    fn can_begin(&self, shared: &CfsShared, choice: &usize) -> (b: bool) {
        *choice < NPROC
    }

    fn begin(&mut self, shared: &mut CfsShared, choice: &usize, state: ProcState) -> (run: bool)
        ensures
            run == (state == ProcState::RUNNABLE),
            run ==> begun(*old(shared), *choice as int, *final(shared)),
    {
        if state != ProcState::RUNNABLE {
            return false;
        }
        let idx: usize = *choice;
        shared.vruntime[idx] = clamp_vruntime(
            shared.vruntime[idx],
            shared.min_vruntime,
            SLEEPER_BONUS,
        );
        true
    }

    fn can_finish(&self, shared: &CfsShared, choice: &usize) -> (b: bool) {
        *choice < NPROC
    }

    fn finish(&mut self, shared: &mut CfsShared, choice: &usize)
        ensures
            charged(*old(shared), *choice as int, *final(shared)),
    {
        proof {
            lemma_default_weight(SCHED_MIN_GRANULARITY as int);
        }
        let idx: usize = *choice;
        let delta: u64 = calc_delta(SCHED_MIN_GRANULARITY, NICE_0_WEIGHT);
        shared.vruntime[idx] = shared.vruntime[idx].wrapping_add(delta);
    }
}

/// A nicer task has a smaller weight.
pub proof fn lemma_weights_decrease(a: int, b: int)
    requires
        0 <= a < b < 40,
    ensures
        WEIGHT_TABLE@[a] > WEIGHT_TABLE@[b],
    decreases b - a,
{
    if a + 1 < b {
        lemma_weights_decrease(a + 1, b);
    }
    lemma_adjacent_weights(a);
}

proof fn lemma_adjacent_weights(a: int)
    requires
        0 <= a < 39,
    ensures
        WEIGHT_TABLE@[a] > WEIGHT_TABLE@[a + 1],
{
}

/// Nice values out of range count as the nearest one in range.
pub proof fn lemma_nice_clamps(nice: i8)
    ensures
        0 <= weight_row(nice) < 40,
        nice <= -20 ==> weight_row(nice) == weight_row(-20 as i8),
        nice >= 19 ==> weight_row(nice) == weight_row(19),
        WEIGHT_TABLE@[weight_row(0)] == NICE_0_WEIGHT,
{
}

/// A higher weight is charged no more for the same turn.
pub proof fn lemma_delta_antitone(delta_exec: int, light: int, heavy: int)
    requires
        0 <= delta_exec,
        0 <= light <= heavy,
    ensures
        delta_exec * NICE_0_WEIGHT / max_int(heavy, 1) <= delta_exec * NICE_0_WEIGHT / max_int(
            light,
            1,
        ),
{
    let work = delta_exec * NICE_0_WEIGHT;
    let a = max_int(light, 1);
    let b = max_int(heavy, 1);
    assert(work / b <= work / a) by (nonlinear_arith)
        requires
            work >= 0,
            0 < a <= b,
    ;
}

/// The chosen task is runnable and none has got less CPU.
pub proof fn lemma_least_vruntime_runs(
    vruntime: Seq<u64>,
    states: Seq<ProcState>,
    pick: usize,
    q: int,
)
    requires
        picks_least(vruntime_keys(vruntime, states), 0, Some(pick)),
        0 <= q < NPROC,
        states[q] == ProcState::RUNNABLE,
    ensures
        pick < NPROC,
        states[pick as int] == ProcState::RUNNABLE,
        vruntime[pick as int] <= vruntime[q],
{
    assert(vruntime_keys(vruntime, states)[pick as int] is Some);
    lemma_pick_is_least(vruntime, states, pick, q);
}

/// Any two runnable tasks are within `spread` of each other.
pub open spec fn within_spread(vruntime: Seq<u64>, states: Seq<ProcState>, spread: int) -> bool {
    forall|a: int, b: int|
        0 <= a < NPROC && 0 <= b < NPROC && states[a] == ProcState::RUNNABLE && states[b]
            == ProcState::RUNNABLE ==> #[trigger] vruntime[a] <= #[trigger] vruntime[b] + spread
}

/// Fairness: among tasks that stay runnable the difference in CPU time never
/// grows beyond one turn. Giving the chosen task its turn keeps all of them
/// within any spread of at least one turn that they were within before.
pub proof fn lemma_turn_keeps_spread(
    s: CfsShared,
    states: Seq<ProcState>,
    pick: usize,
    s1: CfsShared,
    s2: CfsShared,
    spread: int,
)
    requires
        spread >= SCHED_MIN_GRANULARITY,
        picks_least(vruntime_keys(s.vruntime@, states), 0, Some(pick)),
        s.vruntime@[pick as int] >= s.min_vruntime - SLEEPER_BONUS,
        begun(s, pick as int, s1),
        charged(s1, pick as int, s2),
        within_spread(s.vruntime@, states, spread),
    ensures
        within_spread(s2.vruntime@, states, spread),
{
    lemma_least_vruntime_runs(s.vruntime@, states, pick, pick as int);
    assert(s.vruntime@[pick as int] < u64::MAX) by {
        assert(vruntime_keys(s.vruntime@, states)[pick as int] is Some);
    }
    assert forall|a: int, b: int|
        0 <= a < NPROC && 0 <= b < NPROC && states[a] == ProcState::RUNNABLE && states[b]
            == ProcState::RUNNABLE implies #[trigger] s2.vruntime@[a] <= #[trigger] s2.vruntime@[b]
        + spread by {
        lemma_least_vruntime_runs(s.vruntime@, states, pick, b);
        assert(s.vruntime@[a] <= s.vruntime@[b] + spread);
        assert(s.vruntime@[a] <= s.vruntime@[pick as int] + spread);
    }
}

/// A waking task starts its turn at most the bonus behind the floor, so its
/// head start over a task at the floor is at most that.
pub proof fn lemma_sleeper_bonus_bounded(s: CfsShared, i: int, s2: CfsShared)
    requires
        0 <= i < NPROC,
        begun(s, i, s2),
    ensures
        s2.vruntime@[i] >= s.min_vruntime - SLEEPER_BONUS,
        s2.vruntime@[i] >= s.vruntime@[i],
        s.vruntime@[i] >= s.min_vruntime - SLEEPER_BONUS ==> s2.vruntime@ == s.vruntime@,
        forall|k: int| 0 <= k < NPROC && k != i ==> #[trigger] s2.vruntime@[k] == s.vruntime@[k],
{
    if s.vruntime@[i] >= s.min_vruntime - SLEEPER_BONUS {
        assert(s2.vruntime@ =~= s.vruntime@);
    }
}

} // verus!
