//! Laws of virtual runtimes and virtual deadlines.

use crate::process::{is_active, ProcState, NPROC};
use crate::scheduler::cfs;
use crate::scheduler::eevdf::{self, Eevdf, EevdfShared};
use crate::scheduler::hybrid_drl::{self, HybridChoice, HybridDrl, HybridShared};
use crate::scheduler::vtime::{
    self, active_count, active_total, clamped, floor_after, is_active_min, mean_vruntime,
};
use crate::scheduler::Scheduler;
use vstd::prelude::*;

verus! {

/// A task that is switched in starts its turn where it was, or, if that is more
/// than the credit behind the floor, exactly the credit behind the floor.
pub proof fn lemma_waking_task_catches_up(vruntime: u64, min_vruntime: u64, credit: u64)
    ensures
        vruntime + credit >= min_vruntime ==> clamped(vruntime, min_vruntime, credit) == vruntime,
        vruntime + credit < min_vruntime ==> clamped(vruntime, min_vruntime, credit) + credit
            == min_vruntime,
{
}

/// What a turn of a fair scheduler costs. A task that is switched in no more
/// than `credit` behind the floor keeps its vruntime, one that is further behind
/// starts exactly `credit` behind it, a turn costs one unit, and no other task
/// and not the floor is moved by either.
pub proof fn lemma_turn_costs_one_unit(
    s: cfs::CfsShared,
    i: int,
    s2: cfs::CfsShared,
    s3: cfs::CfsShared,
    s4: cfs::CfsShared,
    k: int,
)
    requires
        0 <= i < NPROC,
        0 <= k < NPROC,
        k != i,
        cfs::begun(s, i, s2),
        cfs::charged(s3, i, s4),
    ensures
        s.vruntime@[i] + 4 >= s.min_vruntime ==> s2.vruntime@[i] == s.vruntime@[i],
        s.vruntime@[i] + 4 < s.min_vruntime ==> s2.vruntime@[i] + 4 == s.min_vruntime,
        s2.vruntime@[k] == s.vruntime@[k],
        s2.min_vruntime == s.min_vruntime,
        s4.vruntime@[i] == (s3.vruntime@[i] + 1) % 0x1_0000_0000_0000_0000,
        s4.vruntime@[k] == s3.vruntime@[k],
        s4.min_vruntime == s3.min_vruntime,
{
}

/// A deadline that is still ahead stays. If the deadline of slot `i` is later
/// than the vruntime at which the task starts its turn, switching it in leaves
/// the deadline as it is; only a deadline that is reached is replaced, by one
/// that is a slice ahead. The deadlines of the other slots stay.
pub proof fn lemma_deadline_ahead_stays(s: EevdfShared, i: int, s2: EevdfShared, k: int)
    requires
        0 <= i < NPROC,
        0 <= k < NPROC,
        k != i,
        Eevdf.begin_ok(s, i as usize),
        eevdf::begun(s, i, s2),
    ensures
        s.deadline@[i] > s2.vruntime@[i] ==> s2.deadline@[i] == s.deadline@[i],
        s.deadline@[i] <= s2.vruntime@[i] ==> s2.deadline@[i] == s2.vruntime@[i] + 3,
        s2.deadline@[k] == s.deadline@[k],
        s2.vruntime@[k] == s.vruntime@[k],
        s.vruntime@[i] + 3 >= s.min_vruntime ==> s2.vruntime@[i] == s.vruntime@[i],
        s.vruntime@[i] + 3 < s.min_vruntime ==> s2.vruntime@[i] + 3 == s.min_vruntime,
        s2.min_vruntime == s.min_vruntime,
{
}

/// The same for the end of a turn: the turn costs one unit, and the deadline
/// stays unless that reaches it.
pub proof fn lemma_deadline_outlasts_turn(s: EevdfShared, i: int, s2: EevdfShared, k: int)
    requires
        0 <= i < NPROC,
        0 <= k < NPROC,
        k != i,
        Eevdf.finish_ok(s, i as usize),
        eevdf::charged(s, i, s2),
    ensures
        s2.vruntime@[i] == s.vruntime@[i] + 1,
        s.deadline@[i] > s2.vruntime@[i] ==> s2.deadline@[i] == s.deadline@[i],
        s.deadline@[i] <= s2.vruntime@[i] ==> s2.deadline@[i] == s2.vruntime@[i] + 3,
        s2.deadline@[k] == s.deadline@[k],
        s2.vruntime@[k] == s.vruntime@[k],
        s2.min_vruntime == s.min_vruntime,
{
}

/// Successive turns of slot `i`: `ins[n]` are the tables when turn `n` begins,
/// `runs[n]` when the task runs, `outs[n]` when it has handed the CPU back.
/// Between two turns nothing writes the entries of the slot.
pub open spec fn takes_turns(
    ins: Seq<EevdfShared>,
    runs: Seq<EevdfShared>,
    outs: Seq<EevdfShared>,
    i: int,
) -> bool {
    &&& runs.len() == ins.len()
    &&& outs.len() == ins.len()
    &&& forall|n: int|
        0 <= n < ins.len() ==> {
            &&& Eevdf.begin_ok(#[trigger] ins[n], i as usize)
            &&& Eevdf.finish_ok(runs[n], i as usize)
            &&& eevdf::begun(ins[n], i, runs[n])
            &&& eevdf::charged(runs[n], i, outs[n])
        }
    &&& forall|n: int|
        0 < n < ins.len() ==> (#[trigger] ins[n]).vruntime@[i] == outs[n - 1].vruntime@[i]
            && ins[n].deadline@[i] == outs[n - 1].deadline@[i]
}

/// A task has as many turns between two changes of its deadline as its slice
/// has units. From a fresh deadline on, and as long as the floor does not
/// overtake the task, the deadline is the same during three turns, and is moved
/// by a slice exactly when the third ends.
pub proof fn lemma_deadline_lasts_a_slice(
    ins: Seq<EevdfShared>,
    runs: Seq<EevdfShared>,
    outs: Seq<EevdfShared>,
    i: int,
)
    requires
        0 <= i < NPROC,
        ins.len() == 3,
        takes_turns(ins, runs, outs, i),
        ins[0].deadline@[i] == ins[0].vruntime@[i] + 3,
        forall|n: int|
            0 <= n < 3 ==> (#[trigger] ins[n]).min_vruntime <= ins[n].vruntime@[i] + 3,
    ensures
        forall|n: int|
            0 <= n < 3 ==> (#[trigger] runs[n]).deadline@[i] == ins[0].deadline@[i]
                && runs[n].vruntime@[i] == ins[0].vruntime@[i] + n,
        forall|n: int| 0 <= n < 2 ==> (#[trigger] outs[n]).deadline@[i] == ins[0].deadline@[i],
        outs[2].vruntime@[i] == ins[0].vruntime@[i] + 3,
        outs[2].deadline@[i] == ins[0].deadline@[i] + 3,
{
    let k = if i == 0 {
        1int
    } else {
        0
    };
    lemma_deadline_ahead_stays(ins[0], i, runs[0], k);
    lemma_deadline_outlasts_turn(runs[0], i, outs[0], k);
    lemma_deadline_ahead_stays(ins[1], i, runs[1], k);
    lemma_deadline_outlasts_turn(runs[1], i, outs[1], k);
    lemma_deadline_ahead_stays(ins[2], i, runs[2], k);
    lemma_deadline_outlasts_turn(runs[2], i, outs[2], k);
}

/// The hybrid treats deadlines in the same way, with slices of four units: one
/// that is ahead of the vruntime at which the task starts its turn stays.
pub proof fn lemma_hybrid_deadline_ahead_stays(
    h: HybridDrl,
    s: HybridShared,
    choice: HybridChoice,
    h2: HybridDrl,
    s2: HybridShared,
    k: int,
)
    requires
        0 <= k < NPROC,
        k != choice.idx,
        h.begin_ok(s, choice),
        hybrid_drl::begun(h, s, choice, h2, s2),
    ensures
        ({
            let i = choice.idx as int;
            &&& s.deadline@[i] > s2.vruntime@[i] ==> s2.deadline@[i] == s.deadline@[i]
            &&& s.deadline@[i] <= s2.vruntime@[i] ==> s2.deadline@[i] == s2.vruntime@[i] + 4
            &&& s.vruntime@[i] + 4 >= s.min_vruntime ==> s2.vruntime@[i] == s.vruntime@[i]
            &&& s.vruntime@[i] + 4 < s.min_vruntime ==> s2.vruntime@[i] + 4 == s.min_vruntime
        }),
        s2.deadline@[k] == s.deadline@[k],
        s2.vruntime@[k] == s.vruntime@[k],
        s2.min_vruntime == s.min_vruntime,
        s2.round == s.round,
        s2.wake_credit@ == s.wake_credit@,
        s2.run_burst@ == s.run_burst@,
        s2.last_run@ == s.last_run@,
        s2.run_count@ == s.run_count@,
        s2.last_state@ == s.last_state@,
{
}

/// What a turn under the hybrid leaves behind: one unit more vruntime, a
/// deadline that stays unless that reaches it, one turn more in the count and
/// in the burst, one wake credit less if there was any, and the number of the
/// round that follows. The other slots keep their entries.
pub proof fn lemma_hybrid_turn_is_charged(s: HybridShared, i: int, s2: HybridShared, k: int)
    requires
        0 <= i < NPROC,
        0 <= k < NPROC,
        k != i,
        s.vruntime@[i] + 5 <= u64::MAX,
        hybrid_drl::charged(s, i, s2),
    ensures
        s2.vruntime@[i] == s.vruntime@[i] + 1,
        s.deadline@[i] > s2.vruntime@[i] ==> s2.deadline@[i] == s.deadline@[i],
        s.deadline@[i] <= s2.vruntime@[i] ==> s2.deadline@[i] == s2.vruntime@[i] + 4,
        s.run_count@[i] < u64::MAX ==> s2.run_count@[i] == s.run_count@[i] + 1,
        s.run_burst@[i] < u64::MAX ==> s2.run_burst@[i] == s.run_burst@[i] + 1,
        s.wake_credit@[i] > 0 ==> s2.wake_credit@[i] == s.wake_credit@[i] - 1,
        s.wake_credit@[i] == 0 ==> s2.wake_credit@[i] == 0,
        s.round < u64::MAX ==> s2.round == s.round + 1 && s2.last_run@[i] == s2.round,
        s.round == u64::MAX ==> s2.round == 0 && s2.last_run@[i] == u64::MAX,
        s.run_count@[i] == u64::MAX ==> s2.run_count@[i] == 0,
        s.run_burst@[i] == u64::MAX ==> s2.run_burst@[i] == 0,
        s2.vruntime@[k] == s.vruntime@[k],
        s2.deadline@[k] == s.deadline@[k],
        s2.run_count@[k] == s.run_count@[k],
        s2.run_burst@[k] == s.run_burst@[k],
        s2.wake_credit@[k] == s.wake_credit@[k],
        s2.last_run@[k] == s.last_run@[k],
        s2.last_state@ == s.last_state@,
        s2.min_vruntime == s.min_vruntime,
{
}

/// Nothing is refused while the counters are away from their limits.
pub proof fn lemma_turns_are_not_refused(
    s: EevdfShared,
    h: HybridDrl,
    t: HybridShared,
    c: cfs::Cfs,
    u: cfs::CfsShared,
    choice: HybridChoice,
)
    requires
        choice.idx < NPROC,
        h.wf(),
        s.vruntime@[choice.idx as int] <= 0x7fff_ffff_ffff_ffff,
        s.min_vruntime <= 0x7fff_ffff_ffff_ffff,
        t.vruntime@[choice.idx as int] <= 0x7fff_ffff_ffff_ffff,
        t.min_vruntime <= 0x7fff_ffff_ffff_ffff,
    ensures
        Eevdf.begin_ok(s, choice.idx),
        Eevdf.finish_ok(s, choice.idx),
        h.begin_ok(t, choice),
        h.finish_ok(t, choice),
        c.begin_ok(u, choice.idx),
        c.finish_ok(u, choice.idx),
{
}

proof fn lemma_same_sums(
    v: Seq<u64>,
    a: Seq<ProcState>,
    w: Seq<u64>,
    b: Seq<ProcState>,
    n: nat,
)
    requires
        forall|i: int| 0 <= i < n ==> is_active(#[trigger] a[i]) == is_active(b[i]),
        forall|i: int| 0 <= i < n && is_active(#[trigger] a[i]) ==> v[i] == w[i],
    ensures
        active_total(v, a, n) == active_total(w, b, n),
        active_count(a, n) == active_count(b, n),
    decreases n,
{
    if n > 0 {
        lemma_same_sums(v, a, w, b, (n - 1) as nat);
        assert(is_active(a[n - 1]) == is_active(b[n - 1]));
    }
}

/// The mean is over the tasks that wait for a CPU or hold one, and over no
/// others: it does not tell the two apart, and a task that sleeps, has ended or
/// never began has no part in it, whatever its vruntime.
pub proof fn lemma_mean_is_over_active(
    v: Seq<u64>,
    a: Seq<ProcState>,
    w: Seq<u64>,
    b: Seq<ProcState>,
)
    requires
        forall|i: int|
            0 <= i < NPROC ==> ((#[trigger] a[i] == ProcState::RUNNABLE || a[i]
                == ProcState::RUNNING) <==> (b[i] == ProcState::RUNNABLE || b[i]
                == ProcState::RUNNING)),
        forall|i: int|
            0 <= i < NPROC && (#[trigger] a[i] == ProcState::RUNNABLE || a[i]
                == ProcState::RUNNING) ==> v[i] == w[i],
    ensures
        mean_vruntime(v, a) == mean_vruntime(w, b),
{
    lemma_same_sums(v, a, w, b, NPROC as nat);
}

proof fn lemma_sums_between(v: Seq<u64>, a: Seq<ProcState>, lo: int, hi: int, n: nat)
    requires
        0 <= lo <= hi,
        forall|i: int|
            0 <= i < n && (#[trigger] a[i] == ProcState::RUNNABLE || a[i] == ProcState::RUNNING)
                ==> lo <= v[i] <= hi,
    ensures
        lo * active_count(a, n) <= active_total(v, a, n) <= hi * active_count(a, n),
        active_count(a, n) <= n,
        active_count(a, n) == 0 <==> (forall|i: int|
            0 <= i < n ==> !(#[trigger] a[i] == ProcState::RUNNABLE || a[i] == ProcState::RUNNING)),
    decreases n,
{
    if n > 0 {
        lemma_sums_between(v, a, lo, hi, (n - 1) as nat);
        let c = active_count(a, (n - 1) as nat) as int;
        if a[n - 1] == ProcState::RUNNABLE || a[n - 1] == ProcState::RUNNING {
            assert(lo * (c + 1) == lo * c + lo) by (nonlinear_arith);
            assert(hi * (c + 1) == hi * c + hi) by (nonlinear_arith);
        }
    } else {
        assert(lo * 0 == 0 && hi * 0 == 0);
    }
}

/// The mean lies between the least and the largest vruntime of the active
/// tasks, and is 0 if there is no such task.
pub proof fn lemma_mean_is_between(v: Seq<u64>, a: Seq<ProcState>, lo: int, hi: int)
    requires
        0 <= lo <= hi <= 0x3ff_ffff_ffff_ffff,
        forall|i: int|
            0 <= i < NPROC && (#[trigger] a[i] == ProcState::RUNNABLE || a[i]
                == ProcState::RUNNING) ==> lo <= v[i] <= hi,
    ensures
        (exists|i: int|
            0 <= i < NPROC && (#[trigger] a[i] == ProcState::RUNNABLE || a[i]
                == ProcState::RUNNING)) ==> lo <= mean_vruntime(v, a) <= hi,
        (forall|i: int|
            0 <= i < NPROC ==> !(#[trigger] a[i] == ProcState::RUNNABLE || a[i]
                == ProcState::RUNNING)) ==> mean_vruntime(v, a) == 0,
{
    lemma_sums_between(v, a, lo, hi, NPROC as nat);
    let c = active_count(a, NPROC as nat) as int;
    let t = active_total(v, a, NPROC as nat) as int;
    if c > 0 {
        assert(hi * c <= 0xffff_ffff_ffff_ffff) by (nonlinear_arith)
            requires
                0 <= hi <= 0x3ff_ffff_ffff_ffff,
                0 < c <= 64,
        ;
        assert(lo <= t / c <= hi) by (nonlinear_arith)
            requires
                lo * c <= t <= hi * c,
                c > 0,
        ;
    }
}

proof fn lemma_one_more(v: Seq<u64>, a: Seq<ProcState>, k: int, x: u64, n: nat)
    requires
        0 <= k < v.len(),
        n <= v.len(),
        is_active(a[k]),
        x >= v[k],
    ensures
        active_total(v.update(k, x), a, n) == active_total(v, a, n) + if k < n {
            x - v[k]
        } else {
            0
        },
    decreases n,
{
    if n > 0 {
        lemma_one_more(v, a, k, x, (n - 1) as nat);
    }
}

/// Every active task has an equal part in the mean: if one of them moves ahead
/// by as many units as there are active tasks, the mean moves by one.
pub proof fn lemma_mean_follows_each_task(v: Seq<u64>, a: Seq<ProcState>, k: int, x: u64)
    requires
        v.len() == NPROC,
        0 <= k < NPROC,
        a[k] == ProcState::RUNNABLE || a[k] == ProcState::RUNNING,
        x == v[k] + active_count(a, NPROC as nat),
        forall|i: int| 0 <= i < NPROC ==> #[trigger] v[i] <= 0x3ff_ffff_ffff_0000,
    ensures
        mean_vruntime(v.update(k, x), a) == mean_vruntime(v, a) + 1,
{
    lemma_one_more(v, a, k, x, NPROC as nat);
    lemma_sums_between(v, a, 0, 0x3ff_ffff_ffff_0000, NPROC as nat);
    let c = active_count(a, NPROC as nat) as int;
    let t = active_total(v, a, NPROC as nat) as int;
    assert(a[k] == ProcState::RUNNABLE || a[k] == ProcState::RUNNING);
    assert(0x3ff_ffff_ffff_0000 * c <= 0x3ff_ffff_ffff_0000 * 64) by (nonlinear_arith)
        requires
            0 <= c <= 64,
    ;
    assert((t + c) / c == t / c + 1) by (nonlinear_arith)
        requires
            c > 0,
    ;
}

/// A sum of vruntimes that does not fit counts as the largest that does.
pub proof fn lemma_mean_of_too_much(v: Seq<u64>, a: Seq<ProcState>)
    requires
        active_count(a, NPROC as nat) > 0,
        active_total(v, a, NPROC as nat) > u64::MAX,
    ensures
        mean_vruntime(v, a) * active_count(a, NPROC as nat) <= u64::MAX < (mean_vruntime(v, a) + 1)
            * active_count(a, NPROC as nat),
{
    lemma_quotient(u64::MAX as int, active_count(a, NPROC as nat) as int);
}

/// The floor that a scan leaves is no later than any active vruntime or than
/// the floor was before, and no earlier than either of them all.
pub proof fn lemma_floor_follows_active(
    v: Seq<u64>,
    a: Seq<ProcState>,
    least: u64,
    before: u64,
    i: int,
)
    requires
        is_active_min(v, a, least),
        0 <= i < NPROC,
        a[i] == ProcState::RUNNABLE || a[i] == ProcState::RUNNING,
        v[i] < u64::MAX,
    ensures
        least <= v[i],
        exists|k: int|
            0 <= k < NPROC && (#[trigger] a[k] == ProcState::RUNNABLE || a[k]
                == ProcState::RUNNING) && v[k] == least,
        floor_after(before, least) >= before,
        floor_after(before, least) >= least,
        floor_after(before, least) == before || floor_after(before, least) == least,
{
    let k = choose|k: int| 0 <= k < NPROC && is_active(a[k]) && least == #[trigger] v[k];
    assert(a[k] == ProcState::RUNNABLE || a[k] == ProcState::RUNNING);
}

/// Where nothing is active the floor stays.
pub proof fn lemma_floor_stays_idle(v: Seq<u64>, a: Seq<ProcState>, least: u64, before: u64)
    requires
        is_active_min(v, a, least),
        forall|i: int|
            0 <= i < NPROC ==> !(#[trigger] a[i] == ProcState::RUNNABLE || a[i]
                == ProcState::RUNNING),
    ensures
        floor_after(before, least) == before,
{
}

/// One step of niceness is worth about a quarter of the weight, from 88761 for
/// the least nice to 15 for the nicest; nice 0 weighs 1024, and values out of
/// range weigh as much as the nearest in range.
pub proof fn lemma_niceness_lowers_weight(nice: i8, w: u64, v: u64)
    requires
        nice < 127,
        call_ensures(cfs::weight_of_nice, (nice,), w),
        call_ensures(cfs::weight_of_nice, ((nice + 1) as i8,), v),
    ensures
        -20 <= nice < 19 ==> v * 120 <= w * 100 <= v * 128,
        nice == 0 ==> w == 1024,
        nice <= -20 ==> w == 88761,
        nice >= 19 ==> w == 15,
{
    if -20 <= nice < 19 {
        lemma_rows(nice + 20);
    }
    assert(cfs::WEIGHT_TABLE@[20] == 1024);
    assert(cfs::WEIGHT_TABLE@[0] == 88761);
    assert(cfs::WEIGHT_TABLE@[39] == 15);
}

/// The sum of the first `n` weights.
pub open spec fn weight_total(n: nat) -> int
    decreases n,
{
    if n == 0 {
        0
    } else {
        weight_total((n - 1) as nat) + cfs::WEIGHT_TABLE@[n - 1]
    }
}

/// The weights of all niceness values together, and of those from 0 on.
pub proof fn lemma_weights_together()
    ensures
        weight_total(40) == 445163,
        weight_total(40) - weight_total(20) == 5068,
{
    reveal_with_fuel(weight_total, 41);
}

proof fn lemma_rows(i: int)
    requires
        0 <= i < 39,
    ensures
        cfs::WEIGHT_TABLE@[i + 1] * 120 <= cfs::WEIGHT_TABLE@[i] * 100 <= cfs::WEIGHT_TABLE@[i + 1]
            * 128,
{
}

/// Virtual time passes in inverse proportion to the weight: a delta times the
/// weight is the time on the CPU times the default weight, rounded down. The
/// length of a slice follows the same rule.
pub proof fn lemma_weight_slows_virtual_time(
    time: u64,
    weight: u64,
    a: u64,
    b: u64,
    c: u64,
    d: u64,
    e: u64,
)
    requires
        0 < weight,
        time * 1024 <= u64::MAX,
        call_ensures(cfs::calc_delta, (time, weight), a),
        call_ensures(eevdf::calc_delta, (time, weight), b),
        call_ensures(hybrid_drl::calc_delta, (time, weight), c),
        call_ensures(eevdf::calc_slice_vruntime, (weight,), d),
        call_ensures(hybrid_drl::calc_slice_vruntime, (weight,), e),
    ensures
        a * weight <= time * 1024 < (a + 1) * weight,
        b == a,
        c == a,
        d * weight <= 3 * 1024 < (d + 1) * weight,
        e * weight <= 4 * 1024 < (e + 1) * weight,
{
    lemma_quotient(time * 1024, weight as int);
    lemma_quotient(3072, weight as int);
    lemma_quotient(4096, weight as int);
    assert(time * vtime::NICE_0_WEIGHT == time * 1024);
    assert(eevdf::SCHED_SLICE * vtime::NICE_0_WEIGHT == 3 * 1024);
    assert(hybrid_drl::SCHED_SLICE * vtime::NICE_0_WEIGHT == 4 * 1024);
}

proof fn lemma_quotient(a: int, b: int)
    requires
        b > 0,
    ensures
        a / b * b <= a < (a / b + 1) * b,
{
    let q = a / b;
    assert(q * b <= a < (q + 1) * b) by (nonlinear_arith)
        requires
            b > 0,
            q == a / b,
    ;
}

/// A value is scaled to the part that it is of its limit, in units of 1/1024
/// rounded down, and to no more than the whole.
pub proof fn lemma_scale_is_part_of_limit(value: u64, max: u64, r: i64)
    requires
        0 < max <= 0xf_ffff_ffff_ffff,
        call_ensures(hybrid_drl::clamp_scale, (value, max), r),
    ensures
        value >= max ==> r == 1024,
        value <= max ==> r * max <= value * 1024 < (r + 1) * max,
{
    let v = if value <= max {
        value as int
    } else {
        max as int
    };
    lemma_quotient(v * 1024, max as int);
    assert(max * 1024 / max as int == 1024) by (nonlinear_arith)
        requires
            max > 0,
    ;
}

} // verus!
