//! Laws of the schedulers, stated of their operations as they are called.

use crate::arith::sat_i64;
use crate::bench::report::{burst_report, BurstReport, Child};
use crate::bench::status::with_work_is;
use crate::laws::learning::{
    lemma_drl_better_epoch_keeps_weights, lemma_hybrid_better_epoch_keeps_weights,
    lemma_score_brings_deadline_forward, lemma_wake_credit_reaches_learner,
};
use crate::laws::network::{lemma_draws_cover_range, lemma_path_carries_input};
use crate::laws::priorities::lemma_o1_slice_earned;
use crate::laws::reports::{
    added_up, arriving, counted, is_top, lemma_burst_round_trip, of_others, of_those, unchanged,
};
use crate::laws::selection::{
    lemma_cfs_choice, lemma_drl_choice, lemma_first_of_the_least, lemma_mlfq_choice,
    lemma_o1_choice, lemma_o1_swaps_for_expired_only, o1_scanned, slots_before,
};
use crate::laws::virtual_time::{lemma_floor_follows_active, lemma_mean_is_between};
use crate::prng::{xorshift, XorShift64};
use crate::process::{ProcState, NPROC};
use crate::scheduler::cfs::{Cfs, CfsScan, CfsShared};
use crate::scheduler::drl::{Drl, DrlShared};
use crate::scheduler::eevdf::{self, Eevdf, EevdfShared};
use crate::scheduler::hybrid_drl::{self, HybridChoice, HybridDrl, HybridShared};
use crate::scheduler::mlfq::{Mlfq, MlfqShared};
use crate::scheduler::network::Network;
use crate::scheduler::o1::{self, slot_swapped, O1Scan, O1Shared, O1Step, O1};
use crate::scheduler::round_robin::RoundRobin;
use crate::scheduler::vtime::{
    clamp_vruntime, floor_after, picks_preferred, survey, vruntime_keys, Survey,
};
use crate::scheduler::Scheduler;
use vstd::prelude::*;

verus! {

/// `begin` of EEVDF leaves a deadline that is still ahead as it is, and replaces
/// one that is reached by one a slice ahead.
pub proof fn lemma_eevdf_begin(i: usize, state: ProcState)
    requires
        i < NPROC,
    ensures
        forall|e: &mut Eevdf, s: &mut EevdfShared, run: bool|
            #[trigger] call_ensures(<Eevdf as Scheduler>::begin, (e, s, &i, state), run)
                && s.vruntime@[i as int] < 0x7fff_ffff_ffff_ffff && s.min_vruntime
                < 0x7fff_ffff_ffff_ffff ==> {
                let v = final(s).vruntime@[i as int];
                &&& run <==> state == ProcState::RUNNABLE
                &&& !run ==> *final(s) == *s
                &&& run && s.deadline@[i as int] > v ==> final(s).deadline@[i as int]
                    == s.deadline@[i as int]
                &&& run && s.deadline@[i as int] <= v ==> final(s).deadline@[i as int] == v + 3
            },
{
}

/// `finish` of EEVDF charges one unit and leaves a deadline that is still ahead
/// as it is.
pub proof fn lemma_eevdf_finish(i: usize)
    requires
        i < NPROC,
    ensures
        forall|e: &mut Eevdf, s: &mut EevdfShared|
            #[trigger] call_ensures(<Eevdf as Scheduler>::finish, (e, s, &i), ())
                && s.vruntime@[i as int] < 0x7fff_ffff_ffff_ffff ==> {
                let v = final(s).vruntime@[i as int];
                &&& v == s.vruntime@[i as int] + 1
                &&& s.deadline@[i as int] > v ==> final(s).deadline@[i as int]
                    == s.deadline@[i as int]
                &&& s.deadline@[i as int] <= v ==> final(s).deadline@[i as int] == v + 3
            },
{
}

/// `begin` and `finish` of CFS touch the vruntime of the task alone: it is
/// brought up to four units behind the floor, and charged one unit.
pub proof fn lemma_cfs_turn(i: usize, state: ProcState)
    requires
        i < NPROC,
    ensures
        forall|c: &mut Cfs, s: &mut CfsShared, run: bool|
            #[trigger] call_ensures(<Cfs as Scheduler>::begin, (c, s, &i, state), run) ==> {
                let v = s.vruntime@[i as int];
                let w = final(s).vruntime@[i as int];
                &&& run <==> state == ProcState::RUNNABLE
                &&& !run ==> *final(s) == *s
                &&& run && v + 4 >= s.min_vruntime ==> w == v
                &&& run && v + 4 < s.min_vruntime ==> w + 4 == s.min_vruntime
                &&& final(s).min_vruntime == s.min_vruntime
            },
        forall|c: &mut Cfs, s: &mut CfsShared|
            #[trigger] call_ensures(<Cfs as Scheduler>::finish, (c, s, &i), ())
                && s.vruntime@[i as int] < u64::MAX ==> final(s).vruntime@[i as int]
                == s.vruntime@[i as int] + 1 && final(s).min_vruntime == s.min_vruntime,
{
}

/// `learn` of the DRL scheduler adds the next perturbation to the weights as
/// they are if the reward of the epoch is greater than the previous one or the
/// previous one is not positive, and to the weights without their perturbation
/// otherwise.
pub proof fn lemma_drl_learn(j: int, k: int)
    requires
        0 <= j < 8,
        0 <= k < 4,
    ensures
        forall|d: &mut Drl|
            #[trigger] call_ensures(Drl::learn, (d,), ()) ==> {
                let a = d.net;
                let b = final(d).net;
                &&& d.reward() > d.prev_reward || d.prev_reward <= 0 ==> b.w1@[j]@[k] == sat_i64(
                    a.w1@[j]@[k] + b.pw1@[j]@[k],
                ) && b.b1@[j] == sat_i64(a.b1@[j] + b.pb1@[j]) && b.w2@[j] == sat_i64(
                    a.w2@[j] + b.pw2@[j],
                ) && b.b2 == sat_i64(a.b2 + b.pb2)
                &&& d.reward() <= d.prev_reward && d.prev_reward > 0 ==> b.w1@[j]@[k] == sat_i64(
                    sat_i64(a.w1@[j]@[k] - a.pw1@[j]@[k]) + b.pw1@[j]@[k],
                )
                &&& final(d).prev_reward == d.reward()
            },
{
    assert forall|d: &mut Drl| #[trigger] call_ensures(Drl::learn, (d,), ()) implies {
        let a = d.net;
        let b = final(d).net;
        &&& d.reward() > d.prev_reward || d.prev_reward <= 0 ==> b.w1@[j]@[k] == sat_i64(
            a.w1@[j]@[k] + b.pw1@[j]@[k],
        ) && b.b1@[j] == sat_i64(a.b1@[j] + b.pb1@[j]) && b.w2@[j] == sat_i64(a.w2@[j] + b.pw2@[j])
            && b.b2 == sat_i64(a.b2 + b.pb2)
        &&& d.reward() <= d.prev_reward && d.prev_reward > 0 ==> b.w1@[j]@[k] == sat_i64(
            sat_i64(a.w1@[j]@[k] - a.pw1@[j]@[k]) + b.pw1@[j]@[k],
        )
        &&& final(d).prev_reward == d.reward()
    } by {
        lemma_drl_better_epoch_keeps_weights(*d, *final(d), j, k);
    }
}

/// `finish` of the DRL scheduler learns once an epoch of 64 dispatches is over
/// and never before, and lets the next scan start after the slot that ran.
pub proof fn lemma_drl_finish(i: usize)
    requires
        i < NPROC,
    ensures
        forall|d: &mut Drl, s: &mut DrlShared|
            #[trigger] call_ensures(<Drl as Scheduler>::finish, (d, s, &i), ()) ==> {
                &&& d.epoch_dispatches < 64 ==> final(d).net == d.net && final(d).prev_reward
                    == d.prev_reward && final(d).epoch_dispatches == d.epoch_dispatches
                    && final(d).epoch_dispatch_mask == d.epoch_dispatch_mask
                    && final(d).epoch_max_wait == d.epoch_max_wait && final(d).rng == d.rng
                &&& d.epoch_dispatches >= 64 ==> final(d).prev_reward == d.reward()
                    && final(d).epoch_dispatches == 0
                &&& i < 63 ==> final(d).scan_offset == i + 1
                &&& i == 63 ==> final(d).scan_offset == 0
            },
{
}

/// `learn` of the hybrid decides in the same way, except that any previous
/// reward other than 0 is one to compare with.
pub proof fn lemma_hybrid_learn(j: int, k: int)
    requires
        0 <= j < 8,
        0 <= k < 6,
    ensures
        forall|h: &mut HybridDrl|
            #[trigger] call_ensures(HybridDrl::learn, (h,), ()) ==> {
                let a = h.net;
                let b = final(h).net;
                &&& h.reward() > h.prev_reward || h.prev_reward == 0 ==> b.w1@[j]@[k] == sat_i64(
                    a.w1@[j]@[k] + b.pw1@[j]@[k],
                ) && b.b1@[j] == sat_i64(a.b1@[j] + b.pb1@[j]) && b.w2@[j] == sat_i64(
                    a.w2@[j] + b.pw2@[j],
                ) && b.b2 == sat_i64(a.b2 + b.pb2)
                &&& h.reward() <= h.prev_reward && h.prev_reward != 0 ==> b.w1@[j]@[k] == sat_i64(
                    sat_i64(a.w1@[j]@[k] - a.pw1@[j]@[k]) + b.pw1@[j]@[k],
                )
                &&& final(h).prev_reward == h.reward()
            },
{
    assert forall|h: &mut HybridDrl| #[trigger] call_ensures(HybridDrl::learn, (h,), ()) implies {
        let a = h.net;
        let b = final(h).net;
        &&& h.reward() > h.prev_reward || h.prev_reward == 0 ==> b.w1@[j]@[k] == sat_i64(
            a.w1@[j]@[k] + b.pw1@[j]@[k],
        ) && b.b1@[j] == sat_i64(a.b1@[j] + b.pb1@[j]) && b.w2@[j] == sat_i64(a.w2@[j] + b.pw2@[j])
            && b.b2 == sat_i64(a.b2 + b.pb2)
        &&& h.reward() <= h.prev_reward && h.prev_reward != 0 ==> b.w1@[j]@[k] == sat_i64(
            sat_i64(a.w1@[j]@[k] - a.pw1@[j]@[k]) + b.pw1@[j]@[k],
        )
        &&& final(h).prev_reward == h.reward()
    } by {
        lemma_hybrid_better_epoch_keeps_weights(*h, *final(h), j, k);
    }
}

/// `finish` of the hybrid learns once an epoch of 128 dispatches is over and
/// never before.
pub proof fn lemma_hybrid_finish(choice: HybridChoice)
    requires
        choice.idx < NPROC,
    ensures
        forall|h: &mut HybridDrl, s: &mut HybridShared|
            #[trigger] call_ensures(<HybridDrl as Scheduler>::finish, (h, s, &choice), ()) ==> {
                &&& h.epoch_dispatches < 128 ==> *final(h) == *h
                &&& h.epoch_dispatches >= 128 ==> final(h).prev_reward == h.reward()
                    && final(h).epoch_dispatches == 0
            },
{
}

/// `features` of the hybrid tells two slots that differ only in wake credit
/// apart by the third input, and by nothing else.
pub proof fn lemma_hybrid_features(
    s: HybridShared,
    i: usize,
    t: HybridShared,
    k: usize,
    round: u64,
    avg: u64,
    v: u64,
    d: u64,
    f: ([i64; 6], u64, u64),
    g: ([i64; 6], u64, u64),
)
    requires
        i < NPROC,
        k < NPROC,
        call_ensures(HybridDrl::features, (&s, i, round, avg, v, d), f),
        call_ensures(HybridDrl::features, (&t, k, round, avg, v, d), g),
        s.last_run@[i as int] == t.last_run@[k as int],
        s.run_count@[i as int] == t.run_count@[k as int],
        s.run_burst@[i as int] == t.run_burst@[k as int],
        s.wake_credit@[i as int] < t.wake_credit@[k as int] <= 6,
    ensures
        f.0@[2] < g.0@[2],
        s.wake_credit@[i as int] == 0 ==> f.0@[2] == 0,
        t.wake_credit@[k as int] == 6 ==> g.0@[2] == 1024,
        forall|n: int| 0 <= n < 6 && n != 2 ==> #[trigger] f.0@[n] == g.0@[n],
        f.1 == g.1,
        f.2 == g.2,
        round > s.last_run@[i as int] ==> f.1 == round - s.last_run@[i as int],
        avg > v ==> f.2 == avg - v,
{
    lemma_wake_credit_reaches_learner(s, i as int, t, k as int, round, avg, v, d);
}

/// After a scan of the O(1) scheduler, `step` is a swap if and only if some
/// runnable task has expired and no task that has not is runnable or running;
/// and then, and only then, `needs_swap` says so.
pub proof fn lemma_o1_step(
    m: O1,
    s: O1Shared,
    states: [ProcState; NPROC],
    r: O1Scan,
    step: O1Step,
    needed: bool,
)
    requires
        m.wf(),
        call_ensures(O1::select, (&m, &s, &states), r),
        call_ensures(O1Scan::step, (&r,), step),
        call_ensures(O1Scan::needs_swap, (&r,), needed),
    ensures
        step == O1Step::Swap <==> {
            &&& exists|i: int|
                0 <= i < NPROC && #[trigger] states@[i] == ProcState::RUNNABLE && s.is_expired@[i]
            &&& forall|i: int|
                0 <= i < NPROC && (#[trigger] states@[i] == ProcState::RUNNABLE || states@[i]
                    == ProcState::RUNNING) ==> s.is_expired@[i]
        },
        needed <==> step == O1Step::Swap,
{
    assert(o1_scanned(m, s, states@, r));
    lemma_o1_swaps_for_expired_only(m, s, states@, r);
}

/// `try_swap` begins an epoch only for a scan that saw the current one.
pub proof fn lemma_o1_try_swap(r: O1Scan)
    ensures
        forall|s: &mut O1Shared, b: bool|
            #[trigger] call_ensures(O1Shared::try_swap, (s, &r), b) ==> {
                &&& b <==> s.epoch == r.epoch
                &&& b ==> final(s).epoch == s.epoch + 1
                &&& !b ==> *final(s) == *s
            },
{
}

/// `begin` of O(1) runs a runnable task that has not expired, and no other.
pub proof fn lemma_o1_begin(i: usize, state: ProcState)
    requires
        i < NPROC,
    ensures
        forall|m: &mut O1, s: &mut O1Shared, run: bool|
            #[trigger] call_ensures(<O1 as Scheduler>::begin, (m, s, &i, state), run) ==> {
                &&& run <==> state == ProcState::RUNNABLE && !s.is_expired@[i as int]
                &&& !run ==> *final(s) == *s
                &&& *final(m) == *m
            },
        forall|m: &mut O1|
            #[trigger] call_ensures(O1::advance, (m, i), ()) ==> {
                &&& i < 63 ==> final(m).scan_offset == i + 1
                &&& i == 63 ==> final(m).scan_offset == 0
            },
{
}

/// `begin` of MLFQ runs a runnable task and no other, and changes nothing; the
/// next scan starts after the slot that ran; a boost counts no dispatch.
pub proof fn lemma_mlfq_begin(i: usize, state: ProcState)
    requires
        i < NPROC,
    ensures
        forall|m: &mut Mlfq, s: &mut MlfqShared, run: bool|
            #[trigger] call_ensures(<Mlfq as Scheduler>::begin, (m, s, &i, state), run) ==> {
                &&& run <==> state == ProcState::RUNNABLE
                &&& *final(s) == *s
                &&& *final(m) == *m
            },
        forall|m: &mut Mlfq|
            #[trigger] call_ensures(Mlfq::advance, (m, i), ()) ==> {
                &&& i < 63 ==> final(m).scan_offset == i + 1
                &&& i == 63 ==> final(m).scan_offset == 0
            },
        forall|s: &mut MlfqShared|
            #[trigger] call_ensures(MlfqShared::boost, (s,), ()) ==> final(s).dispatch_count
                == s.dispatch_count,
{
}

/// Round robin visits the next slot, and the first one after the last, and runs
/// what is runnable.
pub proof fn lemma_round_robin_goes_round(rr: RoundRobin, i: usize, next: usize)
    requires
        i < NPROC,
        call_ensures(RoundRobin::next_slot, (&rr, i), next),
    ensures
        i < 63 ==> next == i + 1,
        i == 63 ==> next == 0,
        forall|r: &mut RoundRobin, s: &mut (), state: ProcState, run: bool|
            #[trigger] call_ensures(<RoundRobin as Scheduler>::begin, (r, s, &i, state), run) ==> (
            run <==> state == ProcState::RUNNABLE),
{
}

/// Each CPU's generator gets a seed of its own: the seeds are a fixed step
/// apart, modulo the word size.
pub proof fn lemma_seeds_are_steps_apart()
    ensures
        forall|s: &mut DrlShared, seed: u64|
            #[trigger] call_ensures(DrlShared::next_seed, (s,), seed) ==> {
                &&& seed == (s.seed_ctr + 0xDEAD_BEEF_0000_1337) % 0x1_0000_0000_0000_0000
                &&& final(s).seed_ctr == (s.seed_ctr + 0xCAFE_BABE_0000_1234)
                    % 0x1_0000_0000_0000_0000
                &&& final(s).round == s.round
                &&& final(s).last_run == s.last_run
                &&& final(s).run_count == s.run_count
            },
        forall|s: &mut HybridShared, seed: u64|
            #[trigger] call_ensures(HybridShared::next_seed, (s,), seed) ==> {
                &&& seed == (s.seed_ctr + 0xD1B5_4A32_D192_ED03) % 0x1_0000_0000_0000_0000
                &&& final(s).seed_ctr == (s.seed_ctr + 0x9E37_79B9_7F4A_7C15)
                    % 0x1_0000_0000_0000_0000
                &&& final(s).round == s.round
                &&& final(s).vruntime == s.vruntime
                &&& final(s).deadline == s.deadline
            },
{
}

/// In a new system every slot is at its best: nothing has run, nothing has
/// expired, no credit is held, and all stand equal.
pub proof fn lemma_new_systems_are_level(
    c: CfsShared,
    e: EevdfShared,
    m: MlfqShared,
    o: O1Shared,
    d: DrlShared,
    h: HybridShared,
    i: int,
)
    requires
        0 <= i < NPROC,
        call_ensures(CfsShared::new, (), c),
        call_ensures(EevdfShared::new, (), e),
        call_ensures(MlfqShared::new, (), m),
        call_ensures(O1Shared::new, (), o),
        call_ensures(DrlShared::new, (), d),
        call_ensures(HybridShared::new, (), h),
    ensures
        c.vruntime@[i] == 0 && c.min_vruntime == 0,
        e.vruntime@[i] == 0 && e.deadline@[i] == 0 && e.min_vruntime == 0,
        m.queue_level@[i] == 0 && m.ticks_at_level@[i] == 0 && m.dispatch_count == 0,
        o.sleep_avg@[i] == 0 && o.dyn_priority@[i] == 20 && o.timeslice@[i] == 0
            && !o.is_expired@[i] && o.epoch == 0,
        d.last_run@[i] == 0 && d.run_count@[i] == 0 && d.round == 1 && d.seed_ctr == 0,
        h.vruntime@[i] == 0 && h.deadline@[i] == 0 && h.last_run@[i] == 0 && h.run_count@[i] == 0
            && h.run_burst@[i] == 0 && h.wake_credit@[i] == 0 && h.last_state@[i] == 0
            && h.min_vruntime == 0 && h.round == 1 && h.seed_ctr == 0,
{
    assert(o.dyn_priority@[i] == 20);
    assert(h.vruntime@[i] == 0);
}

/// Round trip through `burst_report`: for children that are not among `pids` and
/// report a 95th percentile, a maximum and a counter, the bursty work is the sum
/// of the counters in whole thousands, and the two delays are the worst of
/// theirs.
pub proof fn lemma_burst_report<const N: usize>(
    children: &[Child],
    pids: [usize; N],
    p95: Seq<usize>,
    max: Seq<usize>,
    counters: Seq<usize>,
    r: BurstReport,
)
    requires
        call_ensures(burst_report::<N>, (children, &pids), r),
        p95.len() == children@.len(),
        max.len() == children@.len(),
        counted(children@, pids@, counters),
        forall|i: int|
            0 <= i < children@.len() && !pids@.contains((#[trigger] children@[i]).pid) ==> {
                &&& with_work_is(children@[i].status, p95[i], max[i], counters[i])
                &&& counters[i] as int / 1000 < 0x4000
                &&& p95[i] <= 127
                &&& max[i] <= 127
            },
    ensures
        r.bursty_work == added_up(
            of_others(children@, pids@, arriving(counters)),
            children@.len(),
        ),
        is_top(of_others(children@, pids@, unchanged(p95)), r.delay_p95 as int),
        is_top(of_others(children@, pids@, unchanged(max)), r.delay_max as int),
        r.batch_work == added_up(
            of_those(children@, pids@, arriving(counters), 0),
            children@.len(),
        ),
{
    lemma_burst_round_trip(children@, pids@, p95, max, counters, r);
}

/// `select` of MLFQ: whenever a task is runnable, one is chosen that no other
/// runnable task outranks, the first on the way round from where the scan
/// starts.
pub proof fn lemma_mlfq_select(
    m: Mlfq,
    s: MlfqShared,
    states: [ProcState; NPROC],
    pick: Option<usize>,
    i: int,
)
    requires
        m.wf(),
        call_ensures(Mlfq::select, (&m, &s, &states), pick),
        0 <= i < NPROC,
        states@[i] == ProcState::RUNNABLE,
        s.queue_level@[i] < 3,
    ensures
        pick is Some,
        ({
            let p = pick->0 as int;
            &&& p < NPROC
            &&& states@[p] == ProcState::RUNNABLE
            &&& s.queue_level@[p] <= s.queue_level@[i]
            &&& s.queue_level@[p] == s.queue_level@[i] ==> slots_before(m.scan_offset as int, p)
                <= slots_before(m.scan_offset as int, i)
        }),
{
    lemma_mlfq_choice(m, s, states@, pick, i);
}

/// `select` of the DRL scheduler: whenever a task is runnable and not scored at
/// the very bottom, one is chosen that no other outscores, the first on the way
/// round.
pub proof fn lemma_drl_select(
    d: Drl,
    s: DrlShared,
    states: [ProcState; NPROC],
    round: u64,
    pick: Option<usize>,
    i: int,
)
    requires
        d.wf(),
        call_ensures(Drl::select, (&d, &s, &states, round), pick),
        0 <= i < NPROC,
        states@[i] == ProcState::RUNNABLE,
        d.slot_score(s, i, round) > i64::MIN,
    ensures
        pick is Some,
        ({
            let p = pick->0 as int;
            &&& p < NPROC
            &&& states@[p] == ProcState::RUNNABLE
            &&& d.slot_score(s, p, round) >= d.slot_score(s, i, round)
            &&& d.slot_score(s, p, round) == d.slot_score(s, i, round) ==> slots_before(
                d.scan_offset as int,
                p,
            ) <= slots_before(d.scan_offset as int, i)
        }),
{
    lemma_drl_choice(d, s, states@, round, pick, i);
}

/// `select` and `step` of O(1): whenever an active task is runnable, one of the
/// best priority is dispatched, the first on the way round.
pub proof fn lemma_o1_select(
    m: O1,
    s: O1Shared,
    states: [ProcState; NPROC],
    r: O1Scan,
    step: O1Step,
    i: int,
)
    requires
        m.wf(),
        call_ensures(O1::select, (&m, &s, &states), r),
        call_ensures(O1Scan::step, (&r,), step),
        0 <= i < NPROC,
        states@[i] == ProcState::RUNNABLE,
        !s.is_expired@[i],
        s.dyn_priority@[i] < 40,
    ensures
        step is Dispatch,
        r.epoch == s.epoch,
        ({
            let p = step->Dispatch_0 as int;
            &&& p < NPROC
            &&& states@[p] == ProcState::RUNNABLE
            &&& !s.is_expired@[p]
            &&& s.dyn_priority@[p] <= s.dyn_priority@[i]
            &&& s.dyn_priority@[p] == s.dyn_priority@[i] ==> slots_before(m.scan_offset as int, p)
                <= slots_before(m.scan_offset as int, i)
        }),
{
    assert(o1_scanned(m, s, states@, r));
    lemma_o1_choice(m, s, states@, r, i);
}

/// `select` of CFS: whenever a task is runnable, one with the least vruntime is
/// chosen, the lowest slot of several.
pub proof fn lemma_cfs_select(
    c: Cfs,
    s: CfsShared,
    states: [ProcState; NPROC],
    r: CfsScan,
    i: int,
)
    requires
        call_ensures(Cfs::select, (&c, &s, &states), r),
        0 <= i < NPROC,
        states@[i] == ProcState::RUNNABLE,
        s.vruntime@[i] < u64::MAX,
    ensures
        r.best is Some,
        ({
            let p = r.best->0 as int;
            &&& p < NPROC
            &&& states@[p] == ProcState::RUNNABLE
            &&& s.vruntime@[p] < s.vruntime@[i] || (s.vruntime@[p] == s.vruntime@[i] && p <= i)
        }),
        r.active_min <= s.vruntime@[i],
{
    let noted = CfsShared { min_vruntime: floor_after(s.min_vruntime, r.active_min), ..s };
    lemma_cfs_choice(s, states@, r, noted, i);
}

/// `scan` of CFS notes the floor and leaves the vruntimes alone.
pub proof fn lemma_cfs_scan(c: Cfs, states: [ProcState; NPROC])
    ensures
        forall|s: &mut CfsShared, r: CfsScan|
            #[trigger] call_ensures(Cfs::scan, (&c, s, &states), r) ==> {
                &&& final(s).vruntime@ == s.vruntime@
                &&& final(s).min_vruntime >= s.min_vruntime
                &&& r.active_min < u64::MAX ==> final(s).min_vruntime >= r.active_min
                &&& final(s).min_vruntime == s.min_vruntime || final(s).min_vruntime
                    == r.active_min
            },
{
}

/// `select` of EEVDF: an eligible runnable task with the earliest deadline is
/// chosen whenever there is one, and otherwise a runnable one with the least
/// vruntime.
pub proof fn lemma_eevdf_select(
    e: Eevdf,
    s: EevdfShared,
    states: [ProcState; NPROC],
    avg: u64,
    pick: Option<usize>,
    i: int,
)
    requires
        call_ensures(Eevdf::select, (&e, &s, &states, avg), pick),
        0 <= i < NPROC,
        states@[i] == ProcState::RUNNABLE,
        s.vruntime@[i] < u64::MAX,
    ensures
        pick is Some,
        ({
            let p = pick->0 as int;
            let v = s.vruntime@;
            let d = s.deadline@;
            &&& p < NPROC
            &&& states@[p] == ProcState::RUNNABLE
            &&& v[i] <= avg && d[i] < u64::MAX ==> v[p] <= avg && (d[p] < d[i] || (d[p] == d[i]
                && p <= i))
            &&& v[p] > avg ==> v[p] < v[i] || (v[p] == v[i] && p <= i)
        }),
{
    lemma_preferred_first(
        eevdf::deadline_keys(s, states@, avg),
        vruntime_keys(s.vruntime@, states@),
        pick,
        i,
    );
}

/// `select` of the hybrid does the same with shaped deadlines, for tasks at most
/// one unit ahead of the mean.
pub proof fn lemma_hybrid_select(
    h: HybridDrl,
    s: HybridShared,
    states: [ProcState; NPROC],
    round: u64,
    avg: u64,
    choice: Option<HybridChoice>,
    i: int,
)
    requires
        call_ensures(HybridDrl::select, (&h, &s, &states, round, avg), choice),
        0 <= i < NPROC,
        states@[i] == ProcState::RUNNABLE,
        s.vruntime@[i] < u64::MAX,
    ensures
        choice is Some,
        choice->0.round == round,
        choice->0.avg_vruntime == avg,
        ({
            let p = choice->0.idx as int;
            let v = s.vruntime@;
            let d = h.effective_deadline(s, p, round, avg);
            let e = h.effective_deadline(s, i, round, avg);
            &&& p < NPROC
            &&& states@[p] == ProcState::RUNNABLE
            &&& v[i] <= avg + 1 && e < u64::MAX ==> v[p] <= avg + 1 && (d < e || (d == e && p
                <= i))
            &&& v[p] > avg + 1 ==> v[p] < v[i] || (v[p] == v[i] && p <= i)
        }),
{
    lemma_preferred_first(
        h.deadline_keys(s, states@, round, avg),
        vruntime_keys(s.vruntime@, states@),
        hybrid_drl::slot_of(choice),
        i,
    );
}

proof fn lemma_preferred_first(
    keys: Seq<Option<int>>,
    others: Seq<Option<int>>,
    pick: Option<usize>,
    i: int,
)
    requires
        picks_preferred(keys, others, pick),
        0 <= i < NPROC,
        others[i] is Some,
    ensures
        pick is Some,
        pick->0 < NPROC,
        keys[pick->0 as int] is Some || others[pick->0 as int] is Some,
        keys[i] is Some ==> keys[pick->0 as int] is Some && (keys[pick->0 as int]->0 < keys[i]->0
            || (keys[pick->0 as int]->0 == keys[i]->0 && pick->0 <= i)),
        keys[pick->0 as int] is None ==> others[pick->0 as int] is Some && (
        others[pick->0 as int]->0 < others[i]->0 || (others[pick->0 as int]->0 == others[i]->0
            && pick->0 <= i)),
{
    if exists|k: int| 0 <= k < NPROC && #[trigger] keys[k] is Some {
        let k = choose|k: int| 0 <= k < NPROC && #[trigger] keys[k] is Some;
        lemma_first_of_the_least(keys, 0, pick, k);
        if keys[i] is Some {
            lemma_first_of_the_least(keys, 0, pick, i);
        }
    } else {
        assert(keys[i] is None);
        lemma_first_of_the_least(others, 0, pick, i);
    }
}

/// Both passes of EEVDF and of the hybrid note the floor and leave everything
/// else in the tables alone.
pub proof fn lemma_scans_note_the_floor(
    e: Eevdf,
    h: HybridDrl,
    a: [ProcState; NPROC],
    b: [ProcState; NPROC],
    round: u64,
)
    ensures
        forall|s: &mut EevdfShared, r: (Survey, Option<usize>)|
            #[trigger] call_ensures(Eevdf::scan, (&e, s, &a, &b), r) ==> {
                &&& final(s).vruntime@ == s.vruntime@
                &&& final(s).deadline@ == s.deadline@
                &&& final(s).min_vruntime >= s.min_vruntime
                &&& r.0.active_min < u64::MAX ==> final(s).min_vruntime >= r.0.active_min
                &&& final(s).min_vruntime == s.min_vruntime || final(s).min_vruntime
                    == r.0.active_min
            },
        forall|s: &mut HybridShared, r: (Survey, Option<HybridChoice>)|
            #[trigger] call_ensures(HybridDrl::scan, (&h, s, &a, &b, round), r) ==> {
                &&& final(s).vruntime@ == s.vruntime@
                &&& final(s).deadline@ == s.deadline@
                &&& final(s).wake_credit@ == s.wake_credit@
                &&& final(s).run_burst@ == s.run_burst@
                &&& final(s).round == s.round
                &&& final(s).min_vruntime >= s.min_vruntime
                &&& r.0.active_min < u64::MAX ==> final(s).min_vruntime >= r.0.active_min
                &&& final(s).min_vruntime == s.min_vruntime || final(s).min_vruntime
                    == r.0.active_min
            },
{
}

/// A first pass finds a mean between the least and the largest active vruntime,
/// and the least.
pub proof fn lemma_survey_finds_mean_and_least(
    v: [u64; NPROC],
    states: [ProcState; NPROC],
    r: Survey,
    lo: int,
    hi: int,
    i: int,
)
    requires
        call_ensures(survey, (&v, &states), r),
        0 <= lo <= hi <= 0x3ff_ffff_ffff_ffff,
        forall|k: int|
            0 <= k < NPROC && (#[trigger] states@[k] == ProcState::RUNNABLE || states@[k]
                == ProcState::RUNNING) ==> lo <= v@[k] <= hi,
        0 <= i < NPROC,
        states@[i] == ProcState::RUNNABLE || states@[i] == ProcState::RUNNING,
    ensures
        lo <= r.avg_vruntime <= hi,
        lo <= r.active_min <= v@[i],
{
    lemma_mean_is_between(v@, states@, lo, hi);
    lemma_floor_follows_active(v@, states@, r.active_min, 0, i);
}

/// A deadline is moved by the adjustment, and stops at the limits of its type.
pub proof fn lemma_adjustment_moves_deadline(deadline: u64, adj: i64, r: u64)
    requires
        call_ensures(hybrid_drl::apply_deadline_adjustment, (deadline, adj), r),
    ensures
        0 <= deadline + adj <= u64::MAX ==> r == deadline + adj,
        deadline + adj < 0 ==> r == 0,
        deadline + adj > u64::MAX ==> r == u64::MAX,
{
}

/// `enter`, `charge` and `observe_state` write the entries of one slot alone.
pub proof fn lemma_one_slot_is_written(i: usize, k: int, state: ProcState)
    requires
        i < NPROC,
        0 <= k < NPROC,
        k != i,
    ensures
        forall|s: &mut MlfqShared|
            #[trigger] call_ensures(MlfqShared::enter, (s, i), ()) ==> {
                &&& final(s).queue_level@[i as int] == 0
                &&& final(s).ticks_at_level@[i as int] == 0
                &&& final(s).queue_level@[k] == s.queue_level@[k]
                &&& final(s).ticks_at_level@[k] == s.ticks_at_level@[k]
                &&& final(s).dispatch_count == s.dispatch_count
            },
        forall|s: &mut MlfqShared|
            #[trigger] call_ensures(MlfqShared::charge, (s, i), ()) ==> {
                &&& final(s).queue_level@[k] == s.queue_level@[k]
                &&& final(s).ticks_at_level@[k] == s.ticks_at_level@[k]
                &&& final(s).dispatch_count == s.dispatch_count
            },
        forall|s: &mut O1Shared|
            #[trigger] call_ensures(O1Shared::enter, (s, i), ()) ==> {
                &&& !final(s).is_expired@[i as int]
                &&& final(s).dyn_priority@[i as int] == 20
                &&& final(s).sleep_avg@[i as int] == 0
                &&& final(s).timeslice@[i as int] == 0
                &&& final(s).is_expired@[k] == s.is_expired@[k]
                &&& final(s).dyn_priority@[k] == s.dyn_priority@[k]
                &&& final(s).sleep_avg@[k] == s.sleep_avg@[k]
                &&& final(s).timeslice@[k] == s.timeslice@[k]
                &&& final(s).epoch == s.epoch
            },
        forall|s: &mut HybridShared|
            #[trigger] call_ensures(HybridShared::observe_state, (s, i, state), ()) ==> {
                &&& state != ProcState::RUNNABLE ==> final(s).wake_credit@ == s.wake_credit@
                &&& final(s).wake_credit@[k] == s.wake_credit@[k]
                &&& final(s).run_burst@[k] == s.run_burst@[k]
                &&& final(s).last_state@[k] == s.last_state@[k]
                &&& final(s).vruntime@ == s.vruntime@
                &&& final(s).deadline@ == s.deadline@
            },
{
}

/// The weights that the learners start from. The DRL scheduler values waiting
/// most in its first neuron, the missing share in its second and I/O in its
/// third; the hybrid values waiting and wake credit most in its first, the
/// missing share in its second, and holds a long burst against a task in its
/// third. All biases and all other neurons are at rest.
pub proof fn lemma_warm_start_weights(seed: u64, d: Drl, h: HybridDrl, j: int, k: int)
    requires
        call_ensures(Drl::new, (seed,), d),
        call_ensures(HybridDrl::new, (seed,), h),
        0 <= j < 8,
        0 <= k < 6,
    ensures
        d.net.w1@[0]@[0] == 768 && d.net.w1@[0]@[1] == 256 && d.net.w1@[0]@[2] == 256,
        d.net.w1@[1]@[0] == 256 && d.net.w1@[1]@[1] == 768 && d.net.w1@[1]@[2] == 0,
        d.net.w1@[2]@[0] == 128 && d.net.w1@[2]@[1] == 0 && d.net.w1@[2]@[2] == 512,
        k < 4 && (j >= 3 || k == 3) ==> d.net.w1@[j]@[k] == 0,
        d.net.w2@[0] == 512 && d.net.w2@[1] == 384 && d.net.w2@[2] == 256,
        h.net.w1@[0]@[0] == 640 && h.net.w1@[0]@[1] == 320 && h.net.w1@[0]@[2] == 640,
        h.net.w1@[0]@[3] == 256 && h.net.w1@[0]@[4] == 384 && h.net.w1@[0]@[5] == -256,
        h.net.w1@[1]@[0] == 256 && h.net.w1@[1]@[1] == 768 && h.net.w1@[1]@[2] == 128,
        h.net.w1@[1]@[3] == 512 && h.net.w1@[1]@[4] == 128 && h.net.w1@[1]@[5] == -128,
        h.net.w1@[2]@[5] == 768,
        k < 5 ==> h.net.w1@[2]@[k] == 0,
        j >= 3 ==> h.net.w1@[j]@[k] == 0,
        h.net.w2@[0] == 512 && h.net.w2@[1] == 384 && h.net.w2@[2] == -384,
        j >= 3 ==> d.net.w2@[j] == 0 && h.net.w2@[j] == 0,
        d.net.b1@[j] == 0 && h.net.b1@[j] == 0,
        d.net.b2 == 0 && h.net.b2 == 0,
        d.prev_reward == 0 && h.prev_reward == 0,
        d.rng@ == h.rng@,
        seed != 0 ==> d.rng@ == seed,
        seed == 0 ==> d.rng@ == 1,
        d.scan_offset == 0,
        d.epoch_dispatches == 0 && d.epoch_max_wait == 0 && d.epoch_dispatch_mask == 0,
        h.epoch_dispatches == 0 && h.epoch_max_wait == 0 && h.epoch_max_lag == 0
            && h.epoch_dispatch_mask == 0,
{
    assert(j >= 3 && k < 4 ==> d.net.w1@[j]@[k] == 0);
    assert(j >= 3 ==> h.net.w1@[j]@[k] == 0);
}

/// `calc_priority` and `calc_timeslice` of O(1): sleep earns up to five steps of
/// priority, and a better priority never has a shorter slice.
pub proof fn lemma_o1_sleep_pays(
    avg: u64,
    more: u64,
    p: u8,
    q: u8,
    t: u64,
    u: u64,
)
    requires
        avg <= more,
        call_ensures(o1::calc_priority, (avg,), p),
        call_ensures(o1::calc_priority, (more,), q),
        call_ensures(o1::calc_timeslice, (p,), t),
        call_ensures(o1::calc_timeslice, (q,), u),
    ensures
        avg <= 5 ==> p + avg == 20,
        avg >= 5 ==> p == 15,
        q <= p,
        t <= u,
        (t - 1) * 39 <= 5 * (39 - p) < t * 39,
{
    lemma_o1_slice_earned(p);
    lemma_o1_slice_earned(q);
}

/// `clamp_vruntime`: a task no further behind the floor than the credit stays
/// where it is, and one further behind is brought up to that.
pub proof fn lemma_clamp_brings_up(v: u64, floor: u64, credit: u64, r: u64)
    requires
        call_ensures(clamp_vruntime, (v, floor, credit), r),
    ensures
        v + credit >= floor ==> r == v,
        v + credit < floor ==> r + credit == floor,
{
}

/// The floors never move backward, and move to what a scan found if that is
/// ahead and anything was active.
pub proof fn lemma_floors_move_forward(candidate: u64, scan: CfsScan, found: Survey)
    ensures
        forall|s: &mut CfsShared|
            #[trigger] call_ensures(CfsShared::advance_min_vruntime, (s, candidate), ()) ==> {
                &&& candidate > s.min_vruntime ==> final(s).min_vruntime == candidate
                &&& candidate <= s.min_vruntime ==> final(s).min_vruntime == s.min_vruntime
                &&& final(s).vruntime == s.vruntime
            },
        forall|s: &mut CfsShared|
            #[trigger] call_ensures(CfsShared::note_scan, (s, &scan), ()) ==> {
                &&& scan.active_min == u64::MAX ==> final(s).min_vruntime == s.min_vruntime
                &&& s.min_vruntime < scan.active_min < u64::MAX ==> final(s).min_vruntime
                    == scan.active_min
                &&& scan.active_min <= s.min_vruntime ==> final(s).min_vruntime == s.min_vruntime
            },
        forall|s: &mut EevdfShared|
            #[trigger] call_ensures(EevdfShared::note_survey, (s, &found), ()) ==> {
                &&& found.active_min == u64::MAX ==> *final(s) == *s
                &&& s.min_vruntime < found.active_min < u64::MAX ==> final(s).min_vruntime
                    == found.active_min
                &&& found.active_min <= s.min_vruntime ==> *final(s) == *s
            },
        forall|s: &mut HybridShared|
            #[trigger] call_ensures(HybridShared::note_survey, (s, &found), ()) ==> {
                &&& found.active_min == u64::MAX ==> *final(s) == *s
                &&& s.min_vruntime < found.active_min < u64::MAX ==> final(s).min_vruntime
                    == found.active_min
                &&& found.active_min <= s.min_vruntime ==> *final(s) == *s
            },
{
}

/// `forward` carries an input along a path: where only neuron `j` reaches the
/// output and only input `k` reaches that neuron, the output is what the two
/// weights make of the input, in fixed point and rounded toward zero, and
/// nothing if the neuron would be negative.
pub proof fn lemma_forward_carries_input<const F: usize>(
    net: Network<F>,
    x: [i64; F],
    j: int,
    k: int,
    r: i64,
)
    requires
        call_ensures(Network::<F>::forward, (&net, &x), r),
        0 <= j < 8,
        0 <= k < F,
        forall|i: int| 0 <= i < 8 && i != j ==> #[trigger] net.w2@[i] == 0,
        forall|i: int| 0 <= i < F && i != k ==> #[trigger] net.w1@[j]@[i] == 0,
        net.b1@[j] == 0,
        net.b2 == 0,
        -0x8000_0000 <= net.w1@[j]@[k] <= 0x7fff_ffff,
        -0x10_0000 <= x@[k] <= 0x10_0000,
        -0x10_0000 <= net.w2@[j] <= 0x10_0000,
    ensures
        net.w1@[j]@[k] * x@[k] < 1024 ==> r == 0,
        net.w1@[j]@[k] * x@[k] >= 1024 ==> exists|h: int|
            {
                &&& #[trigger] (h * 1024) <= net.w1@[j]@[k] * x@[k] < h * 1024 + 1024
                &&& net.w2@[j] >= 0 ==> r * 1024 <= net.w2@[j] * h < r * 1024 + 1024
                &&& net.w2@[j] <= 0 ==> r * 1024 - 1024 < net.w2@[j] * h <= r * 1024
            },
{
    lemma_path_carries_input(net, x@, j, k);
    let h = net.hidden(x@)[j] as int;
    assert(net.w2@[j] * 0 == 0);
    assert(h * 1024 == net.hidden(x@)[j] * 1024);
}

/// Both learners score with their network, and the hybrid turns a higher score
/// into an earlier deadline.
pub proof fn lemma_learners_score_with_network(
    d: Drl,
    h: HybridDrl,
    x: [i64; 4],
    y: [i64; 6],
    a: i64,
    b: i64,
    c: i64,
    e: i64,
    adj: i64,
)
    requires
        call_ensures(Drl::forward, (&d, &x), a),
        call_ensures(Network::<4>::forward, (&d.net, &x), b),
        call_ensures(HybridDrl::forward, (&h, &y), c),
        call_ensures(Network::<6>::forward, (&h.net, &y), e),
        call_ensures(HybridDrl::deadline_adjustment, (&h, &y), adj),
    ensures
        a == b,
        c == e,
        -1024 < c < 1024 ==> adj == 0,
        1024 <= c < 2048 ==> adj == -1,
        2048 <= c < 3072 ==> adj == -2,
        c >= 3072 ==> adj == -3,
        -2048 < c <= -1024 ==> adj == 1,
        -3072 < c <= -2048 ==> adj == 2,
        c <= -3072 ==> adj == 3,
{
    lemma_score_brings_deadline_forward(h, y@, y@);
}

/// A generator starts at its seed, or at 1 for the seed 0; each raw draw is its
/// next state, and a draw from a range moves it on by one raw draw and has the
/// remainder of that draw.
pub proof fn lemma_generator_draws(seed: u64, g: XorShift64, min: i64, max: i64)
    requires
        call_ensures(XorShift64::new, (seed,), g),
        min <= max,
        max - min < i64::MAX,
    ensures
        seed != 0 ==> g@ == seed,
        seed == 0 ==> g@ == 1,
        forall|r: &mut XorShift64, raw: u64|
            #[trigger] call_ensures(XorShift64::next_u64, (r,), raw) ==> raw == xorshift(r@)
                && final(r)@ == raw && raw != 0,
        forall|r: &mut XorShift64, drawn: i64|
            #[trigger] call_ensures(XorShift64::next_i64_inclusive, (r, min, max), drawn) ==> {
                &&& final(r)@ == xorshift(r@)
                &&& min <= drawn <= max
                &&& (drawn - min - xorshift(r@)) % (max - min + 1) == 0
            },
{
    assert forall|r: &mut XorShift64, drawn: i64|
        #[trigger] call_ensures(XorShift64::next_i64_inclusive, (r, min, max), drawn) implies {
        &&& final(r)@ == xorshift(r@)
        &&& min <= drawn <= max
        &&& (drawn - min - xorshift(r@)) % (max - min + 1) == 0
    } by {
        lemma_draws_cover_range(xorshift(r@), min as int, max as int);
    }
}

/// Perturbing and taking back touch the network alone, and the generator where
/// draws are taken. Taking back clears the record.
pub proof fn lemma_only_weights_move(j: int)
    requires
        0 <= j < 8,
    ensures
        forall|d: &mut Drl|
            #[trigger] call_ensures(Drl::apply_perturbation, (d,), ()) ==> {
                &&& final(d).net.b2 == sat_i64(d.net.b2 + final(d).net.pb2)
                &&& final(d).prev_reward == d.prev_reward
                &&& final(d).epoch_dispatches == d.epoch_dispatches
                &&& final(d).epoch_max_wait == d.epoch_max_wait
                &&& final(d).epoch_dispatch_mask == d.epoch_dispatch_mask
                &&& final(d).scan_offset == d.scan_offset
            },
        forall|d: &mut Drl|
            #[trigger] call_ensures(Drl::revert_perturbation, (d,), ()) ==> {
                &&& final(d).net.b2 == sat_i64(d.net.b2 - d.net.pb2)
                &&& final(d).net.pb2 == 0
                &&& final(d).rng == d.rng
                &&& final(d).prev_reward == d.prev_reward
                &&& final(d).epoch_dispatches == d.epoch_dispatches
            },
        forall|h: &mut HybridDrl|
            #[trigger] call_ensures(HybridDrl::apply_perturbation, (h,), ()) ==> {
                &&& final(h).net.b2 == sat_i64(h.net.b2 + final(h).net.pb2)
                &&& final(h).prev_reward == h.prev_reward
                &&& final(h).epoch_dispatches == h.epoch_dispatches
                &&& final(h).epoch_max_wait == h.epoch_max_wait
                &&& final(h).epoch_max_lag == h.epoch_max_lag
                &&& final(h).epoch_dispatch_mask == h.epoch_dispatch_mask
            },
        forall|h: &mut HybridDrl|
            #[trigger] call_ensures(HybridDrl::revert_perturbation, (h,), ()) ==> {
                &&& final(h).net.b2 == sat_i64(h.net.b2 - h.net.pb2)
                &&& final(h).net.pb2 == 0
                &&& final(h).rng == h.rng
                &&& final(h).prev_reward == h.prev_reward
                &&& final(h).epoch_dispatches == h.epoch_dispatches
            },
{
}

/// A new network has the weights that it was given and is at rest otherwise.
pub proof fn lemma_new_network_is_at_rest<const F: usize>(
    w1: [[i64; F]; 8],
    w2: [i64; 8],
    net: Network<F>,
    j: int,
)
    requires
        call_ensures(Network::<F>::new, (w1, w2), net),
        0 <= j < 8,
    ensures
        net.w1 == w1,
        net.w2 == w2,
        net.b1@[j] == 0,
        net.b2 == 0,
        net.pb1@[j] == 0,
        net.pw2@[j] == 0,
        net.pb2 == 0,
{
    assert(net.b1@[j] == 0);
}

/// A swap of the sets moves the epoch only through `try_swap`, is possible while
/// no counter is at its limit, and leaves nobody expired.
pub proof fn lemma_o1_swap_operations(s: O1Shared, b: bool, m: O1, i: usize, k: int)
    requires
        call_ensures(O1Shared::can_swap, (&s,), b),
        call_ensures(<O1 as Default>::default, (), m),
        0 <= k < NPROC,
    ensures
        s.epoch == u64::MAX ==> !b,
        s.epoch < u64::MAX && (forall|n: int| 0 <= n < NPROC ==> #[trigger] s.sleep_avg@[n]
            < u64::MAX) ==> b,
        m.scan_offset == 0,
        forall|t: &mut O1Shared|
            #[trigger] call_ensures(O1Shared::epoch_swap, (t,), ()) ==> final(t).epoch == t.epoch
                && !final(t).is_expired@[k],
        forall|n: &mut O1, t: &mut O1Shared|
            #[trigger] call_ensures(<O1 as Scheduler>::finish, (n, t, &i), ()) ==> *final(n) == *n,
        forall|n: &mut Mlfq, t: &mut MlfqShared|
            #[trigger] call_ensures(<Mlfq as Scheduler>::finish, (n, t, &i), ()) ==> *final(n)
                == *n && final(t).dispatch_count == t.dispatch_count + 1,
{
    assert forall|t: &mut O1Shared| #[trigger] call_ensures(
        O1Shared::epoch_swap,
        (t,),
        (),
    ) implies final(t).epoch == t.epoch && !final(t).is_expired@[k] by {
        assert(slot_swapped(*t, *final(t), k));
    }
}

/// The CPUs of MLFQ start at slots of their own, and each survey is the common
/// one.
pub proof fn lemma_cpus_start_apart(
    cpu: usize,
    m: Mlfq,
    e: Eevdf,
    es: EevdfShared,
    h: HybridDrl,
    hs: HybridShared,
    states: [ProcState; NPROC],
    a: Survey,
    b: Survey,
    c: Survey,
    d: Survey,
)
    requires
        call_ensures(Mlfq::new, (cpu,), m),
        call_ensures(Eevdf::survey, (&e, &es, &states), a),
        call_ensures(survey, (&es.vruntime, &states), b),
        call_ensures(HybridDrl::survey, (&h, &hs, &states), c),
        call_ensures(survey, (&hs.vruntime, &states), d),
    ensures
        m.scan_offset == cpu,
        a.avg_vruntime == b.avg_vruntime,
        c.avg_vruntime == d.avg_vruntime,
{
}

} // verus!
