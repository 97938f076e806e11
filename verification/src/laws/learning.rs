//! Laws of the two learners.

use crate::arith::{bit, ones_below, sat_i64};
use crate::laws::arith::{
    lemma_each_bit_counts_once, lemma_no_bit_counts_nothing, lemma_truncation_keeps_order,
};
use crate::laws::network::{lemma_draws_cover_range, lemma_score_follows_input, raised};
use crate::prng::{in_range, state_after};
use crate::process::{ProcState, NPROC};
use crate::scheduler::drl::{self, Drl, DrlShared};
use crate::scheduler::hybrid_drl::{self, HybridChoice, HybridDrl, HybridShared};
use crate::scheduler::network::{
    draw, draws_before, draws_per_perturbation, row_perturbed, row_reverted, HIDDEN_SIZE,
};
use vstd::prelude::*;

verus! {

/// What each input of the hybrid learner measures, in units of 1/1024: the
/// rounds waited out of 100, the share of all rounds that the task misses, its
/// wake credit out of 6, its lag behind the mean out of 16, how close its
/// deadline is out of 16, and its burst out of 16. Each reaches its limit and no
/// more.
pub proof fn lemma_hybrid_inputs_measure(
    s: HybridShared,
    i: int,
    round: u64,
    avg: u64,
    vruntime: u64,
    deadline: u64,
)
    requires
        0 <= i < NPROC,
    ensures
        ({
            let f = hybrid_drl::feature_vector(s, i, round, avg, vruntime, deadline);
            let rounds = if round == 0 {
                1
            } else {
                round as int
            };
            let count = s.run_count@[i] as int;
            &&& f.len() == 6
            &&& round <= s.last_run@[i] ==> f[0] == 0
            &&& round >= s.last_run@[i] + 100 ==> f[0] == 1024
            &&& s.last_run@[i] <= round < s.last_run@[i] + 100 ==> f[0] * 100 <= (round
                - s.last_run@[i]) * 1024 < f[0] * 100 + 100
            &&& count == 0 ==> f[1] == 1024
            &&& count * 1024 > u64::MAX && rounds <= 0x20_0000_0000_0000 ==> f[1] == 0
            &&& count * 1024 <= u64::MAX && count >= rounds ==> f[1] == 0
            &&& count * 1024 <= u64::MAX && count <= rounds ==> (1024 - f[1]) * rounds <= count
                * 1024 < (1025 - f[1]) * rounds
            &&& s.wake_credit@[i] >= 6 ==> f[2] == 1024
            &&& s.wake_credit@[i] <= 6 ==> f[2] * 6 <= s.wake_credit@[i] * 1024 < f[2] * 6 + 6
            &&& avg <= vruntime ==> f[3] == 0
            &&& avg >= vruntime + 16 ==> f[3] == 1024
            &&& vruntime <= avg <= vruntime + 16 ==> f[3] == (avg - vruntime) * 64
            &&& deadline <= vruntime ==> f[4] == 1024
            &&& deadline >= vruntime + 16 ==> f[4] == 0
            &&& vruntime <= deadline <= vruntime + 16 ==> f[4] == 1024 - (deadline - vruntime) * 64
            &&& s.run_burst@[i] >= 16 ==> f[5] == 1024
            &&& s.run_burst@[i] <= 16 ==> f[5] == s.run_burst@[i] * 64
        }),
{
    let rounds = if round == 0 {
        1
    } else {
        round as int
    };
    let count = s.run_count@[i] as int;
    if count * 1024 <= u64::MAX {
        lemma_share(count, rounds);
    } else if rounds <= 0x20_0000_0000_0000 {
        assert(u64::MAX as int / rounds >= 1024) by (nonlinear_arith)
            requires
                0 < rounds <= 0x20_0000_0000_0000,
        ;
    }
    if count == 0 {
        assert(0int / rounds == 0) by (nonlinear_arith)
            requires
                rounds > 0,
        ;
    }
}

proof fn lemma_share(count: int, rounds: int)
    requires
        count >= 0,
        rounds > 0,
    ensures
        count >= rounds ==> count * 1024 / rounds >= 1024,
        count <= rounds ==> 0 <= count * 1024 / rounds <= 1024,
        count * 1024 / rounds * rounds <= count * 1024 < (count * 1024 / rounds + 1) * rounds,
{
    let q = count * 1024 / rounds;
    assert(q * rounds <= count * 1024 < (q + 1) * rounds) by (nonlinear_arith)
        requires
            rounds > 0,
            q == count * 1024 / rounds,
    ;
    assert(count >= rounds ==> q >= 1024) by (nonlinear_arith)
        requires
            rounds > 0,
            count * 1024 < (q + 1) * rounds,
    ;
    assert(count <= rounds ==> q <= 1024) by (nonlinear_arith)
        requires
            rounds > 0,
            q * rounds <= count * 1024,
    ;
    assert(q >= 0) by (nonlinear_arith)
        requires
            rounds > 0,
            count >= 0,
            q == count * 1024 / rounds,
    ;
}

/// Wake credit reaches the learner. Of two slots that differ only in their wake
/// credit, the third input is strictly larger for the one with more credit: 0
/// for none and the fixed-point 1 for as much as a task can hold. No other
/// input differs.
pub proof fn lemma_wake_credit_reaches_learner(
    s: HybridShared,
    i: int,
    t: HybridShared,
    k: int,
    round: u64,
    avg: u64,
    vruntime: u64,
    deadline: u64,
)
    requires
        0 <= i < NPROC,
        0 <= k < NPROC,
        s.last_run@[i] == t.last_run@[k],
        s.run_count@[i] == t.run_count@[k],
        s.run_burst@[i] == t.run_burst@[k],
        s.wake_credit@[i] < t.wake_credit@[k] <= 6,
    ensures
        ({
            let f = hybrid_drl::feature_vector(s, i, round, avg, vruntime, deadline);
            let g = hybrid_drl::feature_vector(t, k, round, avg, vruntime, deadline);
            &&& f.len() == 6
            &&& g.len() == 6
            &&& f[2] < g[2]
            &&& s.wake_credit@[i] == 0 ==> f[2] == 0
            &&& t.wake_credit@[k] == 6 ==> g[2] == 1024
            &&& forall|n: int| 0 <= n < 6 && n != 2 ==> #[trigger] f[n] == g[n]
        }),
{
}

/// The warm start knows good inputs from bad ones: more waiting, a larger
/// deficit, more wake credit, more lag or a closer deadline never lowers a
/// score, and a longer burst never raises it.
pub proof fn lemma_warm_start_directions(h: HybridDrl, x: Seq<i64>, y: Seq<i64>, k: int)
    requires
        hybrid_drl::warm_start(h),
        x.len() == 6,
        raised(x, y, k),
    ensures
        k < 5 ==> h.net.score(x) <= h.net.score(y),
        k == 5 ==> h.net.score(x) >= h.net.score(y),
{
    lemma_score_follows_input(h.net, x, y, k);
    assert forall|j: int| 0 <= j < HIDDEN_SIZE && k < 5 implies (h.net.w1@[j]@[k] >= 0
        && h.net.w2@[j] >= 0) || (h.net.w1@[j]@[k] <= 0 && #[trigger] h.net.w2@[j] <= 0) by {
        if j >= 3 {
            assert(h.net.w1@[j]@[k] == 0);
        }
    }
    assert forall|j: int| 0 <= j < HIDDEN_SIZE && k == 5 implies (h.net.w1@[j]@[k] >= 0
        && h.net.w2@[j] <= 0) || (h.net.w1@[j]@[k] <= 0 && #[trigger] h.net.w2@[j] >= 0) by {
        if j >= 3 {
            assert(h.net.w1@[j]@[k] == 0);
        }
    }
}

/// A higher score brings a deadline forward, by one unit for each whole 1024
/// and by three units at most; a negative score puts it off in the same way.
pub proof fn lemma_score_brings_deadline_forward(h: HybridDrl, x: Seq<i64>, y: Seq<i64>)
    ensures
        h.net.score(x) <= h.net.score(y) ==> h.adjustment(y) <= h.adjustment(x),
        -1024 < h.net.score(x) < 1024 ==> h.adjustment(x) == 0,
        h.net.score(x) >= 3072 ==> h.adjustment(x) == -3,
        h.net.score(x) <= -3072 ==> h.adjustment(x) == 3,
        1024 <= h.net.score(x) < 2048 ==> h.adjustment(x) == -1,
        2048 <= h.net.score(x) < 3072 ==> h.adjustment(x) == -2,
        -2048 < h.net.score(x) <= -1024 ==> h.adjustment(x) == 1,
        -3072 < h.net.score(x) <= -2048 ==> h.adjustment(x) == 2,
{
    if h.net.score(x) <= h.net.score(y) {
        lemma_truncation_keeps_order(h.net.score(x), h.net.score(y));
    }
}

/// A task that has just woken is not put behind one that has not. At the
/// warm-start weights, of two slots that differ only in their wake credit, the
/// shaped deadline of the one with more credit is no later.
pub proof fn lemma_wake_credit_brings_deadline_forward(
    h: HybridDrl,
    s: HybridShared,
    i: int,
    t: HybridShared,
    k: int,
    round: u64,
    avg: u64,
)
    requires
        hybrid_drl::warm_start(h),
        0 <= i < NPROC,
        0 <= k < NPROC,
        s.vruntime@[i] == t.vruntime@[k],
        s.deadline@[i] == t.deadline@[k],
        s.last_run@[i] == t.last_run@[k],
        s.run_count@[i] == t.run_count@[k],
        s.run_burst@[i] == t.run_burst@[k],
        s.wake_credit@[i] < t.wake_credit@[k] <= 6,
    ensures
        h.effective_deadline(t, k, round, avg) <= h.effective_deadline(s, i, round, avg),
{
    let v = s.vruntime@[i];
    let d = s.deadline@[i];
    let f = hybrid_drl::feature_vector(s, i, round, avg, v, d);
    let g = hybrid_drl::feature_vector(t, k, round, avg, v, d);
    lemma_wake_credit_reaches_learner(s, i, t, k, round, avg, v, d);
    lemma_warm_start_directions(h, f, g, 2);
    lemma_score_brings_deadline_forward(h, f, g);
}

/// The shaped deadline is the deadline moved by what the score calls for, and
/// stops at 0.
pub proof fn lemma_shaped_deadline_moves_with_score(
    h: HybridDrl,
    s: HybridShared,
    i: int,
    round: u64,
    avg: u64,
)
    requires
        0 <= i < NPROC,
        3 <= s.deadline@[i] <= u64::MAX - 3,
    ensures
        ({
            let score = h.net.score(
                hybrid_drl::feature_vector(
                    s,
                    i,
                    round,
                    avg,
                    s.vruntime@[i],
                    s.deadline@[i],
                ),
            );
            let e = h.effective_deadline(s, i, round, avg);
            &&& score >= 1024 ==> e < s.deadline@[i]
            &&& score <= -1024 ==> e > s.deadline@[i]
            &&& -1024 < score < 1024 ==> e == s.deadline@[i]
            &&& s.deadline@[i] - 3 <= e <= s.deadline@[i] + 3
        }),
{
    let f = hybrid_drl::feature_vector(s, i, round, avg, s.vruntime@[i], s.deadline@[i]);
    lemma_score_brings_deadline_forward(h, f, f);
}

/// The reward of the hybrid for an epoch that is not astronomically long. One
/// dispatch more is worth 8, one slot more 16; a longest wait of one round more
/// costs 16, and a largest lag of one unit more 4. An epoch in which nothing
/// happened is worth nothing.
pub proof fn lemma_hybrid_reward_weighs(d: u64, c: int, w: u64, l: u64)
    requires
        d < 0x100_0000_0000_0000,
        0 <= c < 64,
        w < 0x100_0000_0000_0000,
        l < 0x100_0000_0000_0000,
    ensures
        hybrid_drl::reward_of((d + 1) as u64, c, w, l) == hybrid_drl::reward_of(d, c, w, l) + 8,
        hybrid_drl::reward_of(d, c + 1, w, l) == hybrid_drl::reward_of(d, c, w, l) + 16,
        hybrid_drl::reward_of(d, c, (w + 1) as u64, l) == hybrid_drl::reward_of(d, c, w, l) - 16,
        hybrid_drl::reward_of(d, c, w, (l + 1) as u64) == hybrid_drl::reward_of(d, c, w, l) - 4,
        hybrid_drl::reward_of(0, 0, 0, 0) == 0,
{
}

/// The reward speaks of the epoch that ended. Of two epochs that differ only in
/// one slot that the second dispatched and the first did not, the second is
/// worth 16 more; of two that differ only in the longest wait, the one with the
/// shorter wait is worth more.
pub proof fn lemma_hybrid_reward_is_of_epoch(a: HybridDrl, b: HybridDrl, i: int)
    requires
        a.epoch_dispatches == b.epoch_dispatches < 0x100_0000_0000_0000,
        a.epoch_max_lag == b.epoch_max_lag < 0x100_0000_0000_0000,
        a.epoch_max_wait < 0x100_0000_0000_0000,
        b.epoch_max_wait < 0x100_0000_0000_0000,
        0 <= i < 64,
    ensures
        a.epoch_max_wait == b.epoch_max_wait && !bit(a.epoch_dispatch_mask, i) && bit(
            b.epoch_dispatch_mask,
            i,
        ) && (forall|k: int|
            0 <= k < 64 && k != i ==> #[trigger] bit(a.epoch_dispatch_mask, k) == bit(
                b.epoch_dispatch_mask,
                k,
            )) ==> b.reward() == a.reward() + 16,
        a.epoch_dispatch_mask == b.epoch_dispatch_mask && a.epoch_max_wait < b.epoch_max_wait
            ==> a.reward() > b.reward(),
{
    lemma_no_bit_counts_nothing(a.epoch_dispatch_mask, 64);
    lemma_no_bit_counts_nothing(b.epoch_dispatch_mask, 64);
    if !bit(a.epoch_dispatch_mask, i) && bit(b.epoch_dispatch_mask, i) && (forall|k: int|
        0 <= k < 64 && k != i ==> #[trigger] bit(a.epoch_dispatch_mask, k) == bit(
            b.epoch_dispatch_mask,
            k,
        )) {
        lemma_each_bit_counts_once(a.epoch_dispatch_mask, b.epoch_dispatch_mask, i, 64);
    }
}

/// A better epoch keeps its weights. If the reward of the epoch that ended is
/// greater than the previous one, or there is no previous one, the next
/// perturbation is added to the weights exactly as they are. If it is not
/// greater, the perturbation that the weights carry is taken off first. Every
/// weight and every bias is treated so.
pub proof fn lemma_hybrid_better_epoch_keeps_weights(
    pre: HybridDrl,
    post: HybridDrl,
    j: int,
    k: int,
)
    requires
        hybrid_drl::learned(pre, post),
        0 <= j < 8,
        0 <= k < 6,
    ensures
        pre.reward() > pre.prev_reward || pre.prev_reward == 0 ==> {
            &&& post.net.w1@[j]@[k] == sat_i64(pre.net.w1@[j]@[k] + post.net.pw1@[j]@[k])
            &&& post.net.b1@[j] == sat_i64(pre.net.b1@[j] + post.net.pb1@[j])
            &&& post.net.w2@[j] == sat_i64(pre.net.w2@[j] + post.net.pw2@[j])
            &&& post.net.b2 == sat_i64(pre.net.b2 + post.net.pb2)
        },
        pre.reward() <= pre.prev_reward && pre.prev_reward != 0 ==> {
            &&& post.net.w1@[j]@[k] == sat_i64(
                sat_i64(pre.net.w1@[j]@[k] - pre.net.pw1@[j]@[k]) + post.net.pw1@[j]@[k],
            )
            &&& post.net.b1@[j] == sat_i64(
                sat_i64(pre.net.b1@[j] - pre.net.pb1@[j]) + post.net.pb1@[j],
            )
            &&& post.net.w2@[j] == sat_i64(
                sat_i64(pre.net.w2@[j] - pre.net.pw2@[j]) + post.net.pw2@[j],
            )
            &&& post.net.b2 == sat_i64(sat_i64(pre.net.b2 - pre.net.pb2) + post.net.pb2)
        },
        post.prev_reward == pre.reward(),
        post.epoch_dispatches == 0,
        post.epoch_max_wait == 0,
        post.epoch_max_lag == 0,
        post.epoch_dispatch_mask == 0,
{
    let base = choose|base| hybrid_drl::learned_from(pre, base, post);
    assert(row_perturbed(base, post.net, j, pre.rng@, hybrid_drl::PERTURB_MAG));
    assert(post.net.w1@[j]@[k] == sat_i64(base.w1@[j]@[k] + post.net.pw1@[j]@[k]));
    if pre.reward() <= pre.prev_reward && pre.prev_reward != 0 {
        assert(row_reverted(pre.net, base, j));
        assert(base.w1@[j]@[k] == sat_i64(pre.net.w1@[j]@[k] - pre.net.pw1@[j]@[k]));
    }
}

/// A task that is seen to wake up, that is runnable where it was last seen
/// asleep, gains three credits up to six and begins a new burst. Nothing else
/// gives credit, nothing but the sighting is recorded otherwise, and no other
/// slot is touched.
pub proof fn lemma_only_waking_earns_credit(
    s: HybridShared,
    i: int,
    state: ProcState,
    s2: HybridShared,
    s3: HybridShared,
    k: int,
)
    requires
        0 <= i < NPROC,
        0 <= k < NPROC,
        k != i,
        hybrid_drl::observed(s, i, state, s2),
        hybrid_drl::observed(s2, i, ProcState::RUNNABLE, s3),
    ensures
        state != ProcState::RUNNABLE ==> s2.wake_credit@ == s.wake_credit@ && s2.run_burst@
            == s.run_burst@,
        state == ProcState::SLEEPING && s.wake_credit@[i] <= 3 ==> s3.wake_credit@[i]
            == s.wake_credit@[i] + 3,
        state == ProcState::SLEEPING && s.wake_credit@[i] >= 3 ==> s3.wake_credit@[i] == 6,
        state == ProcState::SLEEPING ==> s3.run_burst@[i] == 0,
        state != ProcState::SLEEPING ==> s3.wake_credit@[i] == s2.wake_credit@[i]
            && s3.run_burst@[i] == s2.run_burst@[i],
        s2.wake_credit@[k] == s.wake_credit@[k],
        s2.run_burst@[k] == s.run_burst@[k],
        s2.last_state@[k] == s.last_state@[k],
        s2.vruntime@ == s.vruntime@,
        s2.deadline@ == s.deadline@,
        s2.last_run@ == s.last_run@,
        s2.run_count@ == s.run_count@,
        s2.min_vruntime == s.min_vruntime,
        s2.round == s.round,
        s2.seed_ctr == s.seed_ctr,
{
}

/// What an epoch takes note of when a task is switched in: one dispatch more,
/// the longest of all waits, the largest of all lags, and the slot. The learner
/// itself stays.
pub proof fn lemma_hybrid_epoch_takes_note(
    h: HybridDrl,
    s: HybridShared,
    choice: HybridChoice,
    h2: HybridDrl,
    s2: HybridShared,
)
    requires
        choice.idx < NPROC,
        hybrid_drl::begun(h, s, choice, h2, s2),
    ensures
        h.epoch_dispatches < u64::MAX ==> h2.epoch_dispatches == h.epoch_dispatches + 1,
        h.epoch_dispatches == u64::MAX ==> h2.epoch_dispatches == u64::MAX,
        h2.epoch_max_wait >= h.epoch_max_wait,
        h2.epoch_max_wait + s.last_run@[choice.idx as int] >= choice.round,
        h2.epoch_max_wait > h.epoch_max_wait ==> h2.epoch_max_wait + s.last_run@[choice.idx as int]
            == choice.round,
        h2.epoch_max_lag >= h.epoch_max_lag,
        h2.epoch_max_lag + s2.vruntime@[choice.idx as int] >= choice.avg_vruntime,
        h2.epoch_max_lag > h.epoch_max_lag ==> h2.epoch_max_lag + s2.vruntime@[choice.idx as int]
            == choice.avg_vruntime,
        bit(h2.epoch_dispatch_mask, choice.idx as int),
        h2.net == h.net,
        h2.prev_reward == h.prev_reward,
        h2.rng == h.rng,
{
}

/// What each input of the DRL scheduler measures, in units of 1/1024: the
/// rounds waited out of 100, the share of all rounds that the task misses,
/// whether it has run before and waited more than five rounds since, and a
/// constant half.
pub proof fn lemma_drl_inputs_measure(s: DrlShared, i: int, round: u64, total: u64)
    requires
        0 <= i < NPROC,
    ensures
        ({
            let f = drl::feature_vector(s, i, round, total);
            let rounds = if total == 0 {
                1
            } else {
                total as int
            };
            let count = s.run_count@[i] as int;
            &&& f.len() == 4
            &&& round <= s.last_run@[i] ==> f[0] == 0
            &&& round >= s.last_run@[i] + 100 ==> f[0] == 1024
            &&& s.last_run@[i] <= round < s.last_run@[i] + 100 ==> f[0] * 100 <= (round
                - s.last_run@[i]) * 1024 < f[0] * 100 + 100
            &&& count == 0 ==> f[1] == 1024
            &&& count * 1024 > u64::MAX && rounds <= 0x20_0000_0000_0000 ==> f[1] == 0
            &&& count * 1024 <= u64::MAX && count >= rounds ==> f[1] == 0
            &&& count * 1024 <= u64::MAX && count <= rounds ==> (1024 - f[1]) * rounds <= count
                * 1024 < (1025 - f[1]) * rounds
            &&& f[2] == 1024 <==> round > s.last_run@[i] + 5 && count > 0
            &&& f[2] == 0 <==> round <= s.last_run@[i] + 5 || count == 0
            &&& f[3] == 512
        }),
{
    let rounds = if total == 0 {
        1
    } else {
        total as int
    };
    let count = s.run_count@[i] as int;
    if count * 1024 <= u64::MAX {
        lemma_share(count, rounds);
    } else if rounds <= 0x20_0000_0000_0000 {
        assert(u64::MAX as int / rounds >= 1024) by (nonlinear_arith)
            requires
                0 < rounds <= 0x20_0000_0000_0000,
        ;
    }
    if count == 0 {
        assert(0int / rounds == 0) by (nonlinear_arith)
            requires
                rounds > 0,
        ;
    }
}

/// At the warm-start weights of the DRL scheduler no input counts against a
/// task: one that waited longer, missed more of its share or does I/O is never
/// scored lower for it.
pub proof fn lemma_drl_warm_start_directions(d: Drl, x: Seq<i64>, y: Seq<i64>, k: int)
    requires
        drl::warm_start(d),
        x.len() == 4,
        raised(x, y, k),
    ensures
        d.net.score(x) <= d.net.score(y),
        k == 3 ==> d.net.score(x) == d.net.score(y),
{
    lemma_score_follows_input(d.net, x, y, k);
    assert forall|j: int| 0 <= j < HIDDEN_SIZE implies (d.net.w1@[j]@[k] >= 0 && d.net.w2@[j] >= 0)
        || (d.net.w1@[j]@[k] <= 0 && #[trigger] d.net.w2@[j] <= 0) by {
        if j >= 3 {
            assert(d.net.w1@[j]@[k] == 0);
        }
    }
    assert forall|j: int| 0 <= j < HIDDEN_SIZE && k == 3 implies (d.net.w1@[j]@[k] >= 0
        && d.net.w2@[j] <= 0) || (d.net.w1@[j]@[k] <= 0 && #[trigger] d.net.w2@[j] >= 0) by {
        if j >= 3 {
            assert(d.net.w1@[j]@[k] == 0);
        }
    }
}

/// The score of a slot is that of its inputs over all rounds so far.
pub proof fn lemma_drl_scores_own_inputs(d: Drl, s: DrlShared, i: int, round: u64)
    requires
        0 <= i < NPROC,
        round > 0,
    ensures
        d.slot_score(s, i, round) == d.net.score(drl::feature_vector(s, i, round, round)),
{
}

/// The reward of the DRL scheduler for an epoch that is not astronomically
/// long. Each slot that had a turn is worth 16; the rest is the number of
/// dispatches per round of the longest wait in units of 1/1024, rounded down,
/// where a longest wait of 0 counts as 1.
pub proof fn lemma_drl_reward_weighs(d: u64, w: u64, c: int)
    requires
        d <= 0xf_ffff_ffff_ffff,
        w <= 0x7fff_ffff_ffff_ffff,
        0 <= c <= 64,
    ensures
        ({
            let rest = drl::reward_of(d, w, c) - 16 * c;
            let wait = if w == 0 {
                1
            } else {
                w as int
            };
            rest * wait <= d * 1024 < (rest + 1) * wait
        }),
{
    let wait = if w == 0 {
        1
    } else {
        w as int
    };
    let q = d * 1024 / wait;
    assert(q * wait <= d * 1024 < (q + 1) * wait) by (nonlinear_arith)
        requires
            wait > 0,
            q == d * 1024 / wait,
    ;
    assert(0 <= q <= d * 1024) by (nonlinear_arith)
        requires
            wait > 0,
            d >= 0,
            q == d * 1024 / wait,
    ;
    assert(c * 1024 / 64 == 16 * c);
}

/// Of two epochs of the DRL scheduler that differ only in one slot that the
/// second dispatched and the first did not, the second is worth 16 more; of two
/// that differ only in the longest wait, the one that waited less is worth no
/// less.
pub proof fn lemma_drl_reward_is_of_epoch(a: Drl, b: Drl, i: int)
    requires
        a.epoch_dispatches == b.epoch_dispatches <= 0xf_ffff_ffff_ffff,
        a.epoch_max_wait <= b.epoch_max_wait <= 0x7fff_ffff_ffff_ffff,
        0 <= i < 64,
    ensures
        a.epoch_max_wait == b.epoch_max_wait && !bit(a.epoch_dispatch_mask, i) && bit(
            b.epoch_dispatch_mask,
            i,
        ) && (forall|k: int|
            0 <= k < 64 && k != i ==> #[trigger] bit(a.epoch_dispatch_mask, k) == bit(
                b.epoch_dispatch_mask,
                k,
            )) ==> b.reward() == a.reward() + 16,
        a.epoch_dispatch_mask == b.epoch_dispatch_mask ==> a.reward() >= b.reward(),
{
    lemma_no_bit_counts_nothing(a.epoch_dispatch_mask, 64);
    lemma_no_bit_counts_nothing(b.epoch_dispatch_mask, 64);
    let ca = ones_below(a.epoch_dispatch_mask, 64) as int;
    let cb = ones_below(b.epoch_dispatch_mask, 64) as int;
    lemma_drl_reward_weighs(a.epoch_dispatches, a.epoch_max_wait, ca);
    lemma_drl_reward_weighs(b.epoch_dispatches, b.epoch_max_wait, cb);
    let d = a.epoch_dispatches * 1024;
    let wa = if a.epoch_max_wait == 0 {
        1
    } else {
        a.epoch_max_wait as int
    };
    let wb = if b.epoch_max_wait == 0 {
        1
    } else {
        b.epoch_max_wait as int
    };
    let ra = a.reward() - 16 * ca;
    let rb = b.reward() - 16 * cb;
    assert(ra >= rb) by (nonlinear_arith)
        requires
            0 < wa <= wb,
            0 <= d,
            ra * wa <= d < (ra + 1) * wa,
            rb * wb <= d < (rb + 1) * wb,
    ;
    assert(wa == wb ==> rb >= ra) by (nonlinear_arith)
        requires
            0 < wa,
            ra * wa <= d < (ra + 1) * wa,
            rb * wb <= d < (rb + 1) * wb,
    ;
    if !bit(a.epoch_dispatch_mask, i) && bit(b.epoch_dispatch_mask, i) && (forall|k: int|
        0 <= k < 64 && k != i ==> #[trigger] bit(a.epoch_dispatch_mask, k) == bit(
            b.epoch_dispatch_mask,
            k,
        )) {
        lemma_each_bit_counts_once(a.epoch_dispatch_mask, b.epoch_dispatch_mask, i, 64);
    }
}

/// A better epoch keeps its weights. If the reward of the epoch that ended is
/// greater than the previous one, or the previous one is not positive, the next
/// perturbation is added to the weights exactly as they are. If it is not
/// greater, the perturbation that the weights carry is taken off first. Every
/// weight and every bias is treated so.
pub proof fn lemma_drl_better_epoch_keeps_weights(pre: Drl, post: Drl, j: int, k: int)
    requires
        drl::learned(pre, post),
        0 <= j < 8,
        0 <= k < 4,
    ensures
        pre.reward() > pre.prev_reward || pre.prev_reward <= 0 ==> {
            &&& post.net.w1@[j]@[k] == sat_i64(pre.net.w1@[j]@[k] + post.net.pw1@[j]@[k])
            &&& post.net.b1@[j] == sat_i64(pre.net.b1@[j] + post.net.pb1@[j])
            &&& post.net.w2@[j] == sat_i64(pre.net.w2@[j] + post.net.pw2@[j])
            &&& post.net.b2 == sat_i64(pre.net.b2 + post.net.pb2)
        },
        pre.reward() <= pre.prev_reward && pre.prev_reward > 0 ==> {
            &&& post.net.w1@[j]@[k] == sat_i64(
                sat_i64(pre.net.w1@[j]@[k] - pre.net.pw1@[j]@[k]) + post.net.pw1@[j]@[k],
            )
            &&& post.net.b1@[j] == sat_i64(
                sat_i64(pre.net.b1@[j] - pre.net.pb1@[j]) + post.net.pb1@[j],
            )
            &&& post.net.w2@[j] == sat_i64(
                sat_i64(pre.net.w2@[j] - pre.net.pw2@[j]) + post.net.pw2@[j],
            )
            &&& post.net.b2 == sat_i64(sat_i64(pre.net.b2 - pre.net.pb2) + post.net.pb2)
        },
        post.prev_reward == pre.reward(),
        post.epoch_dispatches == 0,
        post.epoch_max_wait == 0,
        post.epoch_dispatch_mask == 0,
        post.scan_offset == pre.scan_offset,
{
    let base = choose|base| drl::learned_from(pre, base, post);
    assert(row_perturbed(base, post.net, j, pre.rng@, drl::PERTURB_MAG));
    assert(post.net.w1@[j]@[k] == sat_i64(base.w1@[j]@[k] + post.net.pw1@[j]@[k]));
    if pre.reward() <= pre.prev_reward && pre.prev_reward > 0 {
        assert(row_reverted(pre.net, base, j));
        assert(base.w1@[j]@[k] == sat_i64(pre.net.w1@[j]@[k] - pre.net.pw1@[j]@[k]));
    }
}

/// What an epoch of the DRL scheduler takes note of when a task is switched in,
/// and what its turn leaves behind: one dispatch more, the longest of all waits,
/// the slot; one turn more in the count and the number of the round that
/// follows. The network stays, and so do the other slots.
pub proof fn lemma_drl_epoch_takes_note(
    d: Drl,
    s: DrlShared,
    i: int,
    d2: Drl,
    s2: DrlShared,
    k: int,
)
    requires
        0 <= i < NPROC,
        0 <= k < NPROC,
        k != i,
        drl::begun(d, s, i, d2),
        drl::charged(s, i, s2),
    ensures
        d.epoch_dispatches < u64::MAX ==> d2.epoch_dispatches == d.epoch_dispatches + 1,
        d.epoch_dispatches == u64::MAX ==> d2.epoch_dispatches == u64::MAX,
        d2.epoch_max_wait >= d.epoch_max_wait,
        d2.epoch_max_wait + s.last_run@[i] >= s.round,
        d2.epoch_max_wait > d.epoch_max_wait ==> d2.epoch_max_wait + s.last_run@[i] == s.round,
        bit(d2.epoch_dispatch_mask, i),
        bit(d2.epoch_dispatch_mask, k) == bit(d.epoch_dispatch_mask, k),
        d2.net == d.net,
        d2.prev_reward == d.prev_reward,
        d2.rng == d.rng,
        d2.scan_offset == d.scan_offset,
        s.round < u64::MAX ==> s2.round == s.round + 1 && s2.last_run@[i] == s2.round,
        s.round == u64::MAX ==> s2.round == 0 && s2.last_run@[i] == u64::MAX,
        s.run_count@[i] < u64::MAX ==> s2.run_count@[i] == s.run_count@[i] + 1,
        s.run_count@[i] == u64::MAX ==> s2.run_count@[i] == 0,
        s2.last_run@[k] == s.last_run@[k],
        s2.run_count@[k] == s.run_count@[k],
        s2.seed_ctr == s.seed_ctr,
{
    assert(bit(d2.epoch_dispatch_mask, i));
    assert(bit(d2.epoch_dispatch_mask, k) == bit(d.epoch_dispatch_mask, k));
}

/// The DRL scheduler explores by up to 24 in either direction, with a draw of its
/// own for each weight and bias, neuron after neuron, and the generator moves on
/// by as many draws.
pub proof fn lemma_drl_explores(pre: Drl, post: Drl, j: int, k: int)
    requires
        drl::learned(pre, post),
        0 <= j < 8,
        0 <= k < 4,
    ensures
        post.net.pw1@[j]@[k] == in_range(
            state_after(pre.rng@, (6 * j + k + 1) as nat),
            -24,
            24,
        ),
        post.net.pb1@[j] == in_range(state_after(pre.rng@, (6 * j + 5) as nat), -24, 24),
        post.net.pw2@[j] == in_range(state_after(pre.rng@, (6 * j + 6) as nat), -24, 24),
        post.net.pb2 == in_range(state_after(pre.rng@, 49), -24, 24),
        post.rng@ == state_after(pre.rng@, 49),
        -24 <= post.net.pw1@[j]@[k] <= 24,
        -24 <= post.net.pb1@[j] <= 24,
        -24 <= post.net.pw2@[j] <= 24,
        -24 <= post.net.pb2 <= 24,
{
    let base = choose|base| drl::learned_from(pre, base, post);
    let s = pre.rng@;
    assert(drl::PERTURB_MAG == 24);
    assert(row_perturbed(base, post.net, j, s, drl::PERTURB_MAG));
    let first = draws_before(j, 4);
    assert(first == 6 * j);
    assert(draws_before(8, 4) == 48);
    assert(draws_per_perturbation(4) == 49);
    assert(post.net.pw1@[j]@[k] == draw(s, (first + k) as nat, drl::PERTURB_MAG));
    assert((first + k) as nat + 1 == (6 * j + k + 1) as nat);
    assert(first + 4nat + 1 == (6 * j + 5) as nat);
    assert(first + 4nat + 1 + 1 == (6 * j + 6) as nat);
    lemma_draws_cover_range(state_after(s, (6 * j + k + 1) as nat), -24, 24);
    lemma_draws_cover_range(state_after(s, (6 * j + 5) as nat), -24, 24);
    lemma_draws_cover_range(state_after(s, (6 * j + 6) as nat), -24, 24);
    lemma_draws_cover_range(state_after(s, 49), -24, 24);
}

/// The hybrid explores by up to 8 in either direction, in the same order.
pub proof fn lemma_hybrid_explores(pre: HybridDrl, post: HybridDrl, j: int, k: int)
    requires
        hybrid_drl::learned(pre, post),
        0 <= j < 8,
        0 <= k < 6,
    ensures
        post.net.pw1@[j]@[k] == in_range(
            state_after(pre.rng@, (8 * j + k + 1) as nat),
            -8,
            8,
        ),
        post.net.pb1@[j] == in_range(state_after(pre.rng@, (8 * j + 7) as nat), -8, 8),
        post.net.pw2@[j] == in_range(state_after(pre.rng@, (8 * j + 8) as nat), -8, 8),
        post.net.pb2 == in_range(state_after(pre.rng@, 65), -8, 8),
        post.rng@ == state_after(pre.rng@, 65),
        -8 <= post.net.pw1@[j]@[k] <= 8,
        -8 <= post.net.pb1@[j] <= 8,
        -8 <= post.net.pw2@[j] <= 8,
        -8 <= post.net.pb2 <= 8,
{
    let base = choose|base| hybrid_drl::learned_from(pre, base, post);
    let s = pre.rng@;
    assert(hybrid_drl::PERTURB_MAG == 8);
    assert(row_perturbed(base, post.net, j, s, hybrid_drl::PERTURB_MAG));
    let first = draws_before(j, 6);
    assert(first == 8 * j);
    assert(draws_before(8, 6) == 64);
    assert(draws_per_perturbation(6) == 65);
    assert(post.net.pw1@[j]@[k] == draw(s, (first + k) as nat, hybrid_drl::PERTURB_MAG));
    assert((first + k) as nat + 1 == (8 * j + k + 1) as nat);
    assert(first + 6nat + 1 == (8 * j + 7) as nat);
    assert(first + 6nat + 1 + 1 == (8 * j + 8) as nat);
    lemma_draws_cover_range(state_after(s, (8 * j + k + 1) as nat), -8, 8);
    lemma_draws_cover_range(state_after(s, (8 * j + 7) as nat), -8, 8);
    lemma_draws_cover_range(state_after(s, (8 * j + 8) as nat), -8, 8);
    lemma_draws_cover_range(state_after(s, 65), -8, 8);
}

/// Counters that have grown out of all proportion are read as signed numbers,
/// and a reward that does not fit is the largest that does.
pub proof fn lemma_rewards_at_the_limits(d: u64, c: int, w: u64, l: u64)
    requires
        0 <= c <= 64,
        w < 0x100_0000_0000_0000,
        l < 0x100_0000_0000_0000,
    ensures
        hybrid_drl::reward_of(u64::MAX, c, w, l) == hybrid_drl::reward_of(0, c, w, l) - 8,
        hybrid_drl::reward_of(0, c, u64::MAX, l) == hybrid_drl::reward_of(0, c, 0, l) + 16,
        hybrid_drl::reward_of(0, c, w, u64::MAX) == hybrid_drl::reward_of(0, c, w, 0) + 4,
        0x1000_0000_0000_0000 <= d <= i64::MAX ==> hybrid_drl::reward_of(d, c, w, l) == i64::MAX
            - 16 * w - 4 * l,
        drl::reward_of(u64::MAX, 0, c) == 16 * c - 1024,
        0x20_0000_0000_0000 <= d <= i64::MAX ==> drl::reward_of(d, 0, c) == i64::MAX,
{
    assert(c * 1024 / 64 == 16 * c);
}

/// `features` of the DRL scheduler, as it is called: what each input measures,
/// and the rounds waited.
pub proof fn lemma_drl_features(
    s: DrlShared,
    i: usize,
    round: u64,
    total: u64,
    r: ([i64; 4], u64),
)
    requires
        i < NPROC,
        call_ensures(Drl::features, (&s, i, round, total), r),
        total > 0,
    ensures
        round <= s.last_run@[i as int] ==> r.0@[0] == 0 && r.1 == 0,
        round > s.last_run@[i as int] ==> r.1 == round - s.last_run@[i as int],
        round >= s.last_run@[i as int] + 100 ==> r.0@[0] == 1024,
        s.last_run@[i as int] <= round < s.last_run@[i as int] + 100 ==> r.0@[0] * 100 <= (round
            - s.last_run@[i as int]) * 1024 < r.0@[0] * 100 + 100,
        s.run_count@[i as int] == 0 ==> r.0@[1] == 1024,
        s.run_count@[i as int] <= total && s.run_count@[i as int] * 1024 <= u64::MAX ==> (1024
            - r.0@[1]) * total <= s.run_count@[i as int] * 1024 < (1025 - r.0@[1]) * total,
        r.0@[2] == 1024 <==> round > s.last_run@[i as int] + 5 && s.run_count@[i as int] > 0,
        r.0@[2] == 0 || r.0@[2] == 1024,
        r.0@[3] == 512,
{
    lemma_drl_inputs_measure(s, i as int, round, total);
}

/// The numbers that stand for process states tell them apart.
pub proof fn lemma_state_codes_differ(a: ProcState, b: ProcState, x: u8, y: u8)
    requires
        call_ensures(hybrid_drl::state_code, (a,), x),
        call_ensures(hybrid_drl::state_code, (b,), y),
    ensures
        x == y <==> a == b,
        a == ProcState::UNUSED ==> x == 0,
        x <= 5,
{
}

} // verus!
