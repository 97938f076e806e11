//! DRL: a lightweight online learning scheduler.
//!
//! It scores each runnable process with a tiny fixed-point neural network. It
//! starts from conservative weights and learns at epoch boundaries: it keeps a
//! perturbation of the weights if the reward of the epoch improved, otherwise
//! it takes the perturbation back and tries another.

use crate::arith::{
    as_i64, bit, count_ones, div_toward_zero, divide, lemma_wraps_once, max_int, min_int,
    ones_below, reinterpret_i64, sat_i64, sat_u64, saturating_add, saturating_mul,
    saturating_mul_u64, with_bit, wrap_inc,
};
use crate::prng::{state_after, XorShift64};
use crate::process::{ProcState, NPROC};
use crate::scheduler::network::{
    draws_per_perturbation, lemma_revert_undoes_perturbation, perturbed, reverted, same_weights,
    unperturbed, within_limits, Network, HIDDEN_SIZE, SCALE,
};
use crate::scheduler::scan::{
    lemma_equal_comes_closer, lemma_offer, lemma_skip, picks_least, precedes, scan_slot, turn, Best,
};
use crate::scheduler::Scheduler;
use vstd::prelude::*;

verus! {

/// Number of inputs of the network.
pub const NUM_FEATURES: usize = 4;

/// Dispatches between two learning steps.
pub const EPOCH_LEN: u64 = 64;

/// Largest perturbation of a weight.
pub const PERTURB_MAG: i64 = 24;

pub const WAIT_CLAMP: u64 = 100;

/// A task that waited longer than this is taken for one that does I/O.
pub const IO_WAIT: u64 = 5;

/// Distance between the seeds of two CPUs.
pub const SEED_STEP: u64 = 0xCAFE_BABE_0000_1234;

/// Seed of the first CPU.
pub const SEED_BASE: u64 = 0xDEAD_BEEF_0000_1337;

/// The tables that all CPUs share, indexed by slot.
#[derive(Clone, Copy, Debug)]
pub struct DrlShared {
    /// The round after which the task last ran.
    pub last_run: [u64; NPROC],
    pub run_count: [u64; NPROC],
    /// Number of the current round, counted over all CPUs.
    pub round: u64,
    pub seed_ctr: u64,
}

/// One CPU's network and its figures for the current epoch.
#[derive(Clone, Copy, Debug)]
pub struct Drl {
    pub net: Network<NUM_FEATURES>,
    pub epoch_dispatches: u64,
    pub epoch_max_wait: u64,
    /// The slots dispatched in this epoch, one bit each.
    pub epoch_dispatch_mask: u64,
    pub prev_reward: i64,
    pub rng: XorShift64,
    /// Where the next scan of the process table starts.
    pub scan_offset: usize,
}

/// Rounds since slot `idx` last ran.
pub open spec fn waited(shared: DrlShared, idx: int, round: u64) -> int {
    sat_u64(round - shared.last_run@[idx])
}

/// The inputs of the network for slot `idx`: how long it waited, what share of
/// all rounds it still misses, whether it looks like a task that does I/O, and
/// a constant.
pub open spec fn feature_vector(shared: DrlShared, idx: int, round: u64, total: u64) -> Seq<i64> {
    let wait = waited(shared, idx, round);
    let count = shared.run_count@[idx];
    let share = min_int(sat_u64(count * SCALE) / max_int(total as int, 1), SCALE as int);
    seq![
        (min_int(wait, WAIT_CLAMP as int) * SCALE / WAIT_CLAMP as int) as i64,
        (SCALE - share) as i64,
        if wait > IO_WAIT && count > 0 {
            SCALE
        } else {
            0
        },
        (SCALE / 2) as i64,
    ]
}

/// The reward for an epoch: dispatches per round of the longest wait, and a
/// bonus for the share of slots that got a turn.
pub open spec fn reward_of(dispatches: u64, max_wait: u64, coverage: int) -> int {
    let scaled = sat_i64(reinterpret_i64(dispatches) * SCALE);
    let throughput = if max_wait == 0 {
        scaled
    } else {
        div_toward_zero(scaled, reinterpret_i64(max_wait))
    };
    sat_i64(throughput + coverage * SCALE / NPROC as int)
}

impl DrlShared {
    /// Tables for a system in which nothing has run yet.
    pub fn new() -> (r: Self)
        ensures
            r.round == 1,
            r.seed_ctr == 0,
            forall|i: int|
                0 <= i < NPROC ==> #[trigger] r.last_run@[i] == 0 && r.run_count@[i] == 0,
    {
        DrlShared { last_run: [0;NPROC], run_count: [0;NPROC], round: 1, seed_ctr: 0 }
    }

    /// A seed for one CPU's generator, different from call to call.
    pub fn next_seed(&mut self) -> (seed: u64)
        ensures
            seed == (old(self).seed_ctr + SEED_BASE) % 0x1_0000_0000_0000_0000,
            *final(self) == (DrlShared {
                seed_ctr: ((old(self).seed_ctr + SEED_STEP) % 0x1_0000_0000_0000_0000) as u64,
                ..*old(self)
            }),
    {
        let seed: u64 = self.seed_ctr.wrapping_add(SEED_BASE);
        self.seed_ctr = self.seed_ctr.wrapping_add(SEED_STEP);
        seed
    }
}

impl Drl {
    pub open spec fn wf(self) -> bool {
        &&& self.rng.wf()
        &&& self.scan_offset < NPROC
    }

    /// The reward for the current epoch.
    pub open spec fn reward(self) -> int {
        reward_of(
            self.epoch_dispatches,
            self.epoch_max_wait,
            ones_below(self.epoch_dispatch_mask, 64) as int,
        )
    }

    /// The perturbation of this epoch did not pay: there is a positive reward to
    /// compare with, and this one is no better.
    pub open spec fn rejects(self) -> bool {
        self.prev_reward > 0 && self.reward() <= self.prev_reward
    }

    /// The one quotient of the reward that does not fit its type is not taken.
    pub open spec fn reward_fits(self) -> bool {
        !(sat_i64(reinterpret_i64(self.epoch_dispatches) * SCALE) == i64::MIN
            && self.epoch_max_wait == u64::MAX)
    }

    /// The score of slot `i` in `round`.
    pub open spec fn slot_score(self, shared: DrlShared, i: int, round: u64) -> int {
        self.net.score(feature_vector(shared, i, round, max_int(round as int, 1) as u64))
    }

    /// The runnable tasks, the one with the highest score first.
    pub open spec fn score_keys(
        self,
        shared: DrlShared,
        states: Seq<ProcState>,
        round: u64,
    ) -> Seq<Option<int>> {
        Seq::new(
            NPROC as nat,
            |i: int|
                if states[i] == ProcState::RUNNABLE && self.slot_score(shared, i, round)
                    > i64::MIN {
                    Some(i64::MAX - self.slot_score(shared, i, round))
                } else {
                    None
                },
        )
    }

    /// A scheduler with the warm-start weights and the given seed.
    pub fn new(seed: u64) -> (r: Self)
        ensures
            r.wf(),
            warm_start(r),
            r.rng@ == (if seed == 0 {
                1
            } else {
                seed
            }),
    {
        let mut w1: [[i64; NUM_FEATURES]; HIDDEN_SIZE] = [[0;NUM_FEATURES];HIDDEN_SIZE];
        w1[0] = [768, 256, 256, 0];
        w1[1] = [256, 768, 0, 0];
        w1[2] = [128, 0, 512, 0];

        let mut w2: [i64; HIDDEN_SIZE] = [0;HIDDEN_SIZE];
        w2[0] = 512;
        w2[1] = 384;
        w2[2] = 256;

        assert(w1@[0]@ =~= seq![768i64, 256, 256, 0]);
        assert(w1@[1]@ =~= seq![256i64, 768, 0, 0]);
        assert(w1@[2]@ =~= seq![128i64, 0, 512, 0]);
        assert(w2@ =~= seq![512i64, 384, 256, 0, 0, 0, 0, 0]);
        Drl {
            net: Network::new(w1, w2),
            epoch_dispatches: 0,
            epoch_max_wait: 0,
            epoch_dispatch_mask: 0,
            prev_reward: 0,
            rng: XorShift64::new(seed),
            scan_offset: 0,
        }
    }

    /// Scores a feature vector.
    pub fn forward(&self, features: &[i64; NUM_FEATURES]) -> (r: i64)
        ensures
            r == self.net.score(features@),
    {
        self.net.forward(features)
    }

    /// Perturbs all weights at random.
    pub fn apply_perturbation(&mut self)
        requires
            old(self).wf(),
        ensures
            final(self).wf(),
            perturbed(old(self).net, final(self).net, old(self).rng@, PERTURB_MAG),
            final(self).rng@ == state_after(
                old(self).rng@,
                draws_per_perturbation(NUM_FEATURES as int),
            ),
            *final(self) == (Drl { net: final(self).net, rng: final(self).rng, ..*old(self) }),
    {
        self.net.apply_perturbation(&mut self.rng, PERTURB_MAG);
    }

    /// Takes the last perturbation back.
    pub fn revert_perturbation(&mut self)
        ensures
            reverted(old(self).net, final(self).net),
            *final(self) == (Drl { net: final(self).net, ..*old(self) }),
    {
        self.net.revert_perturbation();
    }

    /// Ends an epoch: keeps the perturbation if the reward improved, else
    /// takes it back, and tries another. With no positive reward to compare with
    /// the perturbation is kept.
    pub fn learn(&mut self)
        requires
            old(self).wf(),
            old(self).reward_fits(),
        ensures
            final(self).wf(),
            learned(*old(self), *final(self)),
    {
        let ghost before = *self;
        let scaled: i64 = saturating_mul(as_i64(self.epoch_dispatches), SCALE);
        let throughput_score: i64 = if self.epoch_max_wait == 0 {
            scaled
        } else {
            divide(scaled, as_i64(self.epoch_max_wait))
        };
        let coverage: i64 = count_ones(self.epoch_dispatch_mask) as i64;
        let fairness_bonus: i64 = saturating_mul(coverage, SCALE) / NPROC as i64;
        let reward: i64 = saturating_add(throughput_score, fairness_bonus);

        if self.prev_reward > 0 && reward <= self.prev_reward {
            self.revert_perturbation();
        }
        let ghost base = self.net;

        self.apply_perturbation();
        self.prev_reward = reward;
        self.epoch_dispatches = 0;
        self.epoch_max_wait = 0;
        self.epoch_dispatch_mask = 0;
        assert(learned_from(before, base, *self));
    }

    /// The inputs of the network for slot `idx`, and how many rounds the task
    /// has waited.
    pub fn features(
        shared: &DrlShared,
        idx: usize,
        round: u64,
        total: u64,
    ) -> (r: ([i64; NUM_FEATURES], u64))
        requires
            idx < NPROC,
        ensures
            r.0@ == feature_vector(*shared, idx as int, round, total),
            r.1 == waited(*shared, idx as int, round),
    {
        let last: u64 = shared.last_run[idx];
        let count: u64 = shared.run_count[idx];
        let wait: u64 = round.saturating_sub(last);
        let capped: u64 = if wait < WAIT_CLAMP { wait } else { WAIT_CLAMP };
        let wait_score: i64 = capped as i64 * SCALE / WAIT_CLAMP as i64;
        let rounds: u64 = if total > 1 { total } else { 1 };
        let part: u64 = saturating_mul_u64(count, SCALE as u64) / rounds;
        let share: i64 = if part < SCALE as u64 { part as i64 } else { SCALE };
        let deficit: i64 = SCALE - share;
        let io_hint: i64 = if wait > IO_WAIT && count > 0 { SCALE } else { 0 };
        let features: [i64; NUM_FEATURES] = [wait_score, deficit, io_hint, SCALE / 2];
        assert(features@ =~= feature_vector(*shared, idx as int, round, total));
        (features, wait)
    }

    /// The runnable task with the highest score, the first of them in scan
    /// order.
    pub fn select(
        &self,
        shared: &DrlShared,
        states: &[ProcState; NPROC],
        round: u64,
    ) -> (pick: Option<usize>)
        requires
            self.wf(),
        ensures
            picks_least(
                self.score_keys(*shared, states@, round),
                self.scan_offset as int,
                pick,
            ),
    {
        let ghost keys = self.score_keys(*shared, states@, round);
        let ghost start = self.scan_offset as int;
        let total: u64 = if round > 1 { round } else { 1 };
        let mut best: Best = Best::new();
        assert(best.after(keys, start, 0));
        let mut j: usize = 0;
        while j < NPROC
            invariant
                j <= NPROC,
                self.wf(),
                start == self.scan_offset,
                total == max_int(round as int, 1),
                keys == self.score_keys(*shared, states@, round),
                best.after(keys, start, j as int),
            decreases NPROC - j,
        {
            let i: usize = scan_slot(self.scan_offset, j);
            if states[i] == ProcState::RUNNABLE {
                let (features, _wait) = Self::features(shared, i, round, total);
                let score: i64 = self.forward(&features);
                let key: u64 = (i64::MAX as i128 - score as i128) as u64;
                proof {
                    lemma_offer(best, keys, start, j as int, i, key);
                }
                best.offer(i, key);
            } else {
                proof {
                    lemma_skip(best, keys, start, j as int, i as int);
                }
            }
            j = j + 1;
        }
        best.pick
    }
}

/// The weights that a scheduler starts from: three neurons are in use.
pub open spec fn warm_start(d: Drl) -> bool {
    &&& d.net.w1@[0]@ == seq![768i64, 256, 256, 0]
    &&& d.net.w1@[1]@ == seq![256i64, 768, 0, 0]
    &&& d.net.w1@[2]@ == seq![128i64, 0, 512, 0]
    &&& forall|j: int, k: int|
        3 <= j < HIDDEN_SIZE && 0 <= k < NUM_FEATURES ==> #[trigger] d.net.w1@[j]@[k] == 0
    &&& d.net.w2@ == seq![512i64, 384, 256, 0, 0, 0, 0, 0]
    &&& forall|j: int| 0 <= j < HIDDEN_SIZE ==> #[trigger] d.net.b1@[j] == 0
    &&& d.net.b2 == 0
    &&& unperturbed(d.net)
    &&& d.epoch_dispatches == 0
    &&& d.epoch_max_wait == 0
    &&& d.epoch_dispatch_mask == 0
    &&& d.prev_reward == 0
    &&& d.scan_offset == 0
}

/// `post` is `pre` after a learning step.
pub open spec fn learned(pre: Drl, post: Drl) -> bool {
    exists|base: Network<NUM_FEATURES>| learned_from(pre, base, post)
}

/// `post` is `pre` after a learning step that perturbed `base`: the network of
/// `pre`, with its perturbation taken back if that was rejected.
pub open spec fn learned_from(pre: Drl, base: Network<NUM_FEATURES>, post: Drl) -> bool {
    &&& if pre.rejects() {
        reverted(pre.net, base)
    } else {
        base == pre.net
    }
    &&& perturbed(base, post.net, pre.rng@, PERTURB_MAG)
    &&& post.rng@ == state_after(pre.rng@, draws_per_perturbation(NUM_FEATURES as int))
    &&& post.prev_reward == pre.reward()
    &&& post.epoch_dispatches == 0
    &&& post.epoch_max_wait == 0
    &&& post.epoch_dispatch_mask == 0
    &&& post.scan_offset == pre.scan_offset
}

/// Slot `i` was switched in: `d` before, `d2` after.
pub open spec fn begun(d: Drl, shared: DrlShared, i: int, d2: Drl) -> bool {
    &&& d2.epoch_dispatches == sat_u64(d.epoch_dispatches + 1)
    &&& d2.epoch_max_wait == max_int(d.epoch_max_wait as int, waited(shared, i, shared.round))
    &&& forall|k: int|
        0 <= k < 64 ==> #[trigger] bit(d2.epoch_dispatch_mask, k) == (bit(
            d.epoch_dispatch_mask,
            k,
        ) || k == i)
    &&& d2 == Drl {
        epoch_dispatches: d2.epoch_dispatches,
        epoch_max_wait: d2.epoch_max_wait,
        epoch_dispatch_mask: d2.epoch_dispatch_mask,
        ..d
    }
}

/// Slot `i` handed the CPU back: `s` are the tables before, `s2` after.
pub open spec fn charged(s: DrlShared, i: int, s2: DrlShared) -> bool {
    &&& s2.last_run@ == s.last_run@.update(i, sat_u64(s.round + 1) as u64)
    &&& s2.run_count@ == s.run_count@.update(i, wrap_inc(s.run_count@[i]))
    &&& s2.round == wrap_inc(s.round)
    &&& s2.seed_ctr == s.seed_ctr
}

impl Scheduler for Drl {
    type Shared = DrlShared;

    type Choice = usize;

    open spec fn begin_ok(self, shared: DrlShared, choice: usize) -> bool {
        choice < NPROC
    }

    open spec fn finish_ok(self, shared: DrlShared, choice: usize) -> bool {
        &&& choice < NPROC
        &&& self.wf()
        &&& self.epoch_dispatches >= EPOCH_LEN ==> self.reward_fits()
    }

    fn can_begin(&self, shared: &DrlShared, choice: &usize) -> (b: bool) {
        *choice < NPROC
    }

    fn begin(&mut self, shared: &mut DrlShared, choice: &usize, state: ProcState) -> (run: bool)
        ensures
            run == (state == ProcState::RUNNABLE),
            run ==> begun(*old(self), *old(shared), *choice as int, *final(self)),
            *final(shared) == *old(shared),
    {
        if state != ProcState::RUNNABLE {
            return false;
        }
        let idx: usize = *choice;
        let round: u64 = shared.round;
        let total: u64 = if round > 1 { round } else { 1 };
        let (_features, wait) = Self::features(shared, idx, round, total);
        self.epoch_dispatches = self.epoch_dispatches.saturating_add(1);
        if wait > self.epoch_max_wait {
            self.epoch_max_wait = wait;
        }
        self.epoch_dispatch_mask = with_bit(self.epoch_dispatch_mask, idx);
        true
    }

    fn can_finish(&self, shared: &DrlShared, choice: &usize) -> (b: bool) {
        if *choice >= NPROC || !self.rng.is_seeded() || self.scan_offset >= NPROC {
            return false;
        }
        let scaled: i64 = saturating_mul(as_i64(self.epoch_dispatches), SCALE);
        self.epoch_dispatches < EPOCH_LEN || scaled != i64::MIN || self.epoch_max_wait != u64::MAX
    }

    fn finish(&mut self, shared: &mut DrlShared, choice: &usize)
        ensures
            charged(*old(shared), *choice as int, *final(shared)),
            final(self).wf(),
            final(self).scan_offset == (choice + 1) % (NPROC as int),
            ({
                let post = Drl { scan_offset: old(self).scan_offset, ..*final(self) };
                if old(self).epoch_dispatches >= EPOCH_LEN {
                    learned(*old(self), post)
                } else {
                    post == *old(self)
                }
            }),
    {
        let idx: usize = *choice;
        let new_round: u64 = shared.round.saturating_add(1);
        shared.round = shared.round.wrapping_add(1);
        shared.last_run[idx] = new_round;
        shared.run_count[idx] = shared.run_count[idx].wrapping_add(1);

        if self.epoch_dispatches >= EPOCH_LEN {
            self.learn();
        }
        let ghost mid = *self;
        self.scan_offset = (idx + 1) % NPROC;
        assert((Drl { scan_offset: old(self).scan_offset, ..*self }) == mid);
    }
}

/// Every input of the network is a fraction between 0 and 1.
pub proof fn lemma_features_bounded(shared: DrlShared, idx: int, round: u64, total: u64, k: int)
    requires
        0 <= k < NUM_FEATURES,
    ensures
        0 <= feature_vector(shared, idx, round, total)[k] <= SCALE,
{
    let part = sat_u64(shared.run_count@[idx] * SCALE);
    let rounds = max_int(total as int, 1);
    assert(part / rounds >= 0) by (nonlinear_arith)
        requires
            part >= 0,
            rounds > 0,
    ;
}

/// The chosen task is runnable and no runnable task scores higher.
pub proof fn lemma_pick_scores_highest(
    d: Drl,
    shared: DrlShared,
    states: Seq<ProcState>,
    round: u64,
    pick: usize,
    q: int,
)
    requires
        d.wf(),
        picks_least(d.score_keys(shared, states, round), d.scan_offset as int, Some(pick)),
        0 <= q < NPROC,
        states[q] == ProcState::RUNNABLE,
    ensures
        pick < NPROC,
        states[pick as int] == ProcState::RUNNABLE,
        d.slot_score(shared, q, round) <= d.slot_score(shared, pick as int, round),
{
    let keys = d.score_keys(shared, states, round);
    assert(keys[pick as int] is Some);
    if keys[q] is Some {
        assert(turn(d.scan_offset as int, q) < NPROC);
        assert(precedes(keys, d.scan_offset as int, pick as int, q));
    }
}

/// Tasks with equal scores take turns. With every turn that goes to another one
/// with its score, a waiting task comes sooner in the next scan.
pub proof fn lemma_equal_scores_take_turns(
    d: Drl,
    shared: DrlShared,
    states: Seq<ProcState>,
    round: u64,
    pick: usize,
    q: int,
    d2: Drl,
)
    requires
        d.wf(),
        picks_least(d.score_keys(shared, states, round), d.scan_offset as int, Some(pick)),
        d2.scan_offset == (pick + 1) % (NPROC as int),
        0 <= q < NPROC,
        states[q] == ProcState::RUNNABLE,
        d.slot_score(shared, q, round) == d.slot_score(shared, pick as int, round),
        pick != q,
    ensures
        turn(d2.scan_offset as int, q) < turn(d.scan_offset as int, q),
        0 <= turn(d2.scan_offset as int, q),
{
    let keys = d.score_keys(shared, states, round);
    assert(keys[pick as int] is Some);
    lemma_equal_comes_closer(
        keys,
        d.scan_offset as int,
        pick,
        q,
        d2.scan_offset as int,
    );
}

/// Of two successive networks the better one stays. If the last perturbation
/// turned `start` into the network of `pre` and did not pay, the next one is
/// applied to the weights of `start` again; otherwise, and where there was no
/// positive reward to compare with, to those of `pre`. The saturation of a weight
/// is left out.
pub proof fn lemma_better_weights_stay(
    start: Network<NUM_FEATURES>,
    s: u64,
    pre: Drl,
    post: Drl,
)
    requires
        perturbed(start, pre.net, s, PERTURB_MAG),
        within_limits(start, pre.net),
        learned(pre, post),
    ensures
        exists|base: Network<NUM_FEATURES>|
            #[trigger] perturbed(base, post.net, pre.rng@, PERTURB_MAG) && same_weights(
                if pre.rejects() {
                    start
                } else {
                    pre.net
                },
                base,
            ),
{
    let base = choose|base: Network<NUM_FEATURES>| learned_from(pre, base, post);
    assert(learned_from(pre, base, post));
    if pre.rejects() {
        lemma_revert_undoes_perturbation(start, pre.net, base, s, PERTURB_MAG);
    }
    assert(perturbed(base, post.net, pre.rng@, PERTURB_MAG));
}

/// The counter of seeds after `n` of them were handed out.
pub open spec fn seeds_handed_out(seed_ctr: u64, n: nat) -> u64
    decreases n,
{
    if n == 0 {
        seed_ctr
    } else {
        ((seeds_handed_out(seed_ctr, (n - 1) as nat) + SEED_STEP) % 0x1_0000_0000_0000_0000) as u64
    }
}

proof fn lemma_counter_steps(seed_ctr: u64, n: nat)
    ensures
        seeds_handed_out(seed_ctr, n) == (seed_ctr + n * SEED_STEP) % 0x1_0000_0000_0000_0000,
    decreases n,
{
    if n > 0 {
        lemma_counter_steps(seed_ctr, (n - 1) as nat);
        lemma_wraps_once(seed_ctr + (n - 1) * SEED_STEP, SEED_STEP as int);
        assert(n * SEED_STEP == (n - 1) * SEED_STEP + SEED_STEP) by (nonlinear_arith);
    } else {
        assert(0 * SEED_STEP == 0);
    }
}

/// No two CPUs start from the same seed, as long as there are no more of them
/// than slots in the process table.
pub proof fn lemma_seeds_differ(seed_ctr: u64, n: nat)
    requires
        0 < n <= NPROC,
    ensures
        (seeds_handed_out(seed_ctr, n) + SEED_BASE) % 0x1_0000_0000_0000_0000 != (seed_ctr
            + SEED_BASE) % 0x1_0000_0000_0000_0000,
{
    lemma_counter_steps(seed_ctr, n);
    lemma_steps_do_not_return(n);
}

proof fn lemma_steps_do_not_return(n: nat)
    requires
        0 < n <= NPROC,
    ensures
        (n * SEED_STEP) % 0x1_0000_0000_0000_0000 != 0,
{
}

} // verus!
