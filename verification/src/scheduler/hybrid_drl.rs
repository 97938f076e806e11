//! Hybrid DRL: EEVDF with bounded learned deadline shaping.
//!
//! EEVDF remains the safety baseline: eligibility is still based on vruntime,
//! and the fallback still picks the task with the lowest vruntime. A tiny
//! fixed-point learner can only apply a small signed adjustment to the virtual
//! deadline of a task, so that it can prefer tasks that are likely to be
//! interactive without breaking the fairness of the baseline.

use crate::arith::{
    as_i64, bit, count_ones, div_toward_zero, divide, lemma_wraps_once, max_int, min_int,
    ones_below, reinterpret_i64, sat_i64, sat_u64, saturating_add, saturating_mul,
    saturating_mul_u64, saturating_sub, with_bit, wrap_inc,
};
use crate::prng::{state_after, XorShift64};
use crate::process::{ProcState, NPROC};
use crate::scheduler::network::{
    draws_per_perturbation, lemma_revert_undoes_perturbation, perturbed, reverted, same_weights,
    unperturbed, within_limits, Network, HIDDEN_SIZE, SCALE,
};
use crate::scheduler::scan::{lemma_offer, lemma_skip, precedes, turn, Best};
use crate::scheduler::vtime::{
    advanced, clamp_vruntime, clamped, floor_after, is_active_min, lemma_default_weight,
    mean_vruntime, picks_preferred, renewed, survey, vruntime_keys, Survey, NICE_0_WEIGHT,
};
use crate::scheduler::Scheduler;
use vstd::prelude::*;

verus! {

/// Length of a slice, in virtual-time units.
pub const SCHED_SLICE: u64 = 4;

/// Charge for one turn on the CPU.
pub const SCHED_MIN_GRANULARITY: u64 = 1;

/// How far behind the floor a waking task may be.
pub const WAKEUP_LAG_LIMIT: u64 = SCHED_SLICE;

/// How far above the mean vruntime a task is still eligible.
pub const ELIGIBILITY_SLACK: u64 = 1;

/// Number of inputs of the learner.
pub const NUM_FEATURES: usize = 6;

pub const WAIT_CLAMP: u64 = 100;

pub const LAG_CLAMP: u64 = 16;

pub const DEADLINE_CLAMP: u64 = 16;

pub const RUN_BURST_CLAMP: u64 = 16;

/// Most wake credit that a task can hold.
pub const MAX_WAKE_CREDIT: u64 = 6;

/// Wake credit that a task earns when it wakes up.
pub const WAKE_CREDIT_STEP: u64 = 3;

/// The learner moves a deadline by at most this much.
pub const MAX_DRL_ADJ: i64 = 3;

/// Dispatches between two learning steps.
pub const EPOCH_LEN: u64 = 128;

/// Largest perturbation of a weight.
pub const PERTURB_MAG: i64 = 8;

const STATE_UNUSED: u8 = 0;

const STATE_USED: u8 = 1;

const STATE_SLEEPING: u8 = 2;

const STATE_RUNNABLE: u8 = 3;

const STATE_RUNNING: u8 = 4;

const STATE_ZOMBIE: u8 = 5;

/// Distance between the seeds of two CPUs.
pub const SEED_STEP: u64 = 0x9E37_79B9_7F4A_7C15;

/// Seed of the first CPU.
pub const SEED_BASE: u64 = 0xD1B5_4A32_D192_ED03;

/// The tables that all CPUs share, indexed by slot.
#[derive(Clone, Copy, Debug)]
pub struct HybridShared {
    pub vruntime: [u64; NPROC],
    pub deadline: [u64; NPROC],
    /// The round after which the task last ran.
    pub last_run: [u64; NPROC],
    pub run_count: [u64; NPROC],
    /// Turns since the task last woke up.
    pub run_burst: [u64; NPROC],
    pub wake_credit: [u64; NPROC],
    /// The state in which the task was last seen, as a number.
    pub last_state: [u8; NPROC],
    pub min_vruntime: u64,
    /// Number of the current round, counted over all CPUs.
    pub round: u64,
    pub seed_ctr: u64,
}

/// What a scan of the process table led to.
#[derive(Clone, Copy, Debug, PartialEq, Eq, Structural)]
pub struct HybridChoice {
    pub idx: usize,
    /// The round in which the scan began.
    pub round: u64,
    /// The mean vruntime that the scan found.
    pub avg_vruntime: u64,
}

/// One CPU's learner.
#[derive(Clone, Copy, Debug)]
pub struct HybridDrl {
    pub net: Network<NUM_FEATURES>,
    pub epoch_dispatches: u64,
    pub epoch_max_wait: u64,
    pub epoch_max_lag: u64,
    /// The slots dispatched in this epoch, one bit each.
    pub epoch_dispatch_mask: u64,
    pub prev_reward: i64,
    pub rng: XorShift64,
}

/// `value` as a fixed-point fraction of `max`, at most 1.
pub open spec fn fraction(value: int, max: int) -> int {
    min_int(value, max) * SCALE / max
}

/// The dividend of that fraction, computed on signed 64-bit numbers.
pub open spec fn scaled_part(value: u64, max: u64) -> int {
    reinterpret_i64(
        if value <= max {
            value
        } else {
            max
        },
    ) * SCALE
}

/// The number that stands for a process state.
pub open spec fn code_of(state: ProcState) -> u8 {
    match state {
        ProcState::UNUSED => 0,
        ProcState::USED => 1,
        ProcState::SLEEPING => 2,
        ProcState::RUNNABLE => 3,
        ProcState::RUNNING => 4,
        ProcState::ZOMBIE => 5,
    }
}

/// The share of all rounds that a task still misses, as a fixed-point number.
pub open spec fn share_deficit(run_count: u64, round: u64) -> int {
    SCALE - min_int(sat_u64(run_count * SCALE) / max_int(round as int, 1), SCALE as int)
}

/// The inputs of the learner for slot `idx`.
pub open spec fn feature_vector(
    shared: HybridShared,
    idx: int,
    round: u64,
    avg_vruntime: u64,
    vruntime: u64,
    deadline: u64,
) -> Seq<i64> {
    seq![
        fraction(waited(shared, idx, round), WAIT_CLAMP as int) as i64,
        share_deficit(shared.run_count@[idx], round) as i64,
        fraction(shared.wake_credit@[idx] as int, MAX_WAKE_CREDIT as int) as i64,
        fraction(sat_u64(avg_vruntime - vruntime), LAG_CLAMP as int) as i64,
        (SCALE - fraction(sat_u64(deadline - vruntime), DEADLINE_CLAMP as int)) as i64,
        fraction(shared.run_burst@[idx] as int, RUN_BURST_CLAMP as int) as i64,
    ]
}

/// Rounds since slot `idx` last ran.
pub open spec fn waited(shared: HybridShared, idx: int, round: u64) -> int {
    sat_u64(round - shared.last_run@[idx])
}

pub open spec fn clamp_int(x: int, lo: int, hi: int) -> int {
    if x < lo {
        lo
    } else if x > hi {
        hi
    } else {
        x
    }
}

/// Computes the vruntime delta for one turn:
/// `delta_exec * (NICE_0_WEIGHT / weight)`.
pub fn calc_delta(delta_exec: u64, weight: u64) -> (r: u64)
    requires
        delta_exec * NICE_0_WEIGHT <= u64::MAX,
    ensures
        r == delta_exec * NICE_0_WEIGHT / max_int(weight as int, 1),
{
    delta_exec * NICE_0_WEIGHT / if weight > 1 { weight } else { 1 }
}

/// Computes the virtual-time length of one slice.
pub fn calc_slice_vruntime(weight: u64) -> (r: u64)
    ensures
        r == SCHED_SLICE * NICE_0_WEIGHT / max_int(weight as int, 1),
{
    SCHED_SLICE * NICE_0_WEIGHT / if weight > 1 { weight } else { 1 }
}

/// The number that stands for a process state.
pub fn state_code(state: ProcState) -> (r: u8)
    ensures
        r == code_of(state),
{
    match state {
        ProcState::UNUSED => STATE_UNUSED,
        ProcState::USED => STATE_USED,
        ProcState::SLEEPING => STATE_SLEEPING,
        ProcState::RUNNABLE => STATE_RUNNABLE,
        ProcState::RUNNING => STATE_RUNNING,
        ProcState::ZOMBIE => STATE_ZOMBIE,
    }
}

/// `value`, capped at `max`, as a fixed-point fraction of `max`.
pub fn clamp_scale(value: u64, max: u64) -> (r: i64)
    requires
        i64::MIN <= scaled_part(value, max) <= i64::MAX,
        !(scaled_part(value, max) == i64::MIN && max == u64::MAX),
    ensures
        r == div_toward_zero(
            scaled_part(value, max),
            reinterpret_i64(
                if max >= 1 {
                    max
                } else {
                    1
                },
            ),
        ),
        0 < max <= i64::MAX ==> r == fraction(value as int, max as int) && 0 <= r <= SCALE,
{
    let capped: u64 = if value <= max { value } else { max };
    let whole: u64 = if max >= 1 { max } else { 1 };
    proof {
        if 0 < max <= i64::MAX {
            let part = capped as int * SCALE;
            let all = max as int;
            assert(0 <= part / all <= 1024) by (nonlinear_arith)
                requires
                    0 <= part <= all * 1024,
                    all > 0,
            ;
        }
    }
    divide(as_i64(capped) * SCALE, as_i64(whole))
}

/// Moves a deadline by a signed amount.
pub fn apply_deadline_adjustment(deadline: u64, adj: i64) -> (r: u64)
    requires
        adj > i64::MIN,
    ensures
        r == sat_u64(deadline + adj),
{
    if adj < 0 {
        deadline.saturating_sub((-adj) as u64)
    } else {
        deadline.saturating_add(adj as u64)
    }
}

impl HybridShared {
    /// Tables for a system in which nothing has run yet.
    pub fn new() -> (r: Self)
        ensures
            r.inv(),
            r.min_vruntime == 0,
            r.round == 1,
            r.seed_ctr == 0,
            forall|i: int|
                0 <= i < NPROC ==> {
                    &&& #[trigger] r.vruntime@[i] == 0
                    &&& r.deadline@[i] == 0
                    &&& r.last_run@[i] == 0
                    &&& r.run_count@[i] == 0
                    &&& r.run_burst@[i] == 0
                    &&& r.wake_credit@[i] == 0
                    &&& r.last_state@[i] == code_of(ProcState::UNUSED)
                },
    {
        HybridShared {
            vruntime: [0;NPROC],
            deadline: [0;NPROC],
            last_run: [0;NPROC],
            run_count: [0;NPROC],
            run_burst: [0;NPROC],
            wake_credit: [0;NPROC],
            last_state: [STATE_UNUSED;NPROC],
            min_vruntime: 0,
            round: 1,
            seed_ctr: 0,
        }
    }

    /// No task holds more wake credit than it can earn, and no deadline is more
    /// than a slice ahead.
    pub open spec fn inv(self) -> bool {
        &&& forall|i: int| 0 <= i < NPROC ==> #[trigger] self.wake_credit@[i] <= MAX_WAKE_CREDIT
        &&& forall|i: int|
            0 <= i < NPROC ==> #[trigger] self.deadline@[i] <= self.vruntime@[i] + SCHED_SLICE
    }

    /// Slot `idx` was last seen asleep and is now seen runnable.
    pub open spec fn wakes(self, idx: int, state: ProcState) -> bool {
        self.last_state@[idx] == code_of(ProcState::SLEEPING) && state == ProcState::RUNNABLE
    }

    /// A seed for one CPU's learner, different from call to call.
    pub fn next_seed(&mut self) -> (seed: u64)
        ensures
            seed == (old(self).seed_ctr + SEED_BASE) % 0x1_0000_0000_0000_0000,
            *final(self) == (HybridShared {
                seed_ctr: ((old(self).seed_ctr + SEED_STEP) % 0x1_0000_0000_0000_0000) as u64,
                ..*old(self)
            }),
    {
        let seed: u64 = self.seed_ctr.wrapping_add(SEED_BASE);
        self.seed_ctr = self.seed_ctr.wrapping_add(SEED_STEP);
        seed
    }

    /// Advances the vruntime floor to `candidate` if that is larger.
    pub fn advance_min_vruntime(&mut self, candidate: u64)
        ensures
            *final(self) == (HybridShared {
                min_vruntime: advanced(old(self).min_vruntime, candidate),
                ..*old(self)
            }),
    {
        if candidate > self.min_vruntime {
            self.min_vruntime = candidate;
        }
    }

    /// Takes note of what the first pass found: a floor, unless nothing was
    /// active.
    pub fn note_survey(&mut self, survey: &Survey)
        ensures
            *final(self) == (HybridShared {
                min_vruntime: floor_after(old(self).min_vruntime, survey.active_min),
                ..*old(self)
            }),
    {
        if survey.active_min < u64::MAX {
            self.advance_min_vruntime(survey.active_min);
        }
    }

    /// Records the state in which slot `idx` is seen. A task that wakes up
    /// earns wake credit and starts a new burst.
    pub fn observe_state(&mut self, idx: usize, state: ProcState)
        requires
            idx < NPROC,
        ensures
            observed(*old(self), idx as int, state, *final(self)),
            old(self).inv() ==> final(self).inv(),
    {
        let code: u8 = state_code(state);
        let prev: u8 = self.last_state[idx];
        self.last_state[idx] = code;
        if prev == STATE_SLEEPING && code == STATE_RUNNABLE {
            let credit: u64 = self.wake_credit[idx].saturating_add(WAKE_CREDIT_STEP);
            self.wake_credit[idx] = if credit < MAX_WAKE_CREDIT { credit } else { MAX_WAKE_CREDIT };
            self.run_burst[idx] = 0;
        }
    }
}

/// Slot `idx` was seen in `state`: `s` are the tables before, `s2` after.
pub open spec fn observed(s: HybridShared, idx: int, state: ProcState, s2: HybridShared) -> bool {
    &&& s2.last_state@ == s.last_state@.update(idx, code_of(state))
    &&& s2.wake_credit@ == if s.wakes(idx, state) {
        s.wake_credit@.update(
            idx,
            min_int(s.wake_credit@[idx] + WAKE_CREDIT_STEP, MAX_WAKE_CREDIT as int) as u64,
        )
    } else {
        s.wake_credit@
    }
    &&& s2.run_burst@ == if s.wakes(idx, state) {
        s.run_burst@.update(idx, 0)
    } else {
        s.run_burst@
    }
    &&& s2 == HybridShared {
        last_state: s2.last_state,
        wake_credit: s2.wake_credit,
        run_burst: s2.run_burst,
        ..s
    }
}

/// The reward for an epoch: many dispatches over many slots, with short waits
/// and little lag.
pub open spec fn reward_of(
    dispatches: u64,
    coverage: int,
    max_wait: u64,
    max_lag: u64,
) -> int {
    let gained = sat_i64(sat_i64(reinterpret_i64(dispatches) * 8) + sat_i64(coverage * 16));
    let waited = sat_i64(gained - sat_i64(reinterpret_i64(max_wait) * 16));
    sat_i64(waited - sat_i64(reinterpret_i64(max_lag) * 4))
}

impl HybridDrl {
    pub open spec fn wf(self) -> bool {
        self.rng.wf()
    }

    /// The reward for the current epoch.
    pub open spec fn reward(self) -> int {
        reward_of(
            self.epoch_dispatches,
            ones_below(self.epoch_dispatch_mask, 64) as int,
            self.epoch_max_wait,
            self.epoch_max_lag,
        )
    }

    /// The perturbation of this epoch did not pay: there is a previous reward
    /// other than 0, and this one is no better.
    pub open spec fn rejects(self) -> bool {
        self.prev_reward != 0 && self.reward() <= self.prev_reward
    }

    /// By how much the learner moves a deadline.
    pub open spec fn adjustment(self, features: Seq<i64>) -> int {
        clamp_int(
            -div_toward_zero(self.net.score(features), SCALE as int),
            -MAX_DRL_ADJ as int,
            MAX_DRL_ADJ as int,
        )
    }

    /// The deadline of slot `i` as the learner shapes it.
    pub open spec fn effective_deadline(
        self,
        shared: HybridShared,
        i: int,
        round: u64,
        avg_vruntime: u64,
    ) -> int {
        let vruntime = shared.vruntime@[i];
        let deadline = shared.deadline@[i];
        sat_u64(
            deadline + self.adjustment(
                feature_vector(shared, i, round, avg_vruntime, vruntime, deadline),
            ),
        )
    }

    /// The eligible runnable tasks, which compete by their shaped deadline.
    pub open spec fn deadline_keys(
        self,
        shared: HybridShared,
        states: Seq<ProcState>,
        round: u64,
        avg_vruntime: u64,
    ) -> Seq<Option<int>> {
        Seq::new(
            NPROC as nat,
            |i: int|
                if states[i] == ProcState::RUNNABLE && eligible(
                    shared.vruntime@[i],
                    avg_vruntime,
                ) && self.effective_deadline(shared, i, round, avg_vruntime) < u64::MAX {
                    Some(self.effective_deadline(shared, i, round, avg_vruntime))
                } else {
                    None
                },
        )
    }

    /// A learner with the warm-start weights and the given seed.
    pub fn new(seed: u64) -> (r: Self)
        ensures
            r.wf(),
            warm_start(r),
            r.rng@ == (if seed == 0 {
                1
            } else {
                seed
            }),
    {
        let mut w1: [[i64; NUM_FEATURES]; HIDDEN_SIZE] = [[0;NUM_FEATURES];HIDDEN_SIZE];
        w1[0] = [640, 320, 640, 256, 384, -256];
        w1[1] = [256, 768, 128, 512, 128, -128];
        w1[2] = [0, 0, 0, 0, 0, 768];

        let mut w2: [i64; HIDDEN_SIZE] = [0;HIDDEN_SIZE];
        w2[0] = 512;
        w2[1] = 384;
        w2[2] = -384;

        assert(w1@[0]@ =~= seq![640i64, 320, 640, 256, 384, -256 as i64]);
        assert(w1@[1]@ =~= seq![256i64, 768, 128, 512, 128, -128 as i64]);
        assert(w1@[2]@ =~= seq![0i64, 0, 0, 0, 0, 768]);
        assert(w2@ =~= seq![512i64, 384, -384 as i64, 0, 0, 0, 0, 0]);
        HybridDrl {
            net: Network::new(w1, w2),
            epoch_dispatches: 0,
            epoch_max_wait: 0,
            epoch_max_lag: 0,
            epoch_dispatch_mask: 0,
            prev_reward: 0,
            rng: XorShift64::new(seed),
        }
    }

    /// Scores a feature vector.
    pub fn forward(&self, features: &[i64; NUM_FEATURES]) -> (r: i64)
        ensures
            r == self.net.score(features@),
    {
        self.net.forward(features)
    }

    /// Perturbs all weights at random.
    pub fn apply_perturbation(&mut self)
        requires
            old(self).wf(),
        ensures
            final(self).wf(),
            perturbed(old(self).net, final(self).net, old(self).rng@, PERTURB_MAG),
            final(self).rng@ == state_after(
                old(self).rng@,
                draws_per_perturbation(NUM_FEATURES as int),
            ),
            *final(self) == (HybridDrl {
                net: final(self).net,
                rng: final(self).rng,
                ..*old(self)
            }),
    {
        self.net.apply_perturbation(&mut self.rng, PERTURB_MAG);
    }

    /// Takes the last perturbation back.
    pub fn revert_perturbation(&mut self)
        ensures
            reverted(old(self).net, final(self).net),
            *final(self) == (HybridDrl { net: final(self).net, ..*old(self) }),
    {
        self.net.revert_perturbation();
    }

    /// Ends an epoch: keeps the perturbation if the reward improved, else
    /// takes it back, and tries another. A previous reward of 0 stands for none,
    /// and the perturbation is kept.
    pub fn learn(&mut self)
        requires
            old(self).wf(),
        ensures
            final(self).wf(),
            learned(*old(self), *final(self)),
    {
        let ghost before = *self;
        let coverage: i64 = count_ones(self.epoch_dispatch_mask) as i64;
        let gained: i64 = saturating_add(
            saturating_mul(as_i64(self.epoch_dispatches), 8),
            saturating_mul(coverage, 16),
        );
        let waited: i64 = saturating_sub(gained, saturating_mul(as_i64(self.epoch_max_wait), 16));
        let reward: i64 = saturating_sub(waited, saturating_mul(as_i64(self.epoch_max_lag), 4));

        if self.prev_reward != 0 && reward <= self.prev_reward {
            self.revert_perturbation();
        }
        let ghost base = self.net;

        self.apply_perturbation();
        self.prev_reward = reward;
        self.epoch_dispatches = 0;
        self.epoch_max_wait = 0;
        self.epoch_max_lag = 0;
        self.epoch_dispatch_mask = 0;
        assert(learned_from(before, base, *self));
    }

    /// The inputs of the learner for slot `idx`, how many rounds the task has
    /// waited, and how far it is behind the mean.
    pub fn features(
        shared: &HybridShared,
        idx: usize,
        round: u64,
        avg_vruntime: u64,
        vruntime: u64,
        deadline: u64,
    ) -> (r: ([i64; NUM_FEATURES], u64, u64))
        requires
            idx < NPROC,
        ensures
            r.0@ == feature_vector(*shared, idx as int, round, avg_vruntime, vruntime, deadline),
            r.1 == waited(*shared, idx as int, round),
            r.2 == sat_u64(avg_vruntime - vruntime),
    {
        let last: u64 = shared.last_run[idx];
        let count: u64 = shared.run_count[idx];
        let wait: u64 = round.saturating_sub(last);
        let rounds: u64 = if round > 1 { round } else { 1 };
        let part: u64 = saturating_mul_u64(count, SCALE as u64) / rounds;
        let share: i64 = if part < SCALE as u64 { part as i64 } else { SCALE };
        let deficit: i64 = SCALE - share;
        let lag: u64 = avg_vruntime.saturating_sub(vruntime);
        let wake: u64 = shared.wake_credit[idx];
        let deadline_slack: u64 = deadline.saturating_sub(vruntime);
        let run_burst: u64 = shared.run_burst[idx];
        let features: [i64; NUM_FEATURES] = [
            clamp_scale(wait, WAIT_CLAMP),
            deficit,
            clamp_scale(wake, MAX_WAKE_CREDIT),
            clamp_scale(lag, LAG_CLAMP),
            SCALE - clamp_scale(deadline_slack, DEADLINE_CLAMP),
            clamp_scale(run_burst, RUN_BURST_CLAMP),
        ];
        assert(features@ =~= feature_vector(
            *shared,
            idx as int,
            round,
            avg_vruntime,
            vruntime,
            deadline,
        ));
        (features, wait, lag)
    }

    /// By how much the learner moves the deadline of a task with these features.
    pub fn deadline_adjustment(&self, features: &[i64; NUM_FEATURES]) -> (r: i64)
        ensures
            r == self.adjustment(features@),
            -MAX_DRL_ADJ <= r <= MAX_DRL_ADJ,
    {
        let raw: i64 = divide(self.forward(features), SCALE);
        if -raw < -MAX_DRL_ADJ {
            -MAX_DRL_ADJ
        } else if -raw > MAX_DRL_ADJ {
            MAX_DRL_ADJ
        } else {
            -raw
        }
    }

    /// First pass: the mean vruntime and the floor.
    pub fn survey(&self, shared: &HybridShared, states: &[ProcState; NPROC]) -> (r: Survey)
        ensures
            r.avg_vruntime == mean_vruntime(shared.vruntime@, states@),
            is_active_min(shared.vruntime@, states@, r.active_min),
    {
        survey(&shared.vruntime, states)
    }

    /// Both passes: surveys the active tasks, notes the floor and chooses.
    pub fn scan(
        &self,
        shared: &mut HybridShared,
        surveyed: &[ProcState; NPROC],
        states: &[ProcState; NPROC],
        round: u64,
    ) -> (r: (Survey, Option<HybridChoice>))
        ensures
            scanned(*self, *old(shared), surveyed@, states@, round, r.0, *final(shared), r.1),
            old(shared).inv() ==> final(shared).inv(),
    {
        let survey: Survey = self.survey(shared, surveyed);
        shared.note_survey(&survey);
        let choice: Option<HybridChoice> = self.select(
            shared,
            states,
            round,
            survey.avg_vruntime,
        );
        (survey, choice)
    }

    /// Second pass: the eligible runnable task with the earliest shaped
    /// deadline, or the runnable task with the lowest vruntime if none is
    /// eligible.
    pub fn select(
        &self,
        shared: &HybridShared,
        states: &[ProcState; NPROC],
        round: u64,
        avg_vruntime: u64,
    ) -> (pick: Option<HybridChoice>)
        ensures
            picks_preferred(
                self.deadline_keys(*shared, states@, round, avg_vruntime),
                vruntime_keys(shared.vruntime@, states@),
                slot_of(pick),
            ),
            pick matches Some(choice) ==> choice.round == round && choice.avg_vruntime
                == avg_vruntime,
    {
        let ghost preferred = self.deadline_keys(*shared, states@, round, avg_vruntime);
        let ghost others = vruntime_keys(shared.vruntime@, states@);
        let mut best: Best = Best::new();
        let mut fallback: Best = Best::new();
        assert(best.after(preferred, 0, 0));
        assert(fallback.after(others, 0, 0));
        let mut i: usize = 0;
        while i < NPROC
            invariant
                i <= NPROC,
                preferred == self.deadline_keys(*shared, states@, round, avg_vruntime),
                others == vruntime_keys(shared.vruntime@, states@),
                best.after(preferred, 0, i as int),
                fallback.after(others, 0, i as int),
            decreases NPROC - i,
        {
            assert(turn(0, i as int) == i);
            if states[i] == ProcState::RUNNABLE {
                let vrt: u64 = shared.vruntime[i];
                let dl: u64 = shared.deadline[i];
                let (features, _wait, _lag) = Self::features(
                    shared,
                    i,
                    round,
                    avg_vruntime,
                    vrt,
                    dl,
                );
                let effective: u64 = apply_deadline_adjustment(
                    dl,
                    self.deadline_adjustment(&features),
                );
                if vrt <= avg_vruntime.saturating_add(ELIGIBILITY_SLACK) {
                    proof {
                        lemma_offer(best, preferred, 0, i as int, i, effective);
                    }
                    best.offer(i, effective);
                } else {
                    proof {
                        lemma_skip(best, preferred, 0, i as int, i as int);
                    }
                }
                proof {
                    lemma_offer(fallback, others, 0, i as int, i, vrt);
                }
                fallback.offer(i, vrt);
            } else {
                proof {
                    lemma_skip(best, preferred, 0, i as int, i as int);
                    lemma_skip(fallback, others, 0, i as int, i as int);
                }
            }
            i = i + 1;
        }
        proof {
            assert(forall|k: int| 0 <= k < NPROC ==> turn(0, k) < NPROC);
        }
        match best.pick {
            Some(idx) => Some(HybridChoice { idx, round, avg_vruntime }),
            None => match fallback.pick {
                Some(idx) => Some(HybridChoice { idx, round, avg_vruntime }),
                None => None,
            },
        }
    }
}

/// A scan of the tables `s`, of which the first pass saw the states `surveyed`
/// and the second `states`, found `survey`, left the tables `noted` and led to
/// `choice`.
pub open spec fn scanned(
    h: HybridDrl,
    s: HybridShared,
    surveyed: Seq<ProcState>,
    states: Seq<ProcState>,
    round: u64,
    survey: Survey,
    noted: HybridShared,
    choice: Option<HybridChoice>,
) -> bool {
    &&& survey.avg_vruntime == mean_vruntime(s.vruntime@, surveyed)
    &&& is_active_min(s.vruntime@, surveyed, survey.active_min)
    &&& noted == HybridShared {
        min_vruntime: floor_after(s.min_vruntime, survey.active_min),
        ..s
    }
    &&& picks_preferred(
        h.deadline_keys(noted, states, round, survey.avg_vruntime),
        vruntime_keys(noted.vruntime@, states),
        slot_of(choice),
    )
    &&& choice matches Some(c) ==> c.round == round && c.avg_vruntime == survey.avg_vruntime
}

/// The slot of a choice.
pub open spec fn slot_of(choice: Option<HybridChoice>) -> Option<usize> {
    match choice {
        Some(c) => Some(c.idx),
        None => None,
    }
}

/// A task is eligible if it has not received more than its share, give or take
/// the slack.
pub open spec fn eligible(vruntime: u64, avg_vruntime: u64) -> bool {
    vruntime <= sat_u64(avg_vruntime + ELIGIBILITY_SLACK)
}

/// The weights that a learner starts from: three neurons are in use.
pub open spec fn warm_start(h: HybridDrl) -> bool {
    &&& h.net.w1@[0]@ == seq![640i64, 320, 640, 256, 384, -256 as i64]
    &&& h.net.w1@[1]@ == seq![256i64, 768, 128, 512, 128, -128 as i64]
    &&& h.net.w1@[2]@ == seq![0i64, 0, 0, 0, 0, 768]
    &&& forall|j: int, k: int|
        3 <= j < HIDDEN_SIZE && 0 <= k < NUM_FEATURES ==> #[trigger] h.net.w1@[j]@[k] == 0
    &&& h.net.w2@ == seq![512i64, 384, -384 as i64, 0, 0, 0, 0, 0]
    &&& forall|j: int| 0 <= j < HIDDEN_SIZE ==> #[trigger] h.net.b1@[j] == 0
    &&& h.net.b2 == 0
    &&& unperturbed(h.net)
    &&& h.epoch_dispatches == 0
    &&& h.epoch_max_wait == 0
    &&& h.epoch_max_lag == 0
    &&& h.epoch_dispatch_mask == 0
    &&& h.prev_reward == 0
}

/// `post` is `pre` after a learning step.
pub open spec fn learned(pre: HybridDrl, post: HybridDrl) -> bool {
    exists|base: Network<NUM_FEATURES>| learned_from(pre, base, post)
}

/// `post` is `pre` after a learning step that perturbed `base`: the network of
/// `pre`, with its perturbation taken back if that was rejected.
pub open spec fn learned_from(
    pre: HybridDrl,
    base: Network<NUM_FEATURES>,
    post: HybridDrl,
) -> bool {
    &&& if pre.rejects() {
        reverted(pre.net, base)
    } else {
        base == pre.net
    }
    &&& perturbed(base, post.net, pre.rng@, PERTURB_MAG)
    &&& post.rng@ == state_after(pre.rng@, draws_per_perturbation(NUM_FEATURES as int))
    &&& post.prev_reward == pre.reward()
    &&& post.epoch_dispatches == 0
    &&& post.epoch_max_wait == 0
    &&& post.epoch_max_lag == 0
    &&& post.epoch_dispatch_mask == 0
}

/// Slot `choice.idx` was switched in: `h` and `s` are the learner and the
/// tables before, `h2` and `s2` after.
pub open spec fn begun(
    h: HybridDrl,
    s: HybridShared,
    choice: HybridChoice,
    h2: HybridDrl,
    s2: HybridShared,
) -> bool {
    let i = choice.idx as int;
    let v = clamped(s.vruntime@[i], s.min_vruntime, WAKEUP_LAG_LIMIT);
    &&& s2.vruntime@ == s.vruntime@.update(i, v)
    &&& s2.deadline@ == s.deadline@.update(i, renewed(s.deadline@[i], v, SCHED_SLICE) as u64)
    &&& s2 == HybridShared { vruntime: s2.vruntime, deadline: s2.deadline, ..s }
    &&& h2.epoch_dispatches == sat_u64(h.epoch_dispatches + 1)
    &&& h2.epoch_max_wait == max_int(h.epoch_max_wait as int, waited(s, i, choice.round))
    &&& h2.epoch_max_lag == max_int(h.epoch_max_lag as int, sat_u64(choice.avg_vruntime - v))
    &&& forall|k: int|
        0 <= k < 64 ==> #[trigger] bit(h2.epoch_dispatch_mask, k) == (bit(
            h.epoch_dispatch_mask,
            k,
        ) || k == i)
    &&& h2.net == h.net
    &&& h2.prev_reward == h.prev_reward
    &&& h2.rng == h.rng
}

/// Slot `i` handed the CPU back: `s` are the tables before, `s2` after.
pub open spec fn charged(s: HybridShared, i: int, s2: HybridShared) -> bool {
    let v = s.vruntime@[i] + SCHED_MIN_GRANULARITY;
    &&& s2.vruntime@ == s.vruntime@.update(i, v as u64)
    &&& s2.deadline@ == s.deadline@.update(
        i,
        renewed(s.deadline@[i], v as u64, SCHED_SLICE) as u64,
    )
    &&& s2.last_run@ == s.last_run@.update(i, sat_u64(s.round + 1) as u64)
    &&& s2.run_count@ == s.run_count@.update(i, wrap_inc(s.run_count@[i]))
    &&& s2.run_burst@ == s.run_burst@.update(i, wrap_inc(s.run_burst@[i]))
    &&& s2.wake_credit@ == s.wake_credit@.update(i, sat_u64(s.wake_credit@[i] - 1) as u64)
    &&& s2.round == wrap_inc(s.round)
    &&& s2.last_state == s.last_state
    &&& s2.min_vruntime == s.min_vruntime
    &&& s2.seed_ctr == s.seed_ctr
}

impl Scheduler for HybridDrl {
    type Shared = HybridShared;

    type Choice = HybridChoice;

    open spec fn begin_ok(self, shared: HybridShared, choice: HybridChoice) -> bool {
        &&& choice.idx < NPROC
        &&& {
            let i = choice.idx as int;
            let v = clamped(shared.vruntime@[i], shared.min_vruntime, WAKEUP_LAG_LIMIT);
            renewed(shared.deadline@[i], v, SCHED_SLICE) <= u64::MAX
        }
    }

    open spec fn finish_ok(self, shared: HybridShared, choice: HybridChoice) -> bool {
        &&& self.wf()
        &&& choice.idx < NPROC
        &&& shared.vruntime@[choice.idx as int] + SCHED_MIN_GRANULARITY <= u64::MAX
        &&& renewed(
            shared.deadline@[choice.idx as int],
            (shared.vruntime@[choice.idx as int] + SCHED_MIN_GRANULARITY) as u64,
            SCHED_SLICE,
        ) <= u64::MAX
    }

    fn can_begin(&self, shared: &HybridShared, choice: &HybridChoice) -> (b: bool) {
        if choice.idx >= NPROC {
            return false;
        }
        let v: u64 = clamp_vruntime(
            shared.vruntime[choice.idx],
            shared.min_vruntime,
            WAKEUP_LAG_LIMIT,
        );
        shared.deadline[choice.idx] > v || v <= u64::MAX - SCHED_SLICE
    }

    fn begin(
        &mut self,
        shared: &mut HybridShared,
        choice: &HybridChoice,
        state: ProcState,
    ) -> (run: bool)
        ensures
            run == (state == ProcState::RUNNABLE),
            run ==> begun(*old(self), *old(shared), *choice, *final(self), *final(shared)),
            old(shared).inv() ==> final(shared).inv(),
    {
        if state != ProcState::RUNNABLE {
            return false;
        }
        proof {
            lemma_default_weight(SCHED_SLICE as int);
        }
        let idx: usize = choice.idx;
        let vrt: u64 = clamp_vruntime(shared.vruntime[idx], shared.min_vruntime, WAKEUP_LAG_LIMIT);
        shared.vruntime[idx] = vrt;
        let dl: u64 = shared.deadline[idx];
        let (_features, wait, lag) = Self::features(
            shared,
            idx,
            choice.round,
            choice.avg_vruntime,
            vrt,
            dl,
        );
        self.epoch_dispatches = self.epoch_dispatches.saturating_add(1);
        if wait > self.epoch_max_wait {
            self.epoch_max_wait = wait;
        }
        if lag > self.epoch_max_lag {
            self.epoch_max_lag = lag;
        }
        self.epoch_dispatch_mask = with_bit(self.epoch_dispatch_mask, idx);
        if dl <= vrt {
            shared.deadline[idx] = vrt + calc_slice_vruntime(NICE_0_WEIGHT);
        }
        assert(shared.deadline@ =~= old(shared).deadline@.update(
            idx as int,
            renewed(dl, vrt, SCHED_SLICE) as u64,
        ));
        true
    }

    fn can_finish(&self, shared: &HybridShared, choice: &HybridChoice) -> (b: bool) {
        if choice.idx >= NPROC || !self.rng.is_seeded() {
            return false;
        }
        let vrt: u64 = shared.vruntime[choice.idx];
        if vrt > u64::MAX - SCHED_MIN_GRANULARITY {
            return false;
        }
        let new_vrt: u64 = vrt + SCHED_MIN_GRANULARITY;
        shared.deadline[choice.idx] > new_vrt || new_vrt <= u64::MAX - SCHED_SLICE
    }

    fn finish(&mut self, shared: &mut HybridShared, choice: &HybridChoice)
        ensures
            charged(*old(shared), choice.idx as int, *final(shared)),
            old(shared).inv() ==> final(shared).inv(),
            final(self).wf(),
            if old(self).epoch_dispatches >= EPOCH_LEN {
                learned(*old(self), *final(self))
            } else {
                *final(self) == *old(self)
            },
    {
        proof {
            lemma_default_weight(SCHED_SLICE as int);
            lemma_default_weight(SCHED_MIN_GRANULARITY as int);
        }
        let idx: usize = choice.idx;
        let delta: u64 = calc_delta(SCHED_MIN_GRANULARITY, NICE_0_WEIGHT);
        let new_vrt: u64 = shared.vruntime[idx] + delta;
        shared.vruntime[idx] = new_vrt;
        let new_round: u64 = shared.round.saturating_add(1);
        shared.round = shared.round.wrapping_add(1);
        shared.last_run[idx] = new_round;
        shared.run_count[idx] = shared.run_count[idx].wrapping_add(1);
        shared.run_burst[idx] = shared.run_burst[idx].wrapping_add(1);
        shared.wake_credit[idx] = shared.wake_credit[idx].saturating_sub(1);

        let dl: u64 = shared.deadline[idx];
        if new_vrt >= dl {
            shared.deadline[idx] = new_vrt + calc_slice_vruntime(NICE_0_WEIGHT);
        }
        assert(shared.deadline@ =~= old(shared).deadline@.update(
            idx as int,
            renewed(dl, new_vrt, SCHED_SLICE) as u64,
        ));

        if self.epoch_dispatches >= EPOCH_LEN {
            self.learn();
        }
    }
}

/// The learner moves a deadline by at most `MAX_DRL_ADJ` in either direction.
pub proof fn lemma_adjustment_bounded(
    h: HybridDrl,
    shared: HybridShared,
    i: int,
    round: u64,
    avg_vruntime: u64,
)
    ensures
        shared.deadline@[i] - MAX_DRL_ADJ <= h.effective_deadline(shared, i, round, avg_vruntime)
            <= shared.deadline@[i] + MAX_DRL_ADJ,
        0 <= h.effective_deadline(shared, i, round, avg_vruntime) <= u64::MAX,
{
}

/// Whatever the learner has come to prefer, an ineligible task runs only if no
/// eligible one can, and a task is run before an eligible one with an earlier
/// deadline only if the two deadlines are close: at most twice the largest
/// adjustment apart.
pub proof fn lemma_learning_keeps_baseline(
    h: HybridDrl,
    shared: HybridShared,
    states: Seq<ProcState>,
    round: u64,
    avg_vruntime: u64,
    pick: Option<usize>,
    q: int,
)
    requires
        picks_preferred(
            h.deadline_keys(shared, states, round, avg_vruntime),
            vruntime_keys(shared.vruntime@, states),
            pick,
        ),
        0 <= q < NPROC,
        states[q] == ProcState::RUNNABLE,
        eligible(shared.vruntime@[q], avg_vruntime),
        shared.deadline@[q] < u64::MAX - MAX_DRL_ADJ,
    ensures
        pick is Some,
        states[pick->0 as int] == ProcState::RUNNABLE,
        eligible(shared.vruntime@[pick->0 as int], avg_vruntime),
        shared.deadline@[pick->0 as int] <= shared.deadline@[q] + 2 * MAX_DRL_ADJ,
{
    let keys = h.deadline_keys(shared, states, round, avg_vruntime);
    lemma_adjustment_bounded(h, shared, q, round, avg_vruntime);
    assert(keys[q] is Some);
    assert(turn(0, q) == q);
    if pick is Some {
        let p = pick->0 as int;
        assert(keys[p] is Some);
        assert(precedes(keys, 0, p, q));
        lemma_adjustment_bounded(h, shared, p, round, avg_vruntime);
    }
}

/// If no runnable task is eligible, the one that got the least CPU runs.
pub proof fn lemma_fallback_is_least_vruntime(
    h: HybridDrl,
    shared: HybridShared,
    states: Seq<ProcState>,
    round: u64,
    avg_vruntime: u64,
    pick: usize,
    q: int,
)
    requires
        picks_preferred(
            h.deadline_keys(shared, states, round, avg_vruntime),
            vruntime_keys(shared.vruntime@, states),
            Some(pick),
        ),
        forall|i: int|
            0 <= i < NPROC && states[i] == ProcState::RUNNABLE ==> !eligible(
                #[trigger] shared.vruntime@[i],
                avg_vruntime,
            ),
        0 <= q < NPROC,
        states[q] == ProcState::RUNNABLE,
    ensures
        pick < NPROC,
        states[pick as int] == ProcState::RUNNABLE,
        shared.vruntime@[pick as int] <= shared.vruntime@[q],
{
    let preferred = h.deadline_keys(shared, states, round, avg_vruntime);
    let others = vruntime_keys(shared.vruntime@, states);
    assert forall|i: int| 0 <= i < NPROC implies #[trigger] preferred[i] is None by {
        if states[i] == ProcState::RUNNABLE {
            assert(!eligible(shared.vruntime@[i], avg_vruntime));
        }
    }
    assert(turn(0, q) == q);
    assert(others[pick as int] is Some);
    if others[q] is Some {
        assert(precedes(others, 0, pick as int, q));
    }
}

/// Every input of the learner is a fraction between 0 and 1.
pub proof fn lemma_features_bounded(
    shared: HybridShared,
    idx: int,
    round: u64,
    avg_vruntime: u64,
    vruntime: u64,
    deadline: u64,
    k: int,
)
    requires
        0 <= k < NUM_FEATURES,
    ensures
        0 <= feature_vector(shared, idx, round, avg_vruntime, vruntime, deadline)[k] <= SCALE,
{
    let part = sat_u64(shared.run_count@[idx] * SCALE);
    let rounds = max_int(round as int, 1);
    assert(part / rounds >= 0) by (nonlinear_arith)
        requires
            part >= 0,
            rounds > 0,
    ;
}

/// A task that is switched in, or that hands the CPU back, has a deadline
/// ahead of its vruntime, and at most a slice ahead.
pub proof fn lemma_deadline_ahead(
    h: HybridDrl,
    s: HybridShared,
    choice: HybridChoice,
    h2: HybridDrl,
    s2: HybridShared,
    s3: HybridShared,
    s4: HybridShared,
)
    requires
        s.inv(),
        s3.inv(),
        h.begin_ok(s, choice),
        begun(h, s, choice, h2, s2),
        h2.finish_ok(s3, choice),
        charged(s3, choice.idx as int, s4),
    ensures
        s2.vruntime@[choice.idx as int] < s2.deadline@[choice.idx as int]
            <= s2.vruntime@[choice.idx as int] + SCHED_SLICE,
        s4.vruntime@[choice.idx as int] < s4.deadline@[choice.idx as int]
            <= s4.vruntime@[choice.idx as int] + SCHED_SLICE,
{
}

/// A task that wakes up earns some credit and starts a new burst, and its next
/// turn spends one unit of the credit.
pub proof fn lemma_wake_credit_spent(s: HybridShared, idx: int, s2: HybridShared, s3: HybridShared)
    requires
        0 <= idx < NPROC,
        s.inv(),
        s.wakes(idx, ProcState::RUNNABLE),
        observed(s, idx, ProcState::RUNNABLE, s2),
        charged(s2, idx, s3),
    ensures
        s2.wake_credit@[idx] <= s.wake_credit@[idx] + WAKE_CREDIT_STEP,
        s2.wake_credit@[idx] > 0,
        s3.wake_credit@[idx] == s2.wake_credit@[idx] - 1,
        s2.run_burst@[idx] == 0,
        s3.run_burst@[idx] == 1,
{
}

/// Of two successive networks the better one stays. If the last perturbation
/// turned `start` into the network of `pre` and did not pay, the next one is
/// applied to the weights of `start` again; otherwise, and where the previous
/// reward was 0, to those of `pre`. The saturation of a weight is left out.
pub proof fn lemma_better_weights_stay(
    start: Network<NUM_FEATURES>,
    s: u64,
    pre: HybridDrl,
    post: HybridDrl,
)
    requires
        perturbed(start, pre.net, s, PERTURB_MAG),
        within_limits(start, pre.net),
        learned(pre, post),
    ensures
        exists|base: Network<NUM_FEATURES>|
            #[trigger] perturbed(base, post.net, pre.rng@, PERTURB_MAG) && same_weights(
                if pre.rejects() {
                    start
                } else {
                    pre.net
                },
                base,
            ),
{
    let base = choose|base: Network<NUM_FEATURES>| learned_from(pre, base, post);
    assert(learned_from(pre, base, post));
    if pre.rejects() {
        lemma_revert_undoes_perturbation(start, pre.net, base, s, PERTURB_MAG);
    }
    assert(perturbed(base, post.net, pre.rng@, PERTURB_MAG));
}

/// The counter of seeds after `n` of them were handed out.
pub open spec fn seeds_handed_out(seed_ctr: u64, n: nat) -> u64
    decreases n,
{
    if n == 0 {
        seed_ctr
    } else {
        ((seeds_handed_out(seed_ctr, (n - 1) as nat) + SEED_STEP) % 0x1_0000_0000_0000_0000) as u64
    }
}

proof fn lemma_counter_steps(seed_ctr: u64, n: nat)
    ensures
        seeds_handed_out(seed_ctr, n) == (seed_ctr + n * SEED_STEP) % 0x1_0000_0000_0000_0000,
    decreases n,
{
    if n > 0 {
        lemma_counter_steps(seed_ctr, (n - 1) as nat);
        lemma_wraps_once(seed_ctr + (n - 1) * SEED_STEP, SEED_STEP as int);
        assert(n * SEED_STEP == (n - 1) * SEED_STEP + SEED_STEP) by (nonlinear_arith);
    } else {
        assert(0 * SEED_STEP == 0);
    }
}

/// No two CPUs start from the same seed, as long as there are no more of them
/// than slots in the process table.
pub proof fn lemma_seeds_differ(seed_ctr: u64, n: nat)
    requires
        0 < n <= NPROC,
    ensures
        (seeds_handed_out(seed_ctr, n) + SEED_BASE) % 0x1_0000_0000_0000_0000 != (seed_ctr
            + SEED_BASE) % 0x1_0000_0000_0000_0000,
{
    lemma_counter_steps(seed_ctr, n);
    lemma_steps_do_not_return(n);
}

proof fn lemma_steps_do_not_return(n: nat)
    requires
        0 < n <= NPROC,
    ensures
        (n * SEED_STEP) % 0x1_0000_0000_0000_0000 != 0,
{
}

} // verus!
