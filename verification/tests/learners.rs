use octox::arith::{count_ones, divide, saturating_add, saturating_mul, saturating_mul_u64};
use octox::arith::{as_i64, saturating_sub, with_bit};
use octox::prng::XorShift64;
use octox::process::{ProcState, NPROC};
use octox::scheduler::drl::{self, Drl, DrlShared};
use octox::scheduler::hybrid_drl::{
    self, apply_deadline_adjustment, clamp_scale, state_code, HybridChoice, HybridDrl,
    HybridShared,
};
use octox::scheduler::Scheduler;

#[test]
fn saturating_arithmetic_no_overflow() {
    assert_eq!(saturating_add(i64::MAX, 1), i64::MAX);
    assert_eq!(saturating_sub(i64::MIN, 1), i64::MIN);
    assert_eq!(saturating_add(0, 0), 0);
}

#[test]
fn arithmetic_at_the_limits() {
    assert_eq!(saturating_mul(i64::MIN, -1), i64::MAX);
    assert_eq!(saturating_mul(i64::MAX, -2), i64::MIN);
    assert_eq!(saturating_mul(-3, 4), -12);
    assert_eq!(saturating_mul_u64(u64::MAX, 2), u64::MAX);
    assert_eq!(saturating_mul_u64(3, 1024), 3072);
    assert_eq!(divide(-7, 2), -3);
    assert_eq!(divide(7, -2), -3);
    assert_eq!(as_i64(u64::MAX), -1);
    assert_eq!(count_ones(0xF0F0), 8);
    assert_eq!(with_bit(1, 63), (1u64 << 63) | 1);
}

#[test]
fn generator_draws() {
    let mut rng = XorShift64::new(0);
    assert!(rng.is_seeded());
    assert_eq!(rng.next_u64(), 1082269761);
    assert_eq!(rng.next_u64(), 1152992998833853505);
    assert_eq!(rng.next_u64(), 11177516664432764457);

    let mut rng = XorShift64::new(42);
    let draws: Vec<i64> = (0..8).map(|_| rng.next_i64_inclusive(-24, 24)).collect();
    assert_eq!(draws, vec![-5, -7, -15, 21, 15, -1, -22, -8]);
    assert_eq!(rng.next_i64_inclusive(3, 3), 3);
}

#[test]
fn drl_scores_of_the_warm_start() {
    let sched = Drl::new(drl::SEED_BASE);
    assert_eq!(sched.forward(&[10, 1024, 0, 512]), 419);
    assert_eq!(sched.forward(&[1024, 1024, 1024, 512]), 1184);
    assert_eq!(sched.forward(&[512, 0, 1024, 512]), 512);
    assert_eq!(sched.forward(&[0, 0, 0, 512]), 0);
}

#[test]
fn drl_perturbation_and_its_reversal() {
    let mut sched = Drl::new(drl::SEED_BASE);
    let before = sched.net;
    sched.apply_perturbation();
    assert_eq!(sched.net.w1[0], [762, 279, 272, -11]);
    assert_eq!(sched.net.b1[0], 19);
    assert_eq!(sched.net.w2[0], 529);
    assert_eq!(sched.net.w1[7], [1, 14, -7, -19]);
    assert_eq!((sched.net.b1[7], sched.net.w2[7], sched.net.b2), (8, 23, 4));
    assert_eq!(sched.forward(&[10, 1024, 0, 512]), 450);
    sched.revert_perturbation();
    assert_eq!(sched.net.w1, before.w1);
    assert_eq!(sched.net.b1, before.b1);
    assert_eq!(sched.net.w2, before.w2);
    assert_eq!(sched.net.b2, before.b2);
    assert_eq!(sched.net.pw1, before.pw1);
}

#[test]
fn drl_learning_keeps_or_reverts() {
    let mut sched = Drl::new(7);
    sched.epoch_dispatches = 64;
    sched.epoch_max_wait = 16;
    sched.epoch_dispatch_mask = 0b1111;
    sched.apply_perturbation();
    let kept = sched.net;
    sched.learn();
    assert_eq!(sched.prev_reward, 64 * 1024 / 16 + 4 * 1024 / 64);
    for j in 0..8 {
        assert_eq!(sched.net.b1[j] - sched.net.pb1[j], kept.b1[j]);
    }
    assert_eq!(sched.epoch_dispatches, 0);

    let second = sched.net;
    sched.epoch_dispatches = 64;
    sched.epoch_max_wait = 32;
    sched.learn();
    assert_eq!(sched.prev_reward, 64 * 1024 / 32);
    for j in 0..8 {
        assert_eq!(sched.net.b1[j] - sched.net.pb1[j], second.b1[j] - second.pb1[j]);
    }
}

#[test]
fn drl_feature_values() {
    let mut shared = DrlShared::new();
    shared.last_run[2] = 10;
    shared.run_count[2] = 5;
    let (features, wait) = Drl::features(&shared, 2, 20, 20);
    assert_eq!(features, [102, 768, 1024, 512]);
    assert_eq!(wait, 10);
    let (features, wait) = Drl::features(&shared, 3, 500, 500);
    assert_eq!(features, [1024, 1024, 0, 512]);
    assert_eq!(wait, 500);
}

#[test]
fn drl_prefers_the_longest_wait() {
    let mut shared = DrlShared::new();
    let mut states = [ProcState::UNUSED; NPROC];
    shared.round = 50;
    shared.last_run[1] = 49;
    shared.last_run[2] = 20;
    shared.last_run[3] = 48;
    for i in 1..4 {
        shared.run_count[i] = 10;
        states[i] = ProcState::RUNNABLE;
    }
    let sched = Drl::new(drl::SEED_BASE);
    assert_eq!(sched.select(&shared, &states, 50), Some(2));
    assert_eq!(sched.select(&shared, &[ProcState::USED; NPROC], 50), None);
}

#[test]
fn drl_equal_scores_take_turns() {
    let shared = DrlShared::new();
    let mut states = [ProcState::UNUSED; NPROC];
    states[4] = ProcState::RUNNABLE;
    states[6] = ProcState::RUNNABLE;
    let mut sched = Drl::new(drl::SEED_BASE);
    assert_eq!(sched.select(&shared, &states, 1), Some(4));
    sched.scan_offset = 5;
    assert_eq!(sched.select(&shared, &states, 1), Some(6));
}

#[test]
fn drl_turn_is_recorded() {
    let mut shared = DrlShared::new();
    let mut sched = Drl::new(drl::SEED_BASE);
    assert!(!sched.begin(&mut shared, &6, ProcState::SLEEPING));
    assert_eq!(sched.epoch_dispatches, 0);
    assert!(sched.begin(&mut shared, &6, ProcState::RUNNABLE));
    assert_eq!(sched.epoch_dispatches, 1);
    assert_eq!(sched.epoch_max_wait, 1);
    assert_eq!(sched.epoch_dispatch_mask, 1 << 6);
    assert!(sched.can_finish(&shared, &6));
    sched.finish(&mut shared, &6);
    assert_eq!(shared.round, 2);
    assert_eq!(shared.last_run[6], 2);
    assert_eq!(shared.run_count[6], 1);
    assert_eq!(sched.scan_offset, 7);
    assert_eq!(sched.prev_reward, 0);

    sched.epoch_dispatches = drl::EPOCH_LEN;
    sched.finish(&mut shared, &63);
    assert_eq!(sched.scan_offset, 0);
    assert_eq!(sched.epoch_dispatches, 0);
    assert_eq!(sched.prev_reward, 64 * 1024 + 16);
    assert!(!sched.can_finish(&shared, &64));
}

#[test]
fn seeds_differ_from_cpu_to_cpu() {
    let mut shared = DrlShared::new();
    assert_eq!(shared.next_seed(), 0xDEAD_BEEF_0000_1337);
    assert_eq!(shared.next_seed(), 0xA9AC_79AD_0000_256B);
    let mut shared = HybridShared::new();
    assert_eq!(shared.next_seed(), 0xD1B5_4A32_D192_ED03);
    assert_eq!(
        shared.next_seed(),
        0x9E37_79B9_7F4A_7C15u64.wrapping_add(0xD1B5_4A32_D192_ED03)
    );
}

#[test]
fn hybrid_scores_of_the_warm_start() {
    let sched = HybridDrl::new(hybrid_drl::SEED_BASE);
    assert_eq!(sched.forward(&[1024; 6]), 1328);
    assert_eq!(sched.forward(&[0, 0, 0, 0, 0, 1024]), -288);
    assert_eq!(sched.forward(&[10, 1024, 0, 0, 1024, 0]), 691);
    assert_eq!(sched.deadline_adjustment(&[1024, 1024, 1024, 1024, 1024, 0]), -1);
    assert_eq!(sched.deadline_adjustment(&[10, 1024, 0, 0, 1024, 0]), 0);
}

#[test]
fn hybrid_adjustment_is_bounded() {
    let mut sched = HybridDrl::new(hybrid_drl::SEED_BASE);
    sched.net.b2 = i64::MAX;
    assert_eq!(sched.deadline_adjustment(&[0; 6]), -3);
    sched.net.b2 = i64::MIN;
    assert_eq!(sched.deadline_adjustment(&[0; 6]), 3);
    assert_eq!(apply_deadline_adjustment(2, -3), 0);
    assert_eq!(apply_deadline_adjustment(10, -3), 7);
    assert_eq!(apply_deadline_adjustment(u64::MAX, 1), u64::MAX);
}

#[test]
fn hybrid_perturbation_and_its_reversal() {
    let mut sched = HybridDrl::new(hybrid_drl::SEED_BASE);
    let before = sched.net;
    sched.apply_perturbation();
    assert_eq!(sched.net.w1[0], [639, 328, 633, 264, 377, -248]);
    assert_eq!((sched.net.b1[0], sched.net.w2[0], sched.net.b2), (7, 511, -2));
    sched.revert_perturbation();
    assert_eq!(sched.net.w1, before.w1);
    assert_eq!(sched.net.w2, before.w2);
}

#[test]
fn hybrid_reward() {
    let mut sched = HybridDrl::new(3);
    sched.epoch_dispatches = 128;
    sched.epoch_dispatch_mask = 0xFF;
    sched.epoch_max_wait = 10;
    sched.epoch_max_lag = 5;
    sched.learn();
    assert_eq!(sched.prev_reward, 128 * 8 + 8 * 16 - 10 * 16 - 5 * 4);
    assert_eq!(sched.epoch_max_lag, 0);
    let second = sched.net;
    sched.learn();
    assert_eq!(sched.prev_reward, 0);
    assert_eq!(sched.net.b2 - sched.net.pb2, second.b2 - second.pb2);
}

#[test]
fn hybrid_states_and_scales() {
    assert_eq!(state_code(ProcState::UNUSED), 0);
    assert_eq!(state_code(ProcState::USED), 1);
    assert_eq!(state_code(ProcState::SLEEPING), 2);
    assert_eq!(state_code(ProcState::RUNNABLE), 3);
    assert_eq!(state_code(ProcState::RUNNING), 4);
    assert_eq!(state_code(ProcState::ZOMBIE), 5);
    assert_eq!(clamp_scale(8, 16), 512);
    assert_eq!(clamp_scale(17, 16), 1024);
    assert_eq!(clamp_scale(5, 0), 0);
    assert_eq!(hybrid_drl::calc_slice_vruntime(1024), 4);
    assert_eq!(hybrid_drl::calc_delta(3, 512), 6);
}

#[test]
fn hybrid_wakeups_earn_credit() {
    let mut shared = HybridShared::new();
    shared.run_burst[1] = 9;
    shared.observe_state(1, ProcState::SLEEPING);
    assert_eq!(shared.run_burst[1], 9);
    shared.observe_state(1, ProcState::RUNNABLE);
    assert_eq!((shared.wake_credit[1], shared.run_burst[1]), (3, 0));
    shared.observe_state(1, ProcState::RUNNABLE);
    assert_eq!(shared.wake_credit[1], 3);
    for _ in 0..3 {
        shared.observe_state(1, ProcState::SLEEPING);
        shared.observe_state(1, ProcState::RUNNABLE);
    }
    assert_eq!(shared.wake_credit[1], 6);
}

#[test]
fn hybrid_feature_values() {
    let mut shared = HybridShared::new();
    shared.last_run[0] = 30;
    shared.run_count[0] = 10;
    shared.wake_credit[0] = 3;
    shared.run_burst[0] = 4;
    let (features, wait, lag) = HybridDrl::features(&shared, 0, 40, 20, 12, 14);
    assert_eq!(features, [102, 768, 512, 512, 896, 256]);
    assert_eq!((wait, lag), (10, 8));
}

#[test]
fn hybrid_turn_is_recorded() {
    let mut shared = HybridShared::new();
    let mut sched = HybridDrl::new(hybrid_drl::SEED_BASE);
    shared.min_vruntime = 20;
    shared.wake_credit[5] = 2;
    let choice = HybridChoice { idx: 5, round: 9, avg_vruntime: 18 };
    assert!(!sched.begin(&mut shared, &choice, ProcState::RUNNING));
    assert!(sched.can_begin(&shared, &choice));
    assert!(sched.begin(&mut shared, &choice, ProcState::RUNNABLE));
    assert_eq!((shared.vruntime[5], shared.deadline[5]), (16, 20));
    assert_eq!((sched.epoch_max_wait, sched.epoch_max_lag), (9, 2));
    assert_eq!(sched.epoch_dispatch_mask, 1 << 5);
    assert!(sched.can_finish(&shared, &choice));
    sched.finish(&mut shared, &choice);
    assert_eq!((shared.vruntime[5], shared.deadline[5]), (17, 20));
    assert_eq!((shared.round, shared.last_run[5]), (2, 2));
    assert_eq!((shared.run_count[5], shared.run_burst[5], shared.wake_credit[5]), (1, 1, 1));
    shared.vruntime[5] = u64::MAX;
    assert!(!sched.can_finish(&shared, &choice));
}

#[test]
fn hybrid_selects_by_shaped_deadline() {
    let mut shared = HybridShared::new();
    let mut states = [ProcState::UNUSED; NPROC];
    states[0] = ProcState::RUNNABLE;
    states[1] = ProcState::RUNNABLE;
    states[2] = ProcState::RUNNABLE;
    shared.vruntime[0] = 10;
    shared.deadline[0] = 14;
    shared.vruntime[1] = 11;
    shared.deadline[1] = 13;
    shared.vruntime[2] = 30;
    shared.deadline[2] = 1;
    let sched = HybridDrl::new(hybrid_drl::SEED_BASE);
    let survey = sched.survey(&shared, &states);
    assert_eq!(survey.avg_vruntime, 17);
    let choice = sched.select(&shared, &states, 1, survey.avg_vruntime).unwrap();
    assert_eq!((choice.idx, choice.round, choice.avg_vruntime), (1, 1, 17));
    let choice = sched.select(&shared, &states, 1, 5).unwrap();
    assert_eq!(choice.idx, 0);
    shared.note_survey(&survey);
    assert_eq!(shared.min_vruntime, 10);
}
