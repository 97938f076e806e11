use octox::arith::{count_ones, with_bit};
use octox::bench::child::{GapLog, Sleeper};
use octox::bench::report::{work_report, Child};
use octox::bench::status::{status_work, work_status};
use octox::prng::XorShift64;
use octox::process::{ProcState, NPROC};
use octox::scheduler::cfs::{calc_delta, Cfs, CfsShared};
use octox::scheduler::drl::{self, Drl};
use octox::scheduler::eevdf::{Eevdf, EevdfShared};
use octox::scheduler::hybrid_drl::{HybridDrl, HybridShared, MAX_DRL_ADJ};
use octox::scheduler::mlfq::{Mlfq, MlfqShared};
use octox::scheduler::o1::{calc_timeslice, O1Shared, O1Step, O1};
use octox::scheduler::vtime::clamp_vruntime;
use octox::scheduler::Scheduler;

fn runnable(slots: &[usize]) -> [ProcState; NPROC] {
    let mut states = [ProcState::UNUSED; NPROC];
    for &i in slots {
        states[i] = ProcState::RUNNABLE;
    }
    states
}

#[test]
fn setting_a_bit_adds_at_most_one() {
    assert_eq!(count_ones(with_bit(0b1010, 0)), 3);
    assert_eq!(count_ones(with_bit(0b1010, 1)), 2);
}

#[test]
fn generator_never_sticks() {
    let mut rng = XorShift64::new(0xDEAD_BEEF);
    let mut seen = vec![];
    for _ in 0..200 {
        let draw = rng.next_u64();
        assert_ne!(draw, 0);
        assert!(!seen.contains(&draw));
        seen.push(draw);
    }
}

#[test]
fn perturbations_are_small() {
    let mut sched = Drl::new(99);
    let before = sched.net;
    sched.apply_perturbation();
    for j in 0..8 {
        for k in 0..4 {
            assert!((sched.net.w1[j][k] - before.w1[j][k]).abs() <= drl::PERTURB_MAG);
        }
        assert!((sched.net.b1[j] - before.b1[j]).abs() <= drl::PERTURB_MAG);
        assert!((sched.net.w2[j] - before.w2[j]).abs() <= drl::PERTURB_MAG);
    }
}

#[test]
fn a_rejected_perturbation_leaves_no_trace() {
    let mut sched = Drl::new(5);
    let start = sched.net;
    sched.apply_perturbation();
    sched.prev_reward = i64::MAX;
    sched.epoch_dispatches = 64;
    sched.learn();
    for j in 0..8 {
        for k in 0..4 {
            assert_eq!(sched.net.w1[j][k] - sched.net.pw1[j][k], start.w1[j][k]);
        }
    }
    sched.revert_perturbation();
    let features = [300, 200, 1024, 512];
    assert_eq!(sched.forward(&features), Drl::new(5).forward(&features));
}

#[test]
fn the_floor_only_rises() {
    let candidates = [5u64, 3, 9, 9, 1];
    let mut a = CfsShared::new();
    let mut b = CfsShared::new();
    let mut last = 0;
    for &c in &candidates {
        a.advance_min_vruntime(c);
        assert!(a.min_vruntime >= last);
        last = a.min_vruntime;
    }
    for &c in candidates.iter().rev() {
        b.advance_min_vruntime(c);
    }
    assert_eq!((a.min_vruntime, b.min_vruntime), (9, 9));
    assert_eq!(clamp_vruntime(0, 2, 4), 0);
    assert_eq!(clamp_vruntime(0, 20, 4), 16);
}

#[test]
fn a_sleeper_cannot_monopolise() {
    let mut sched = Cfs::default();
    let mut shared = CfsShared::new();
    let states = runnable(&[0, 1]);
    shared.vruntime[0] = 1000;
    shared.min_vruntime = 1000;
    let mut turns = 0;
    loop {
        let idx = sched.select(&shared, &states).best.unwrap();
        if idx == 0 {
            break;
        }
        sched.begin(&mut shared, &idx, ProcState::RUNNABLE);
        sched.finish(&mut shared, &idx);
        turns += 1;
    }
    assert_eq!(turns, 4);
    assert!(calc_delta(7, 2048) <= calc_delta(7, 1024));
}

#[test]
fn the_most_starved_is_eligible() {
    let mut shared = EevdfShared::new();
    let states = runnable(&[2, 3, 4]);
    shared.vruntime[2] = 50;
    shared.vruntime[3] = 20;
    shared.vruntime[4] = 30;
    let sched = Eevdf::default();
    let survey = sched.survey(&shared, &states);
    assert!(survey.active_min <= survey.avg_vruntime);
    shared.deadline[3] = 1;
    shared.deadline[4] = 2;
    assert_eq!(sched.select(&shared, &states, survey.avg_vruntime), Some(3));
}

#[test]
fn the_learner_keeps_the_baseline() {
    let mut shared = HybridShared::new();
    let states = runnable(&[0, 1]);
    shared.deadline[0] = 100;
    shared.deadline[1] = 100 + 2 * MAX_DRL_ADJ as u64 + 1;
    for b2 in [i64::MIN, -5000, 0, 5000, i64::MAX] {
        let mut sched = HybridDrl::new(1);
        sched.net.b2 = b2;
        assert_eq!(sched.select(&shared, &states, 1, 0).unwrap().idx, 0);
    }
}

#[test]
fn every_interval_brings_all_back_to_the_top() {
    let mut shared = MlfqShared::new();
    let mut sched = Mlfq::new(0);
    let slots = [1usize, 2, 3];
    let states = runnable(&slots);
    for n in 1..=100 {
        let idx = sched.select(&shared, &states).unwrap();
        sched.finish(&mut shared, &idx);
        sched.advance(idx);
        if n == 9 {
            assert!(slots.iter().all(|&i| shared.queue_level[i] == 2));
        }
    }
    assert!(slots.iter().all(|&i| shared.queue_level[i] == 0));
}

#[test]
fn an_epoch_ends_when_all_slices_are_used() {
    let mut shared = O1Shared::new();
    let mut sched = O1::default();
    let states = runnable(&[4, 40]);
    shared.epoch_swap();
    let expected = shared.timeslice[4] + shared.timeslice[40];
    assert_eq!(expected, 2 * calc_timeslice(19));
    let mut turns = 0;
    while let Some(idx) = sched.select(&shared, &states).best {
        assert!(sched.begin(&mut shared, &idx, ProcState::RUNNABLE));
        sched.finish(&mut shared, &idx);
        sched.advance(idx);
        turns += 1;
    }
    assert_eq!(turns, expected);
    assert!(sched.select(&shared, &states).needs_swap());
}

#[test]
fn percentiles_are_ordered() {
    let mut sleeper: Sleeper<30> = Sleeper::new();
    for i in 0..30 {
        sleeper.wake((i * 7) % 30);
    }
    assert_eq!(sleeper.percentile(50), 15);
    assert_eq!(sleeper.percentile(95), 28);
    assert_eq!(sleeper.percentile(99), 29);
    assert_eq!(sleeper.log.max, 29);
}

#[test]
fn the_mean_gap_is_below_the_largest() {
    let mut log = GapLog::new(0);
    for t in [3, 9, 10, 30] {
        log.observe(t);
        assert!(log.avg_gap_100() <= log.max_gap * 100);
    }
    assert_eq!(log.avg_gap_100(), 900);
}

#[test]
fn work_survives_up_to_a_thousand() {
    for counter in [0usize, 999, 1000, 123_456_789] {
        let back = status_work(work_status(counter)) as usize;
        assert!(back <= counter && counter < back + 1000);
    }
}

#[test]
fn totals_lie_between_the_extremes() {
    let children: Vec<Child> = (0..5).map(|i| Child { pid: i, status: 3 + i as i32 }).collect();
    let r = work_report(&children);
    assert_eq!((r.total, r.min, r.max), (25_000, 3_000, 7_000));
    assert!(r.min * 5 <= r.total && r.total <= r.max * 5);
}

#[test]
fn cfs_turns_stay_within_one() {
    let mut sched = Cfs::default();
    let mut shared = CfsShared::new();
    let mut turns = [0u32; 3];
    for pass in 0..200usize {
        let mut states = runnable(&[0, 1, 2]);
        if pass % 3 == 0 {
            states[40] = ProcState::RUNNABLE;
        }
        let scan = sched.scan(&mut shared, &states);
        let idx = scan.best.unwrap();
        sched.begin(&mut shared, &idx, ProcState::RUNNABLE);
        sched.finish(&mut shared, &idx);
        if idx < 3 {
            turns[idx] += 1;
        }
        assert!(turns.iter().max().unwrap() - turns.iter().min().unwrap() <= 1);
    }
}

#[test]
fn eevdf_turns_stay_within_a_slice() {
    let mut sched = Eevdf::default();
    let mut shared = EevdfShared::new();
    let mut turns = [0u32; 3];
    let mut floor = 0;
    for pass in 0..300usize {
        let mut states = runnable(&[0, 1, 2]);
        if pass % 5 < 2 {
            states[9] = ProcState::RUNNABLE;
            shared.vruntime[9] = 1000;
        }
        let (survey, pick) = sched.scan(&mut shared, &states, &states);
        assert_eq!(survey, sched.survey(&shared, &states));
        assert!(shared.min_vruntime >= floor);
        floor = shared.min_vruntime;
        let idx = pick.unwrap();
        sched.begin(&mut shared, &idx, ProcState::RUNNABLE);
        sched.finish(&mut shared, &idx);
        assert!(shared.vruntime[idx] < shared.deadline[idx]);
        assert!(shared.deadline[idx] <= shared.vruntime[idx] + 3);
        if idx < 3 {
            turns[idx] += 1;
        }
        assert!(turns.iter().max().unwrap() - turns.iter().min().unwrap() <= 3);
    }
}

#[test]
fn hybrid_turns_stay_bounded() {
    let mut sched = HybridDrl::new(77);
    sched.apply_perturbation();
    let mut shared = HybridShared::new();
    let states = runnable(&[0, 1, 2, 3]);
    let mut turns = [0i64; 4];
    for _ in 0..1000 {
        let round = shared.round;
        let (_, choice) = sched.scan(&mut shared, &states, &states, round);
        let choice = choice.unwrap();
        sched.begin(&mut shared, &choice, ProcState::RUNNABLE);
        sched.finish(&mut shared, &choice);
        turns[choice.idx] += 1;
        let spread = turns.iter().max().unwrap() - turns.iter().min().unwrap();
        assert!(spread <= 4 + 2 * MAX_DRL_ADJ);
    }
}

#[test]
fn mlfq_newcomers_do_not_starve_anyone() {
    let mut shared = MlfqShared::new();
    let mut sched = Mlfq::new(0);
    shared.queue_level[50] = 2;
    let mut slots = vec![50usize];
    slots.extend(0..20);
    let states = runnable(&slots);
    let mut waited = 0;
    for pass in 0..1000usize {
        shared.enter(pass % 20);
        let idx = sched.select(&shared, &states).unwrap();
        sched.finish(&mut shared, &idx);
        sched.advance(idx);
        waited = if idx == 50 { 0 } else { waited + 1 };
        assert!(waited < 100 + NPROC);
    }
}

#[test]
fn equals_take_turns_in_order() {
    let shared = MlfqShared::new();
    let mut sched = Mlfq::new(7);
    let states = runnable(&[3, 9, 30, 60]);
    let mut order = vec![];
    for _ in 0..8 {
        let idx = sched.select(&shared, &states).unwrap();
        sched.advance(idx);
        order.push(idx);
    }
    assert_eq!(order, vec![9, 30, 60, 3, 9, 30, 60, 3]);
}

#[test]
fn o1_runs_everyone_within_two_epochs() {
    let mut shared = O1Shared::new();
    let mut sched = O1::default();
    let slots: Vec<usize> = (0..30).collect();
    let states = runnable(&slots);
    for i in 0..15 {
        shared.sleep_avg[i] = 5;
        shared.dyn_priority[i] = 15;
    }
    let mut waited = [0usize; 30];
    for _ in 0..3000 {
        let scan = sched.select(&shared, &states);
        let ran = match scan.step() {
            O1Step::Swap => {
                assert!(shared.try_swap(&scan));
                None
            }
            O1Step::Dispatch(idx) => {
                assert!(sched.begin(&mut shared, &idx, ProcState::RUNNABLE));
                sched.finish(&mut shared, &idx);
                sched.advance(idx);
                Some(idx)
            }
            O1Step::Rescan => None,
        };
        for (i, w) in waited.iter_mut().enumerate() {
            *w = if ran == Some(i) { 0 } else { *w + 1 };
            assert!(*w <= 2 * 384);
        }
    }
}

#[test]
fn drl_equals_all_run() {
    let shared = octox::scheduler::drl::DrlShared::new();
    let mut sched = Drl::new(1);
    let states = runnable(&[2, 5, 40]);
    let mut order = vec![];
    for _ in 0..6 {
        let idx = sched.select(&shared, &states, 1).unwrap();
        sched.scan_offset = (idx + 1) % NPROC;
        order.push(idx);
    }
    assert_eq!(order, vec![2, 5, 40, 2, 5, 40]);
}
