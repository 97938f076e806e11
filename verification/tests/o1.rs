use octox::process::{ProcState, NPROC};
use octox::scheduler::o1::{
    calc_priority, calc_timeslice, O1Shared, O1Step, BASE_PRIORITY, MAX_BONUS, MAX_SLEEP_AVG,
    MAX_TIMESLICE, MIN_TIMESLICE, O1,
};
use octox::scheduler::Scheduler;

#[test]
fn o1_calc_priority_boundaries() {
    assert_eq!(calc_priority(0), BASE_PRIORITY);
    assert_eq!(calc_priority(MAX_SLEEP_AVG), BASE_PRIORITY - MAX_BONUS);
    assert_eq!(calc_priority(100), BASE_PRIORITY - MAX_BONUS);
    assert_eq!(calc_priority(u64::MAX), BASE_PRIORITY - MAX_BONUS);
}

#[test]
fn o1_calc_priority_monotonic() {
    let mut prev = calc_priority(0);
    for sa in 1..=MAX_SLEEP_AVG {
        let prio = calc_priority(sa);
        assert!(prio <= prev, "priority not monotonically decreasing");
        prev = prio;
    }
}

#[test]
fn o1_calc_timeslice_range() {
    for prio in 0..=39u8 {
        let ts = calc_timeslice(prio);
        assert!(
            ts >= MIN_TIMESLICE && ts <= MAX_TIMESLICE,
            "prio={prio}: timeslice={ts} not in [{MIN_TIMESLICE}, {MAX_TIMESLICE}]"
        );
    }
}

#[test]
fn o1_calc_timeslice_monotonic() {
    let mut prev = calc_timeslice(0);
    for prio in 1..=39u8 {
        let ts = calc_timeslice(prio);
        assert!(ts <= prev, "timeslice not monotonically decreasing with priority");
        prev = ts;
    }
}

#[test]
fn o1_calc_timeslice_extremes() {
    assert_eq!(calc_timeslice(0), MAX_TIMESLICE);
    assert_eq!(calc_timeslice(39), MIN_TIMESLICE);
    assert_eq!(calc_timeslice(255), MIN_TIMESLICE);
}

#[test]
fn o1_epoch_swap_simulation() {
    let mut shared = O1Shared::new();
    shared.is_expired[0] = true;
    shared.is_expired[3] = true;
    shared.sleep_avg[0] = 2;
    shared.sleep_avg[3] = 0;
    shared.sleep_avg[5] = 3;

    shared.epoch_swap();

    for i in 0..NPROC {
        assert!(!shared.is_expired[i]);
    }
    assert_eq!(shared.sleep_avg[0], 1);
    assert_eq!(shared.sleep_avg[3], 0);
    assert_eq!(shared.sleep_avg[5], 4);
}

#[test]
fn o1_timeslice_division_no_remainder_issue() {
    for prio in 0..=255u8 {
        let ts = calc_timeslice(prio);
        assert!(ts >= MIN_TIMESLICE, "timeslice for prio {prio} is 0");
    }
}

#[test]
fn epoch_o1_interactivity_heuristic() {
    let mut shared = O1Shared::new();
    for _epoch in 0..10 {
        for i in 0..4 {
            shared.is_expired[i] = true;
        }
        shared.epoch_swap();
    }
    for i in 0..4 {
        assert_eq!(shared.sleep_avg[i], 0);
    }
    for i in 4..7 {
        assert_eq!(shared.sleep_avg[i], MAX_SLEEP_AVG);
    }

    let batch_prio = calc_priority(shared.sleep_avg[0]);
    let interactive_prio = calc_priority(shared.sleep_avg[4]);
    assert!(interactive_prio < batch_prio, "interactive should have better (lower) priority");
    assert_eq!(batch_prio, BASE_PRIORITY);
    assert_eq!(interactive_prio, BASE_PRIORITY - MAX_BONUS);
    assert_eq!(shared.dyn_priority[0], batch_prio);
    assert_eq!(shared.dyn_priority[4], interactive_prio);

    let batch_ts = calc_timeslice(batch_prio);
    let interactive_ts = calc_timeslice(interactive_prio);
    assert!(interactive_ts > batch_ts, "interactive should get longer timeslice");
}

#[test]
fn o1_exact_timeslices() {
    assert_eq!(calc_timeslice(15), 4);
    assert_eq!(calc_timeslice(20), 3);
    assert_eq!(calc_priority(3), 17);
}

#[test]
fn o1_slice_is_used_up_and_expires() {
    let mut shared = O1Shared::new();
    let mut sched = O1::default();
    assert!(sched.can_begin(&shared, &7));
    assert!(sched.begin(&mut shared, &7, ProcState::RUNNABLE));
    let slice = shared.timeslice[7];
    assert_eq!(slice, 3);
    for left in (0..slice).rev() {
        assert!(!shared.is_expired[7]);
        assert!(sched.can_finish(&shared, &7));
        sched.finish(&mut shared, &7);
        if left > 0 {
            assert_eq!(shared.timeslice[7], left);
            assert!(sched.begin(&mut shared, &7, ProcState::RUNNABLE));
            assert_eq!(shared.timeslice[7], left);
        }
    }
    assert!(shared.is_expired[7]);
}

#[test]
fn o1_begin_leaves_a_sleeper_alone() {
    let mut shared = O1Shared::new();
    let mut sched = O1::default();
    assert!(!sched.begin(&mut shared, &3, ProcState::SLEEPING));
    assert_eq!(shared.timeslice[3], 0);
}

#[test]
fn o1_selects_best_active_priority() {
    let mut shared = O1Shared::new();
    let mut states = [ProcState::UNUSED; NPROC];
    let sched = O1::default();
    states[2] = ProcState::RUNNABLE;
    states[4] = ProcState::RUNNABLE;
    states[6] = ProcState::RUNNABLE;
    shared.dyn_priority[4] = 16;
    shared.dyn_priority[6] = 15;
    shared.is_expired[6] = true;
    let scan = sched.select(&shared, &states);
    assert_eq!(scan.best, Some(4));
    assert!(scan.any_active_runnable && scan.any_expired && !scan.any_active_running);
    assert!(!scan.needs_swap());
    assert_eq!(scan.step(), O1Step::Dispatch(4));
}

#[test]
fn o1_swap_when_only_expired_are_left() {
    let mut shared = O1Shared::new();
    let mut states = [ProcState::UNUSED; NPROC];
    let sched = O1::default();
    states[9] = ProcState::RUNNABLE;
    shared.is_expired[9] = true;
    let scan = sched.select(&shared, &states);
    assert_eq!(scan.best, None);
    assert!(scan.needs_swap());
    assert_eq!(scan.step(), O1Step::Swap);
    assert_eq!(scan.epoch, 0);
    assert!(shared.can_swap());
    assert!(shared.try_swap(&scan));
    assert!(!shared.try_swap(&scan));
    assert_eq!(shared.epoch, 1);
    assert_eq!(sched.select(&shared, &states).best, Some(9));

    shared.is_expired[9] = true;
    states[10] = ProcState::RUNNING;
    let scan = sched.select(&shared, &states);
    assert!(scan.any_active_running);
    assert!(!scan.needs_swap());
    assert_eq!(scan.step(), O1Step::Rescan);
}

#[test]
fn o1_equal_priorities_take_turns() {
    let shared = O1Shared::new();
    let mut states = [ProcState::UNUSED; NPROC];
    let mut sched = O1::default();
    for i in [1usize, 5, 63] {
        states[i] = ProcState::RUNNABLE;
    }
    let mut order = vec![];
    for _ in 0..6 {
        let idx = sched.select(&shared, &states).best.unwrap();
        sched.advance(idx);
        order.push(idx);
    }
    assert_eq!(order, vec![1, 5, 63, 1, 5, 63]);
}

#[test]
fn o1_newcomer_starts_at_the_base_priority() {
    let mut shared = O1Shared::new();
    for _ in 0..5 {
        shared.epoch_swap();
    }
    assert_eq!(shared.dyn_priority[8], 15);
    shared.is_expired[8] = true;
    shared.enter(8);
    assert_eq!((shared.dyn_priority[8], shared.sleep_avg[8]), (20, 0));
    assert_eq!((shared.timeslice[8], shared.is_expired[8]), (0, false));
    assert_eq!((shared.dyn_priority[9], shared.epoch), (15, 0));
    let mut sched = O1::default();
    assert!(sched.begin(&mut shared, &8, ProcState::RUNNABLE));
    assert_eq!(shared.timeslice[8], calc_timeslice(BASE_PRIORITY));
}

#[test]
fn o1_swap_limits_are_reported() {
    let mut shared = O1Shared::new();
    assert!(shared.can_swap());
    shared.sleep_avg[3] = u64::MAX;
    assert!(!shared.can_swap());
    shared.is_expired[3] = true;
    assert!(shared.can_swap());
    shared.epoch = u64::MAX;
    assert!(!shared.can_swap());
}
