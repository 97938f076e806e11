use octox::process::{ProcState, NPROC};
use octox::scheduler::mlfq::{Mlfq, MlfqShared, BOOST_INTERVAL, NUM_LEVELS, TIME_ALLOTMENT};
use octox::scheduler::round_robin::RoundRobin;
use octox::scheduler::scan::{scan_slot, Best};
use octox::scheduler::Scheduler;

#[test]
fn mlfq_demotion_logic() {
    for level in 0..NUM_LEVELS - 1 {
        let mut shared = MlfqShared::new();
        shared.queue_level[0] = level as u8;
        let mut demoted = false;
        for _ in 0..10 {
            shared.charge(0);
            if shared.queue_level[0] as usize == level + 1 {
                demoted = true;
                break;
            }
        }
        assert!(
            demoted,
            "level {level} should demote after {} ticks",
            TIME_ALLOTMENT[level]
        );
    }
}

#[test]
fn mlfq_lowest_level_no_demotion() {
    let level = NUM_LEVELS - 1;
    let mut shared = MlfqShared::new();
    shared.queue_level[0] = level as u8;
    shared.ticks_at_level[0] = 1000u64;
    shared.charge(0);
    let should_demote = shared.queue_level[0] as usize != level;
    assert!(!should_demote);
    assert_eq!(shared.ticks_at_level[0], 1001);
}

#[test]
fn mlfq_boost_trigger() {
    let mut shared = MlfqShared::new();
    let mut sched = Mlfq::new(0);
    let mut boost_count = 0;
    for _ in 0..BOOST_INTERVAL * 3 {
        shared.queue_level[1] = 1;
        sched.finish(&mut shared, &0);
        if shared.queue_level[1] == 0 {
            boost_count += 1;
        }
    }
    assert_eq!(boost_count, 3);
}

#[test]
fn mlfq_time_allotments_increasing() {
    for i in 1..NUM_LEVELS {
        assert!(
            TIME_ALLOTMENT[i] >= TIME_ALLOTMENT[i - 1],
            "allotment at level {} ({}) < level {} ({})",
            i,
            TIME_ALLOTMENT[i],
            i - 1,
            TIME_ALLOTMENT[i - 1]
        );
    }
}

#[test]
fn mlfq_scan_offset_wraparound() {
    let mut sched = Mlfq::new(0);
    for _ in 0..NPROC * 3 {
        for j in 0..NPROC {
            let i = scan_slot(sched.scan_offset, j);
            assert!(i < NPROC);
        }
        sched.advance(sched.scan_offset);
    }
    assert_eq!(sched.scan_offset, 0);
}

#[test]
fn newproc_mlfq_demotion_timing() {
    let total_allotment: u64 = TIME_ALLOTMENT[0] + TIME_ALLOTMENT[1];
    assert_eq!(total_allotment, 3);
    assert!(20 > total_allotment as usize * 6 / 4);

    let mut shared = MlfqShared::new();
    for _ in 0..total_allotment {
        assert!((shared.queue_level[7] as usize) < NUM_LEVELS - 1);
        shared.charge(7);
    }
    assert_eq!(shared.queue_level[7] as usize, NUM_LEVELS - 1);
}

#[test]
fn mlfq_selects_highest_priority() {
    let mut shared = MlfqShared::new();
    let mut states = [ProcState::UNUSED; NPROC];
    states[3] = ProcState::RUNNABLE;
    states[8] = ProcState::RUNNABLE;
    states[9] = ProcState::RUNNING;
    shared.queue_level[3] = 2;
    shared.queue_level[8] = 1;
    let sched = Mlfq::new(0);
    assert_eq!(sched.select(&shared, &states), Some(8));
    states[8] = ProcState::SLEEPING;
    assert_eq!(sched.select(&shared, &states), Some(3));
    states[3] = ProcState::ZOMBIE;
    assert_eq!(sched.select(&shared, &states), None);
}

#[test]
fn mlfq_same_level_takes_turns() {
    let shared = MlfqShared::new();
    let mut states = [ProcState::UNUSED; NPROC];
    for i in [0usize, 31, 63] {
        states[i] = ProcState::RUNNABLE;
    }
    let mut sched = Mlfq::new(0);
    let mut order = vec![];
    for _ in 0..4 {
        let idx = sched.select(&shared, &states).unwrap();
        sched.advance(idx);
        order.push(idx);
    }
    assert_eq!(order, vec![0, 31, 63, 0]);
}

#[test]
fn mlfq_dispatch_accounts_for_the_turn() {
    let mut shared = MlfqShared::new();
    let mut sched = Mlfq::new(0);
    assert!(!sched.begin(&mut shared, &4, ProcState::SLEEPING));
    assert!(sched.begin(&mut shared, &4, ProcState::RUNNABLE));
    sched.finish(&mut shared, &4);
    assert_eq!(shared.queue_level[4], 1);
    assert_eq!(shared.ticks_at_level[4], 0);
    assert_eq!(shared.dispatch_count, 1);
    sched.finish(&mut shared, &4);
    assert_eq!(shared.queue_level[4], 1);
    assert_eq!(shared.ticks_at_level[4], 1);
    shared.dispatch_count = u64::MAX;
    assert!(!sched.can_finish(&shared, &4));
}

#[test]
fn round_robin_sweeps_the_table() {
    let mut sched = RoundRobin::default();
    let mut slot = 0;
    let mut seen = vec![0; NPROC];
    for _ in 0..NPROC {
        seen[slot] += 1;
        slot = sched.next_slot(slot);
    }
    assert_eq!(slot, 0);
    assert!(seen.iter().all(|&n| n == 1));
    assert!(sched.begin(&mut (), &5, ProcState::RUNNABLE));
    assert!(!sched.begin(&mut (), &5, ProcState::RUNNING));
}

#[test]
fn best_keeps_the_first_of_equals() {
    let mut best = Best::new();
    best.offer(9, 4);
    best.offer(2, 4);
    best.offer(1, 3);
    best.offer(0, 3);
    assert_eq!(best.pick, Some(1));
    assert_eq!(best.key, 3);
    let mut none = Best::new();
    none.offer(1, u64::MAX);
    assert_eq!(none.pick, None);
}

#[test]
fn mlfq_cpus_start_apart() {
    let a = Mlfq::new(0);
    let b = Mlfq::new(3);
    assert_eq!((a.scan_offset, b.scan_offset), (0, 3));
    let shared = MlfqShared::new();
    let states = [ProcState::RUNNABLE; NPROC];
    assert_eq!(a.select(&shared, &states), Some(0));
    assert_eq!(b.select(&shared, &states), Some(3));
}

#[test]
fn mlfq_newcomer_starts_at_the_top() {
    let mut shared = MlfqShared::new();
    shared.queue_level[5] = 2;
    shared.ticks_at_level[5] = 9;
    shared.queue_level[2] = 1;
    shared.dispatch_count = 12;
    shared.enter(5);
    assert_eq!((shared.queue_level[5], shared.ticks_at_level[5]), (0, 0));
    assert_eq!((shared.queue_level[2], shared.dispatch_count), (1, 12));
    let mut states = [ProcState::UNUSED; NPROC];
    states[2] = ProcState::RUNNABLE;
    states[5] = ProcState::RUNNABLE;
    assert_eq!(Mlfq::new(0).select(&shared, &states), Some(5));
}
