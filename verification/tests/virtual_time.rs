use octox::process::{ProcState, NPROC};
use octox::scheduler::cfs::{self, weight_of_nice, Cfs, CfsShared, SLEEPER_BONUS};
use octox::scheduler::eevdf::{self, Eevdf, EevdfShared, SCHED_SLICE};
use octox::scheduler::vtime::{clamp_vruntime, NICE_0_WEIGHT};
use octox::scheduler::Scheduler;

fn runnable(n: usize) -> [ProcState; NPROC] {
    let mut states = [ProcState::UNUSED; NPROC];
    for i in 0..n {
        states[i] = ProcState::RUNNABLE;
    }
    states
}

#[test]
fn eevdf_calc_delta_identity() {
    assert_eq!(eevdf::calc_delta(1, NICE_0_WEIGHT), 1);
    assert_eq!(eevdf::calc_delta(5, NICE_0_WEIGHT), 5);
}

#[test]
fn eevdf_calc_delta_higher_weight() {
    let delta_high = eevdf::calc_delta(10, NICE_0_WEIGHT * 2);
    let delta_norm = eevdf::calc_delta(10, NICE_0_WEIGHT);
    assert!(delta_high < delta_norm);
}

#[test]
fn eevdf_calc_delta_lower_weight() {
    let delta_low = eevdf::calc_delta(10, NICE_0_WEIGHT / 2);
    let delta_norm = eevdf::calc_delta(10, NICE_0_WEIGHT);
    assert!(delta_low > delta_norm);
}

#[test]
fn eevdf_calc_delta_zero_weight() {
    let delta = eevdf::calc_delta(10, 0);
    assert_eq!(delta, 10 * NICE_0_WEIGHT);
}

#[test]
fn eevdf_slice_vruntime_consistency() {
    let slice_vrt = eevdf::calc_slice_vruntime(NICE_0_WEIGHT);
    assert_eq!(slice_vrt, SCHED_SLICE);
}

#[test]
fn eevdf_eligibility_simulation() {
    let vruntimes = [10u64, 15, 20, 25];
    let deadlines = [13u64, 16, 22, 30];
    let n = vruntimes.len();
    let mut shared = EevdfShared::new();
    for i in 0..n {
        shared.vruntime[i] = vruntimes[i];
        shared.deadline[i] = deadlines[i];
    }
    let states = runnable(n);
    let sched = Eevdf::default();
    let survey = sched.survey(&shared, &states);
    assert_eq!(survey.avg_vruntime, 17);
    let best_idx = sched.select(&shared, &states, survey.avg_vruntime);
    assert_eq!(best_idx, Some(0));
}

#[test]
fn eevdf_deadline_renewal() {
    let mut sched = Eevdf::default();
    let mut shared = EevdfShared::new();
    shared.vruntime[0] = 10;
    shared.deadline[0] = 13;

    sched.finish(&mut shared, &0);
    assert!(shared.vruntime[0] < shared.deadline[0]);
    sched.finish(&mut shared, &0);
    assert!(shared.vruntime[0] < shared.deadline[0]);

    let deadline = shared.deadline[0];
    sched.finish(&mut shared, &0);
    assert!(shared.vruntime[0] >= deadline);
    assert_eq!(shared.deadline[0], 16);
}

#[test]
fn eevdf_large_vruntime_no_overflow() {
    let vrt = u64::MAX - 100;
    let delta = eevdf::calc_delta(1, NICE_0_WEIGHT);
    let new_vrt = vrt.wrapping_add(delta);
    let slice = eevdf::calc_slice_vruntime(NICE_0_WEIGHT);
    assert_eq!(slice, SCHED_SLICE);

    let mut sched = Eevdf::default();
    let mut shared = EevdfShared::new();
    shared.vruntime[0] = vrt;
    assert!(sched.can_finish(&shared, &0));
    sched.finish(&mut shared, &0);
    assert_eq!(shared.vruntime[0], new_vrt);
    assert_eq!(shared.deadline[0], new_vrt + slice);
}

#[test]
fn vdl_eevdf_deadline_guarantees() {
    let n = 8;
    let mut sched = Eevdf::default();
    let mut shared = EevdfShared::new();
    for i in 0..n {
        shared.deadline[i] = i as u64 * 3 + 3;
    }
    let states = runnable(n);
    let mut dispatch_counts = vec![0u32; n];
    for _round in 0..100 {
        let survey = sched.survey(&shared, &states);
        let chosen = sched.select(&shared, &states, survey.avg_vruntime).unwrap();
        sched.finish(&mut shared, &chosen);
        dispatch_counts[chosen] += 1;
    }
    let min_d = *dispatch_counts.iter().min().unwrap();
    let max_d = *dispatch_counts.iter().max().unwrap();
    assert!(
        max_d - min_d <= 3,
        "EEVDF dispatch spread too large: min={min_d} max={max_d}"
    );
}

#[test]
fn eevdf_falls_back_to_least_vruntime() {
    let mut shared = EevdfShared::new();
    let mut states = [ProcState::UNUSED; NPROC];
    states[1] = ProcState::RUNNING;
    states[2] = ProcState::RUNNABLE;
    states[3] = ProcState::RUNNABLE;
    shared.vruntime[1] = 0;
    shared.vruntime[2] = 9;
    shared.vruntime[3] = 8;
    let sched = Eevdf::default();
    let survey = sched.survey(&shared, &states);
    assert_eq!((survey.avg_vruntime, survey.active_min), (5, 0));
    assert_eq!(sched.select(&shared, &states, survey.avg_vruntime), Some(3));
}

#[test]
fn eevdf_wakeup_is_clamped_and_gets_a_deadline() {
    let mut sched = Eevdf::default();
    let mut shared = EevdfShared::new();
    shared.min_vruntime = 100;
    assert!(!sched.begin(&mut shared, &5, ProcState::RUNNING));
    assert_eq!(shared.vruntime[5], 0);
    assert!(sched.can_begin(&shared, &5));
    assert!(sched.begin(&mut shared, &5, ProcState::RUNNABLE));
    assert_eq!(shared.vruntime[5], 97);
    assert_eq!(shared.deadline[5], 100);
    assert!(!sched.can_begin(&shared, &NPROC));
}

#[test]
fn eevdf_survey_of_an_idle_table() {
    let shared = EevdfShared::new();
    let states = [ProcState::SLEEPING; NPROC];
    let sched = Eevdf::default();
    let survey = sched.survey(&shared, &states);
    assert_eq!((survey.avg_vruntime, survey.active_min), (0, u64::MAX));
    assert_eq!(sched.select(&shared, &states, 0), None);
    let mut noted = shared;
    noted.note_survey(&survey);
    assert_eq!(noted.min_vruntime, 0);
}

#[test]
fn eevdf_limits_are_reported() {
    let sched = Eevdf::default();
    let mut shared = EevdfShared::new();
    shared.vruntime[0] = u64::MAX;
    assert!(!sched.can_finish(&shared, &0));
    assert!(!sched.can_begin(&shared, &0));
    assert!(sched.can_finish(&shared, &1));
}

#[test]
fn cfs_weight_of_nice_boundaries() {
    assert_eq!(weight_of_nice(-20), 88761);
    assert_eq!(weight_of_nice(0), 1024);
    assert_eq!(weight_of_nice(19), 15);
}

#[test]
fn cfs_weight_of_nice_clamping() {
    assert_eq!(weight_of_nice(-128), weight_of_nice(-20));
    assert_eq!(weight_of_nice(127), weight_of_nice(19));
}

#[test]
fn cfs_weight_monotonically_decreasing() {
    for nice in -19..=19i8 {
        let w_lower = weight_of_nice(nice - 1);
        let w_higher = weight_of_nice(nice);
        assert!(
            w_lower > w_higher,
            "weight not monotonically decreasing: nice {} ({}) >= nice {} ({})",
            nice - 1,
            w_lower,
            nice,
            w_higher
        );
    }
}

#[test]
fn cfs_calc_delta_zero_weight_safe() {
    let delta = cfs::calc_delta(10, 0);
    assert_eq!(delta, 10 * NICE_0_WEIGHT);
}

#[test]
fn cfs_sleeper_bonus_value() {
    assert_eq!(SLEEPER_BONUS, 4);
}

#[test]
fn cfs_vruntime_clamping_simulation() {
    let min_vruntime = 1000u64;
    let floor = min_vruntime.saturating_sub(SLEEPER_BONUS);

    let stale_vrt = 100u64;
    let clamped = clamp_vruntime(stale_vrt, min_vruntime, SLEEPER_BONUS);
    assert_eq!(clamped, floor);
    assert_eq!(clamped, 996);

    let fresh_vrt = 999u64;
    let clamped = clamp_vruntime(fresh_vrt, min_vruntime, SLEEPER_BONUS);
    assert_eq!(clamped, 999);
}

#[test]
fn cfs_picks_least_vruntime_and_floor() {
    let mut shared = CfsShared::new();
    let mut states = runnable(4);
    states[3] = ProcState::RUNNING;
    states[4] = ProcState::SLEEPING;
    shared.vruntime[0] = 7;
    shared.vruntime[1] = 5;
    shared.vruntime[2] = 5;
    shared.vruntime[3] = 4;
    let sched = Cfs::default();
    let scan = sched.select(&shared, &states);
    assert_eq!(scan.best, Some(1));
    assert_eq!(scan.active_min, 4);
    shared.note_scan(&scan);
    assert_eq!(shared.min_vruntime, 4);
    shared.advance_min_vruntime(2);
    assert_eq!(shared.min_vruntime, 4);
}

#[test]
fn cfs_turn_is_charged() {
    let mut sched = Cfs::default();
    let mut shared = CfsShared::new();
    shared.min_vruntime = 50;
    assert!(!sched.begin(&mut shared, &9, ProcState::ZOMBIE));
    assert_eq!(shared.vruntime[9], 0);
    assert!(sched.begin(&mut shared, &9, ProcState::RUNNABLE));
    assert_eq!(shared.vruntime[9], 46);
    sched.finish(&mut shared, &9);
    assert_eq!(shared.vruntime[9], 47);
    shared.vruntime[9] = u64::MAX;
    sched.finish(&mut shared, &9);
    assert_eq!(shared.vruntime[9], 0);
}

#[test]
fn cfs_shares_stay_even() {
    let mut sched = Cfs::default();
    let mut shared = CfsShared::new();
    let states = runnable(5);
    let mut turns = [0u32; 5];
    for _ in 0..103 {
        let scan = sched.select(&shared, &states);
        shared.note_scan(&scan);
        let idx = scan.best.unwrap();
        assert!(sched.begin(&mut shared, &idx, ProcState::RUNNABLE));
        sched.finish(&mut shared, &idx);
        turns[idx] += 1;
    }
    assert_eq!(turns, [21, 21, 21, 20, 20]);
}

#[test]
fn cfs_exact_deltas() {
    assert_eq!(cfs::calc_delta(1, 1024), 1);
    assert_eq!(cfs::calc_delta(10, 335), 30);
    assert_eq!(cfs::calc_delta(1, 88761), 0);
}
