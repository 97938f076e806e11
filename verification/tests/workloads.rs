use octox::bench::child::{Counter, DelaySum, GapLog, PeriodicLog, Sleeper};
use octox::bench::delays::{
    contains, lateness, mean, mean_hundredths, overshoot, percentile, sort, DelayLog,
};
use octox::bench::parent::{Acceptance, Throughput};
use octox::bench::report::{
    adapt_report, all_count, burst_report, can_adapt, can_add_latencies, can_count, can_split, epoch_report,
    gap_report, gap_spread, latency_report, mixed_report, phase_report, split_report,
    starve_io_report, work_report, Child, Class, Classes,
};
use octox::bench::status::{
    code_status, count_status, field, pack_four, pack_gap, pack_phase, pack_total, pack_two,
    pack_with_work, place, status_work, unpack_four, work_status,
};
use octox::bench::workload::{
    ambiguous_sleep, ambiguous_work, bursty_sleep, bursty_work, flip_work, in_sleep_phase,
};

fn child(pid: usize, status: i32) -> Child {
    Child { pid, status }
}

#[test]
fn cpusym_exit_status_encoding() {
    for counter in [0usize, 1000, 100_000, 1_000_000, 10_000_000] {
        let code = work_status(counter);
        let reconstructed = status_work(code) as usize;
        assert!(
            counter.abs_diff(reconstructed) < 1000,
            "counter={counter} reconstructed={reconstructed}"
        );
    }
}

#[test]
fn cpusym_min_tracking() {
    let counts = [5000usize, 3000, 7000, 4000, 6000, 2000, 8000, 1000];
    let children: Vec<Child> =
        counts.iter().enumerate().map(|(i, &c)| child(i, work_status(c))).collect();
    let report = work_report(&children);
    assert_eq!(report.total, 36000);
    assert_eq!(report.min, 1000);
    assert_eq!(report.max, 8000);
}

#[test]
fn sleepw_exit_status_packing() {
    for avg in 0..=255u8 {
        for max_d in [0u8, 1, 5, 100, 255] {
            let code = place(avg as u32, 8, 0xFF) | place(max_d as u32, 0, 0xFF);
            let status = code_status(code);
            let decoded_avg = field(status, 8, 0xFF);
            let decoded_max = field(status, 0, 0xFF);
            assert_eq!(decoded_avg, avg as u32);
            assert_eq!(decoded_max, max_d as u32);
            assert!(code <= i32::MAX as u32);
        }
    }
}

#[test]
fn sleepw_delay_calculation() {
    let sleep_ticks = 1;
    for actual in [1usize, 2, 3, 5, 10] {
        let delay = overshoot(0, actual, sleep_ticks);
        assert!(delay < actual);
    }
}

#[test]
fn newproc_latency_measurement() {
    let latencies = [0usize, 1, 0, 0, 1, 0, 0, 2, 0, 1];
    let children: Vec<Child> = latencies.iter().map(|&l| child(1, count_status(l))).collect();
    let report = latency_report(&children);
    assert_eq!(report.total, 5);
    assert_eq!(report.max, 2);
    assert_eq!(report.avg, 0);
}

#[test]
fn vdl_exit_status_packing() {
    for max_gap in [0u16, 1, 5, 50, 1000] {
        for avg_gap_100 in [0u16, 50, 100, 500, 5000] {
            let code = pack_gap(max_gap as usize, avg_gap_100 as usize);
            let decoded_max = field(code, 16, 0xFFFF);
            let decoded_avg = field(code, 0, 0xFFFF);
            assert_eq!(decoded_max, max_gap as u32);
            assert_eq!(decoded_avg, avg_gap_100 as u32);
            assert!(code >= 0);
        }
    }
}

#[test]
fn vdl_spread_calculation() {
    let max_gap = 5u64;
    let avg_gap_100 = 250u64;
    let spread = gap_spread(max_gap, avg_gap_100);
    assert_eq!(spread, 250);
}

#[test]
fn epoch_response_time_encoding() {
    for total_resp in [0usize, 10, 100, 500] {
        let io_cycles = 25;
        let avg_resp_100 = mean_hundredths(total_resp, io_cycles);
        assert!(avg_resp_100 <= i32::MAX as usize);
        let decoded = avg_resp_100 as f64 / 100.0;
        let expected = total_resp as f64 / io_cycles as f64;
        assert!((decoded - expected).abs() < 0.1);
    }
}

#[test]
fn adapt_exit_status_encoding() {
    for phase2_count in [0usize, 1_000_000, 10_000_000, 100_000_000] {
        let code = work_status(phase2_count);
        let reconstructed = status_work(code) as usize;
        assert!(phase2_count.abs_diff(reconstructed) < 1000);
        let report = adapt_report(&[child(3, code)], &[3], &[]);
        assert!(phase2_count.abs_diff(report.phase2_work as usize) < 1000);
    }
    for total_delay in [0usize, 1, 5, 15, 50] {
        let code = count_status(total_delay);
        assert_eq!(code as usize, total_delay);
        let report = adapt_report(&[child(6, code)], &[3], &[]);
        assert_eq!(report.phase2_delay as usize, total_delay);
    }
}

#[test]
fn adapt_pid_categorization() {
    let cpu_pids: [usize; 3] = [3, 4, 5];
    let io_pids: [usize; 3] = [6, 7, 8];
    for &pid in &cpu_pids {
        assert!(contains(&cpu_pids, pid));
        assert!(!contains(&io_pids, pid));
    }
    for &pid in &io_pids {
        assert!(!contains(&cpu_pids, pid));
        assert!(contains(&io_pids, pid));
    }
}

#[test]
fn sorting_and_percentiles() {
    let mut items = [5usize, 1, 4, 1, 9, 0];
    sort(&mut items);
    assert_eq!(items, [0, 1, 1, 4, 5, 9]);
    assert_eq!(percentile(&items, 50), 4);
    assert_eq!(percentile(&items, 95), 9);
    assert_eq!(percentile(&items, 100), 9);
    let mut empty: [usize; 0] = [];
    sort(&mut empty);
    assert_eq!(mean(7, 0), 7);
    assert_eq!(mean(7, 2), 3);
}

#[test]
fn delays_of_sleeps() {
    assert_eq!(overshoot(10, 12, 2), 0);
    assert_eq!(overshoot(10, 17, 2), 5);
    assert_eq!(lateness(10, 17, 2), 5);
    assert_eq!(lateness(10, 3, 2), 0);
    let mut log: DelayLog<3> = DelayLog::new();
    log.record(1, 4);
    log.record(2, 1);
    assert_eq!((log.total, log.max), (5, 4));
    log.settle();
    assert_eq!(log.delays, [0, 1, 4]);
}

#[test]
fn statuses_hold_capped_fields() {
    assert_eq!(pack_four(1, 2, 3, 4), (1 << 21) | (2 << 14) | (3 << 7) | 4);
    assert_eq!(unpack_four(pack_four(200, 2, 127, 128)), (127, 2, 127, 127));
    assert_eq!(pack_with_work(300, 5, 123_456), (127 << 21) | (5 << 14) | 123);
    assert_eq!(field(pack_with_work(0, 0, 20_000_000), 0, 0x3FFF), 20_000 & 0x3FFF);
    assert_eq!(pack_total(2000, 9, 8), (1023 << 14) | (9 << 7) | 8);
    assert_eq!(pack_two(6, 500), (6 << 7) | 127);
    assert_eq!(pack_phase(500, 7_000), (127 << 24) | 7);
    assert!(pack_gap(0x8000, 0) < 0);
    assert_eq!(field(pack_gap(0x1_8001, 3), 16, 0xFFFF), 0x8001);
    assert_eq!(work_status(usize::MAX), ((usize::MAX / 1000) as u32) as i32);
}

#[test]
fn workload_patterns() {
    assert_eq!((bursty_sleep(3, 1), bursty_sleep(3, 2)), (3, 1));
    assert_eq!((bursty_work(5, 0), bursty_work(5, 1), bursty_work(6, 1)), (250_000, 30_000, 30_000));
    assert_eq!(bursty_work(3, 0), 80_000);
    assert_eq!((ambiguous_sleep(2, 1), ambiguous_sleep(2, 2)), (1, 2));
    assert_eq!((ambiguous_work(4, 1), ambiguous_work(4, 2)), (300_000, 45_000));
    assert!(in_sleep_phase(100, 109, 10));
    assert!(!in_sleep_phase(100, 110, 10));
    assert!(in_sleep_phase(100, 120, 10));
    assert_eq!((flip_work(true), flip_work(false)), (30_000, 250_000));
}

#[test]
fn counting_child() {
    let mut counter = Counter::new();
    for i in 1..=20_000 {
        assert_eq!(counter.tick(), i % 10_000 == 0);
    }
    assert_eq!(counter.status(), 20);
    counter.worked(50_000);
    assert_eq!(counter.status(), 70);
    assert!(counter.goes_on(4, 5) && !counter.goes_on(5, 5));
}

#[test]
fn sleeping_child() {
    let mut sleeper: Sleeper<20> = Sleeper::new();
    for i in 0..10 {
        sleeper.wake(9 - i);
        sleeper.worked(25_000);
    }
    sleeper.skip();
    assert!(!sleeper.is_done());
    assert_eq!((sleeper.cycle, sleeper.work), (11, 250_000));
    assert_eq!((sleeper.log.total, sleeper.log.max), (45, 9));
    assert_eq!(sleeper.percentile(95), 9);
    assert_eq!(sleeper.percentile(50), 0);
    assert_eq!(sleeper.percentile(75), 5);
    assert_eq!(unpack_four(sleeper.status_totals()), (45, 2, 9, 9));
    assert_eq!(unpack_four(sleeper.status_tail()), (2, 9, 9, 9));
    assert_eq!(sleeper.status_overshoot(), (45 << 14) | (9 << 7) | 9);
    assert_eq!(sleeper.status_with_work(), (9 << 21) | (9 << 14) | 250);
    assert_eq!(sleeper.status_delays(), (9 << 7) | 9);
    assert_eq!(sleeper.status_total(), 45);
    assert!(sleeper.goes_on(1, 2) && !sleeper.goes_on(2, 2));
    for _ in 11..20 {
        sleeper.skip();
    }
    assert!(sleeper.is_done());
    assert!(!sleeper.goes_on(1, 2));
}

#[test]
fn periodic_child() {
    let mut log: PeriodicLog<6> = PeriodicLog::new();
    for late in [0, 1, 2, 5, 1] {
        log.record(late);
        log.worked(90_000);
    }
    assert_eq!((log.miss_count, log.max_late, log.work), (2, 5, 450_000));
    assert!(log.goes_on(9, 10) && !log.goes_on(10, 10));
    log.record(0);
    assert!(!log.goes_on(9, 10));
    assert_eq!(log.status(), (2 << 21) | (5 << 14) | 450);
}

#[test]
fn gaps_between_turns() {
    let mut log = GapLog::new(100);
    assert_eq!(log.avg_gap_100(), 0);
    log.observe(107);
    assert_eq!((log.total_gap, log.max_gap, log.num_gaps), (0, 0, 1));
    log.observe(107);
    log.observe(112);
    log.observe(114);
    assert_eq!((log.total_gap, log.max_gap, log.num_gaps), (7, 5, 4));
    assert_eq!(log.avg_gap_100(), 233);
    assert!(log.goes_on(115) && !log.goes_on(114));
    assert_eq!(log.status(), (5 << 16) | 233);
}

#[test]
fn split_and_epoch_reports() {
    let children = [child(5, 7), child(9, 3), child(6, 10), child(8, 4)];
    let report = split_report(&children, &[5, 6, 7]);
    assert_eq!((report.work, report.delay), (17_000, 7));

    let children = [child(1, 30), child(2, pack_total(40, 5, 9)), child(3, pack_total(2, 6, 7))];
    let report = epoch_report(&children, &[1, 11, 12, 13]);
    assert_eq!((report.io_resp, report.io_p95, report.io_max), (42, 6, 9));
    assert_eq!(report.batch_work, 30_000);
}

#[test]
fn burst_and_starvation_reports() {
    let children = [
        child(1, 5),
        child(2, pack_with_work(4, 9, 77_000)),
        child(3, pack_with_work(6, 8, 3_999)),
    ];
    let report = burst_report(&children, &[1]);
    assert_eq!((report.delay_p95, report.delay_max), (6, 9));
    assert_eq!((report.batch_work, report.bursty_work), (5_000, 80_000));

    let children = [child(1, 5), child(4, pack_two(2, 3)), child(2, 8), child(5, -1)];
    let report = starve_io_report(&children, &[1, 2]);
    assert_eq!((report.batch_min, report.batch_max), (5_000, 8_000));
    assert_eq!((report.sleeper_p95, report.sleeper_max), (127, 127));
    let report = starve_io_report(&[], &[1, 2]);
    assert_eq!((report.batch_min, report.batch_max), (u64::MAX, 0));
}

#[test]
fn mixed_class_report() {
    let mut classes =
        Classes { interactive: [0; 8], periodic: [0; 8], batch: [0; 24], bursty: [0; 8] };
    classes.interactive[0] = 11;
    classes.periodic[0] = 12;
    classes.periodic[1] = 13;
    classes.batch[0] = 14;
    classes.batch[1] = 15;
    classes.bursty[7] = 16;
    assert_eq!(classes.class_of(15), Class::Batch);
    assert_eq!(classes.class_of(0), Class::Interactive);
    assert_eq!(classes.class_of(99), Class::Unknown);
    let children = [
        child(14, 9),
        child(11, pack_with_work(3, 4, 0)),
        child(12, pack_with_work(2, 6, 0)),
        child(13, pack_with_work(1, 7, 0)),
        child(15, 20),
        child(16, pack_with_work(8, 9, 55_000)),
        child(99, 1),
    ];
    let r = mixed_report(&children, &classes);
    assert_eq!((r.interactive_p95, r.interactive_max), (3, 4));
    assert_eq!((r.periodic_miss, r.periodic_max), (3, 7));
    assert_eq!((r.batch_work, r.batch_min, r.batch_max), (29_000, 9_000, 20_000));
    assert_eq!((r.bursty_p95, r.bursty_max, r.bursty_work), (8, 9, 55_000));
}

#[test]
fn phase_and_gap_reports() {
    let children = [child(1, work_status(4_000)), child(2, pack_phase(9, 6_000))];
    let r = phase_report(&children);
    assert_eq!((r.phase1_delay, r.phase2_work), (9, 10_000));
    assert_eq!((r.min_work, r.max_work), (4_000, 6_000));

    let children = [child(1, pack_gap(3, 150)), child(2, pack_gap(5, 251))];
    let r = gap_report(&children);
    assert_eq!((r.max_gap, r.avg_gap_100, r.spread), (5, 200, 300));
    assert_eq!(gap_spread(1, 500), 0);
}

#[test]
fn reports_do_not_depend_on_the_order_of_exit() {
    let a = [child(1, 4), child(2, 9), child(3, 1)];
    let b = [child(3, 1), child(1, 4), child(2, 9)];
    assert_eq!(work_report(&a), work_report(&b));
    assert_eq!(split_report(&a, &[2]), split_report(&b, &[2]));
}

#[test]
fn adaptation_report() {
    let children = [
        child(3, work_status(1_000_000_000)),
        child(4, work_status(20_000)),
        child(6, count_status(17)),
        child(7, count_status(70_000)),
    ];
    let phase1 = [120_000u64, 10_000, 2_000_000_000, 50_000];
    assert!(can_adapt(&children, &[3, 4, 5], &phase1));
    let r = adapt_report(&children, &[3, 4, 5], &phase1);
    assert_eq!(r.phase1_work, 2_000_180_000);
    assert_eq!(r.phase2_work, 1_000_020_000);
    assert_eq!(r.phase2_delay, 70_017);
    assert!(!can_adapt(&children, &[3, 4, 5], &[u64::MAX, 1]));
    assert!(!can_adapt(&[child(3, -1)], &[3], &phase1));
}

#[test]
fn sums_that_do_not_fit_are_reported() {
    let one = [child(1, 5), child(2, -1)];
    assert!(can_split(&one, &[1]));
    assert_eq!(split_report(&one, &[1]).delay, u64::MAX);
    assert!(!can_split(&one, &[2]));
    assert!(!can_split(&[child(1, 1), child(2, -1)], &[9]));
    assert!(can_count(&one, &[1]) && !can_count(&one, &[1, 2]));
    assert!(!all_count(&one) && all_count(&one[..1]));
    assert!(!can_add_latencies(&one));
    assert!(can_add_latencies(&one[1..]));
    assert_eq!(latency_report(&one[1..]).max, u64::MAX);
    assert!(!can_add_latencies(&vec![child(1, 0); 65]));
}

#[test]
fn parents_count_forks_and_waits() {
    let mut tally = Throughput::new(10);
    tally.completed();
    assert!(tally.goes_on(109) && !tally.goes_on(110));
    assert_eq!((tally.count, tally.elapsed(110)), (1, 100));

    let mut tally = Acceptance::new();
    for _ in 0..60 {
        assert!(tally.forks_on());
        tally.forked(true);
    }
    assert!(!tally.forks_on());

    let mut tally = Acceptance::new();
    tally.forked(true);
    tally.forked(true);
    tally.forked(false);
    assert!(!tally.forks_on() && tally.fork_failed);
    assert!(tally.waits_on());
    tally.waited(true);
    tally.waited(false);
    assert!(!tally.waits_on());
    assert_eq!((tally.accepted, tally.completed), (2, 1));
}

#[test]
fn delays_until_a_phase_ends() {
    let mut sum = DelaySum::new();
    assert!(sum.goes_on(3, 4));
    sum.wake(2);
    sum.wake(5);
    assert_eq!(sum.total, 7);
    assert!(!sum.goes_on(4, 4));
}

#[test]
fn mean_gap_in_ticks() {
    let r = gap_report(&[child(1, pack_gap(3, 207))]);
    assert_eq!(r.avg_gap(), (2, 7));
}
