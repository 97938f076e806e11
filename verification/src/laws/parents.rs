//! Laws of the reports, stated of the operations as they are called.

use crate::bench::report::{
    adapt_report, adapts, can_adapt, can_add_latencies, can_count, can_split, counts, epoch_report,
    gap_report, latencies_add_up, latency, latency_report, mixed_report, phase_report, plausible,
    split_report, splits, starve_io_report, status_outside, sum_of, total, unsigned, work_report,
    AdaptReport, Child, Classes, EpochReport, GapReport, LatencyReport, MixedReport, PhaseReport,
    SplitReport, StarveIoReport, WorkReport,
};
use crate::bench::status::{low_i32, pack_gap, pack_phase, total_is, two_are, with_work_is};
use crate::laws::reports::{
    added_up, apart, arriving, counted, is_bottom, is_top, lemma_adapt_round_trip,
    lemma_epoch_round_trip, lemma_gap_round_trip, lemma_latency_round_trip, lemma_mixed_round_trip,
    lemma_phase_round_trip, lemma_split_round_trip, lemma_starve_io_round_trip,
    lemma_work_round_trip, of_others, of_those, unchanged,
};
use vstd::prelude::*;

verus! {

/// Round trip through `epoch_report`.
pub proof fn lemma_epoch_report<const N: usize>(
    children: &[Child],
    pids: [usize; N],
    totals: Seq<usize>,
    p95: Seq<usize>,
    max: Seq<usize>,
    counters: Seq<usize>,
    r: EpochReport,
)
    requires
        call_ensures(epoch_report::<N>, (children, &pids), r),
        totals.len() == children@.len(),
        p95.len() == children@.len(),
        max.len() == children@.len(),
        counted(children@, pids@, counters),
        forall|i: int|
            0 <= i < children@.len() && !pids@.contains((#[trigger] children@[i]).pid) ==> {
                &&& total_is(children@[i].status, totals[i], p95[i], max[i])
                &&& totals[i] <= 1023
                &&& p95[i] <= 127
                &&& max[i] <= 127
            },
    ensures
        r.io_resp == added_up(of_others(children@, pids@, unchanged(totals)), children@.len()),
        is_top(of_others(children@, pids@, unchanged(p95)), r.io_p95 as int),
        is_top(of_others(children@, pids@, unchanged(max)), r.io_max as int),
        r.batch_work == added_up(
            of_those(children@, pids@, arriving(counters), 0),
            children@.len(),
        ),
{
    lemma_epoch_round_trip(children@, pids@, totals, p95, max, counters, r);
}

/// Round trip through `starve_io_report`.
pub proof fn lemma_starve_io_report<const N: usize>(
    children: &[Child],
    pids: [usize; N],
    p95: Seq<usize>,
    max: Seq<usize>,
    counters: Seq<usize>,
    r: StarveIoReport,
)
    requires
        call_ensures(starve_io_report::<N>, (children, &pids), r),
        p95.len() == children@.len(),
        max.len() == children@.len(),
        counted(children@, pids@, counters),
        forall|i: int|
            0 <= i < children@.len() && !pids@.contains((#[trigger] children@[i]).pid) ==> {
                &&& two_are(children@[i].status, p95[i], max[i])
                &&& p95[i] <= 127
                &&& max[i] <= 127
            },
    ensures
        is_top(of_others(children@, pids@, unchanged(p95)), r.sleeper_p95 as int),
        is_top(of_others(children@, pids@, unchanged(max)), r.sleeper_max as int),
        is_top(of_those(children@, pids@, arriving(counters), 0), r.batch_max as int),
        is_bottom(
            of_those(children@, pids@, arriving(counters), u64::MAX as int),
            r.batch_min as int,
        ),
{
    lemma_starve_io_round_trip(children@, pids@, p95, max, counters, r);
}

/// Round trip through `split_report` and `adapt_report`.
pub proof fn lemma_split_report<const N: usize>(
    children: &[Child],
    pids: [usize; N],
    phase1: &[u64],
    delays: Seq<usize>,
    counters: Seq<usize>,
    r: SplitReport,
    a: AdaptReport,
)
    requires
        call_ensures(split_report::<N>, (children, &pids), r),
        call_ensures(adapt_report::<N>, (children, &pids, phase1), a),
        delays.len() == children@.len(),
        counted(children@, pids@, counters),
        forall|i: int|
            0 <= i < children@.len() && !pids@.contains((#[trigger] children@[i]).pid)
                ==> delays[i] <= 0x7fff_ffff && children@[i].status == low_i32(delays[i] as int),
    ensures
        r.work == added_up(of_those(children@, pids@, arriving(counters), 0), children@.len()),
        r.delay == added_up(of_others(children@, pids@, unchanged(delays)), children@.len()),
        a.phase2_work == r.work,
        a.phase2_delay == r.delay,
        a.phase1_work == added_up(
            Seq::new(phase1@.len(), |i: int| phase1@[i] as int),
            phase1@.len(),
        ),
{
    lemma_split_round_trip(children@, pids@, delays, counters, r);
    lemma_adapt_round_trip(children@, pids@, phase1@, delays, counters, a);
}

/// Round trip through `work_report`.
pub proof fn lemma_work_report(children: &[Child], counters: Seq<usize>, r: WorkReport)
    requires
        call_ensures(work_report, (children,), r),
        counters.len() == children@.len(),
        forall|i: int|
            #![trigger children@[i]]
            #![trigger counters[i]]
            0 <= i < children@.len() ==> counters[i] <= 0x1f3_ffff_ffff && children@[i].status
                == low_i32(counters[i] as int / 1000),
    ensures
        r.total == added_up(arriving(counters), children@.len()),
        is_bottom(arriving(counters), r.min as int),
        is_top(arriving(counters), r.max as int),
{
    lemma_work_round_trip(children@, counters, r);
}

/// Round trip from `pack_phase` through `phase_report`.
pub proof fn lemma_phase_report(
    children: &[Child],
    delays: Seq<usize>,
    counters: Seq<usize>,
    r: PhaseReport,
)
    requires
        call_ensures(phase_report, (children,), r),
        delays.len() == children@.len(),
        counters.len() == children@.len(),
        forall|i: int|
            #![trigger children@[i]]
            #![trigger delays[i]]
            #![trigger counters[i]]
            0 <= i < children@.len() ==> {
                &&& delays[i] <= 127
                &&& counters[i] as int / 1000 < 0x100_0000
                &&& call_ensures(pack_phase, (delays[i], counters[i]), children@[i].status)
            },
    ensures
        r.phase1_delay == added_up(unchanged(delays), children@.len()),
        r.phase2_work == added_up(arriving(counters), children@.len()),
        is_bottom(arriving(counters), r.min_work as int),
        is_top(arriving(counters), r.max_work as int),
{
    lemma_phase_round_trip(children@, delays, counters, r);
}

/// Round trip from `pack_gap` through `gap_report`; the spread is what the
/// largest gap has over the mean.
pub proof fn lemma_gap_report(
    children: &[Child],
    gaps: Seq<usize>,
    means: Seq<usize>,
    r: GapReport,
)
    requires
        children@.len() > 0,
        call_ensures(gap_report, (children,), r),
        gaps.len() == children@.len(),
        means.len() == children@.len(),
        forall|i: int|
            #![trigger children@[i]]
            #![trigger gaps[i]]
            #![trigger means[i]]
            0 <= i < children@.len() ==> {
                &&& gaps[i] < 0x1_0000
                &&& means[i] < 0x1_0000
                &&& call_ensures(pack_gap, (gaps[i], means[i]), children@[i].status)
            },
    ensures
        is_top(unchanged(gaps), r.max_gap as int),
        r.avg_gap_100 * children@.len() <= added_up(unchanged(means), children@.len()) < (
        r.avg_gap_100 + 1) * children@.len(),
        r.max_gap * 100 >= r.avg_gap_100 ==> r.avg_gap_100 + r.spread == r.max_gap * 100,
        r.max_gap * 100 <= r.avg_gap_100 ==> r.spread == 0,
{
    lemma_gap_round_trip(children@, gaps, means, r);
}

/// Round trip through `latency_report`.
pub proof fn lemma_latency_report(children: &[Child], latencies: Seq<usize>, r: LatencyReport)
    requires
        0 < children@.len() <= 64,
        call_ensures(latency_report, (children,), r),
        latencies.len() == children@.len(),
        forall|i: int|
            #![trigger children@[i]]
            #![trigger latencies[i]]
            0 <= i < children@.len() ==> latencies[i] <= 0x7fff_ffff && children@[i].status
                == low_i32(latencies[i] as int),
    ensures
        r.total == added_up(unchanged(latencies), children@.len()),
        r.avg * children@.len() <= r.total < (r.avg + 1) * children@.len(),
        is_top(unchanged(latencies), r.max as int),
{
    lemma_latency_round_trip(children@, latencies, r);
}

/// Round trip through `mixed_report`.
pub proof fn lemma_mixed_report(
    children: &[Child],
    classes: Classes,
    a: Seq<usize>,
    b: Seq<usize>,
    counters: Seq<usize>,
    r: MixedReport,
)
    requires
        call_ensures(mixed_report, (children, &classes), r),
        apart(classes),
        a.len() == children@.len(),
        b.len() == children@.len(),
        counted(children@, classes.batch@, counters),
        forall|i: int|
            0 <= i < children@.len() && !classes.batch@.contains((#[trigger] children@[i]).pid)
                ==> {
                &&& with_work_is(children@[i].status, a[i], b[i], counters[i])
                &&& counters[i] as int / 1000 < 0x4000
                &&& a[i] <= 127
                &&& b[i] <= 127
            },
    ensures
        is_top(
            of_those(children@, classes.interactive@, unchanged(a), 0),
            r.interactive_p95 as int,
        ),
        is_top(
            of_those(children@, classes.interactive@, unchanged(b), 0),
            r.interactive_max as int,
        ),
        r.periodic_miss == added_up(
            of_those(children@, classes.periodic@, unchanged(a), 0),
            children@.len(),
        ),
        is_top(of_those(children@, classes.periodic@, unchanged(b), 0), r.periodic_max as int),
        r.batch_work == added_up(
            of_those(children@, classes.batch@, arriving(counters), 0),
            children@.len(),
        ),
        is_top(of_those(children@, classes.batch@, arriving(counters), 0), r.batch_max as int),
        is_bottom(
            of_those(children@, classes.batch@, arriving(counters), u64::MAX as int),
            r.batch_min as int,
        ),
        is_top(of_those(children@, classes.bursty@, unchanged(a), 0), r.bursty_p95 as int),
        is_top(of_those(children@, classes.bursty@, unchanged(b), 0), r.bursty_max as int),
        r.bursty_work == added_up(
            of_those(children@, classes.bursty@, arriving(counters), 0),
            children@.len(),
        ),
{
    lemma_mixed_round_trip(children@, classes, a, b, counters, r);
}

proof fn lemma_total_bounded(children: Seq<Child>, figure: spec_fn(Child) -> int, n: nat)
    requires
        n <= children.len(),
        forall|i: int| 0 <= i < n ==> 0 <= figure(#[trigger] children[i]) <= 0x7fff_ffff,
    ensures
        0 <= total(children, figure, n) <= n * 0x7fff_ffff,
    decreases n,
{
    if n > 0 {
        lemma_total_bounded(children, figure, (n - 1) as nat);
        assert(0 <= figure(children[n - 1]) <= 0x7fff_ffff);
    }
}

/// A parent refuses no report about children that exited with a status that is
/// not negative, as long as there are no more than the process table holds.
pub proof fn lemma_reports_are_not_refused<const N: usize>(
    children: &[Child],
    pids: [usize; N],
    phase1: &[u64],
    a: bool,
    b: bool,
    c: bool,
    d: bool,
)
    requires
        children@.len() <= 64,
        forall|i: int| 0 <= i < children@.len() ==> (#[trigger] children@[i]).status >= 0,
        sum_of(phase1@, phase1@.len()) <= u64::MAX,
        call_ensures(can_count::<N>, (children, &pids), a),
        call_ensures(can_split::<N>, (children, &pids), b),
        call_ensures(can_adapt::<N>, (children, &pids, phase1), c),
        call_ensures(can_add_latencies, (children,), d),
    ensures
        a && b && c && d,
        plausible(children@),
        counts(children@, pids@),
        splits(children@, pids@),
        adapts(children@, pids@, phase1@),
        latencies_add_up(children@),
        call_requires(work_report, (children,)),
        call_requires(split_report::<N>, (children, &pids)),
        call_requires(adapt_report::<N>, (children, &pids, phase1)),
        call_requires(epoch_report::<N>, (children, &pids)),
        call_requires(starve_io_report::<N>, (children, &pids)),
        call_requires(latency_report, (children,)),
        call_requires(phase_report, (children,)),
        call_requires(gap_report, (children,)),
{
    lemma_total_bounded(children@, status_outside(pids@), children@.len());
    lemma_total_bounded(children@, latency(), children@.len());
}

/// A status that is negative stands for the number of its type that has the same
/// bits, extended by ones.
pub proof fn lemma_negative_status_is_large(status: i32)
    ensures
        status >= 0 ==> unsigned(status) == status,
        status < 0 ==> unsigned(status) - status == 0x1_0000_0000_0000_0000,
{
}

} // verus!
