//! Laws of what a parent learns of its children: what a child measured is what
//! the parent reports, as far as it fits the exit status.

use crate::bench::report::{
    child_avg, child_gap, field_outside, largest, latency, least, low_work_outside, phase_delay,
    phase_work, status_outside, sum_of, total, work, work_among, work_only, AdaptReport,
    BurstReport, Child, Class, Classes, EpochReport, GapReport, LatencyReport, MixedReport,
    PhaseReport, SplitReport, StarveIoReport, WorkReport,
};
use crate::bench::status::{capped, field_of, low_i32, total_is, two_are, with_work_is};
use vstd::prelude::*;

verus! {

/// The sum of the first `n` numbers.
pub open spec fn added_up(values: Seq<int>, n: nat) -> int
    decreases n,
{
    if n == 0 {
        0
    } else {
        added_up(values, (n - 1) as nat) + values[n - 1]
    }
}

/// `top` is the largest of the numbers, or 0 if none is larger.
pub open spec fn is_top(values: Seq<int>, top: int) -> bool {
    &&& top >= 0
    &&& forall|i: int| 0 <= i < values.len() ==> #[trigger] values[i] <= top
    &&& top == 0 || exists|i: int| 0 <= i < values.len() && #[trigger] values[i] == top
}

/// `bottom` is the least of the numbers that are below the limit of a 64-bit
/// counter, or that limit if there is none.
pub open spec fn is_bottom(values: Seq<int>, bottom: int) -> bool {
    &&& forall|i: int| 0 <= i < values.len() ==> bottom <= #[trigger] values[i]
    &&& bottom == u64::MAX || exists|i: int| 0 <= i < values.len() && #[trigger] values[i] == bottom
}

/// The numbers of the children among `pids`, and `other` for the rest.
pub open spec fn of_those(
    children: Seq<Child>,
    pids: Seq<usize>,
    values: Seq<int>,
    other: int,
) -> Seq<int> {
    Seq::new(
        children.len(),
        |i: int|
            if pids.contains(children[i].pid) {
                values[i]
            } else {
                other
            },
    )
}

/// The numbers of the children that are not among `pids`, and 0 for the rest.
pub open spec fn of_others(children: Seq<Child>, pids: Seq<usize>, values: Seq<int>) -> Seq<int> {
    Seq::new(
        children.len(),
        |i: int|
            if pids.contains(children[i].pid) {
                0
            } else {
                values[i]
            },
    )
}

/// A counter as it arrives: in whole thousands.
pub open spec fn arriving(counters: Seq<usize>) -> Seq<int> {
    Seq::new(counters.len(), |i: int| counters[i] as int / 1000 * 1000)
}

/// Figures as they are.
pub open spec fn unchanged(figures: Seq<usize>) -> Seq<int> {
    Seq::new(figures.len(), |i: int| figures[i] as int)
}

proof fn lemma_total_adds_up(
    children: Seq<Child>,
    figure: spec_fn(Child) -> int,
    values: Seq<int>,
    n: nat,
)
    requires
        n <= children.len(),
        forall|i: int| 0 <= i < n ==> figure(#[trigger] children[i]) == values[i],
    ensures
        total(children, figure, n) == added_up(values, n),
    decreases n,
{
    if n > 0 {
        lemma_total_adds_up(children, figure, values, (n - 1) as nat);
        assert(figure(children[n - 1]) == values[n - 1]);
    }
}

proof fn lemma_largest_is_top(
    children: Seq<Child>,
    figure: spec_fn(Child) -> int,
    values: Seq<int>,
    n: nat,
)
    requires
        n <= children.len(),
        forall|i: int| 0 <= i < n ==> figure(#[trigger] children[i]) == values[i],
    ensures
        ({
            let top = largest(children, figure, n);
            &&& top >= 0
            &&& forall|i: int| 0 <= i < n ==> #[trigger] values[i] <= top
            &&& top == 0 || exists|i: int| 0 <= i < n && #[trigger] values[i] == top
        }),
    decreases n,
{
    if n > 0 {
        let before = (n - 1) as nat;
        lemma_largest_is_top(children, figure, values, before);
        assert(figure(children[n - 1]) == values[n - 1]);
        let old_top = largest(children, figure, before);
        if values[n - 1] > old_top {
            assert(values[n - 1] == largest(children, figure, n));
        } else if old_top != 0 {
            let i = choose|i: int| 0 <= i < before && #[trigger] values[i] == old_top;
            assert(values[i] == largest(children, figure, n));
        }
    }
}

proof fn lemma_least_is_bottom(
    children: Seq<Child>,
    figure: spec_fn(Child) -> int,
    values: Seq<int>,
    n: nat,
)
    requires
        n <= children.len(),
        forall|i: int| 0 <= i < n ==> figure(#[trigger] children[i]) == values[i],
    ensures
        ({
            let bottom = least(children, figure, n);
            &&& forall|i: int| 0 <= i < n ==> bottom <= #[trigger] values[i]
            &&& bottom == u64::MAX || exists|i: int| 0 <= i < n && #[trigger] values[i] == bottom
        }),
    decreases n,
{
    if n > 0 {
        let before = (n - 1) as nat;
        lemma_least_is_bottom(children, figure, values, before);
        assert(figure(children[n - 1]) == values[n - 1]);
        let old_bottom = least(children, figure, before);
        if values[n - 1] < old_bottom {
            assert(values[n - 1] == least(children, figure, n));
        } else if old_bottom != u64::MAX {
            let i = choose|i: int| 0 <= i < before && #[trigger] values[i] == old_bottom;
            assert(values[i] == least(children, figure, n));
        }
    }
}

/// A figure that fits its field comes through as it is, a larger one as the
/// largest that fits.
pub proof fn lemma_cap_keeps_what_fits(value: usize, limit: u32)
    ensures
        value <= limit ==> capped(value, limit) == value,
        value >= limit ==> capped(value, limit) == limit,
{
}

/// The fields of a status are its digits: a status that is not negative is the
/// sum of its fields, each times the weight of its place, in each of the ways in
/// which a status is divided up.
pub proof fn lemma_fields_make_up_status(status: i32)
    requires
        status >= 0,
    ensures
        status < 0x1000_0000 ==> status == field_of(status, 21, 0x7F) * 0x20_0000 + field_of(
            status,
            14,
            0x7F,
        ) * 0x4000 + field_of(status, 7, 0x7F) * 0x80 + field_of(status, 0, 0x7F),
        status < 0x1000_0000 ==> status == field_of(status, 21, 0x7F) * 0x20_0000 + field_of(
            status,
            14,
            0x7F,
        ) * 0x4000 + field_of(status, 0, 0x3FFF),
        status < 0x100_0000 ==> status == field_of(status, 14, 0x3FF) * 0x4000 + field_of(
            status,
            7,
            0x7F,
        ) * 0x80 + field_of(status, 0, 0x7F),
        status == field_of(status, 24, 0xFF) * 0x100_0000 + field_of(status, 0, 0xFF_FFFF),
        status == field_of(status, 16, 0xFFFF) * 0x1_0000 + field_of(status, 0, 0xFFFF),
{
    let x = status as u32;
    assert(x < 0x1000_0000 ==> x == ((x >> 21u32) & 0x7F) * 0x20_0000 + ((x >> 14u32) & 0x7F)
        * 0x4000 + ((x >> 7u32) & 0x7F) * 0x80 + ((x >> 0u32) & 0x7F)) by (bit_vector);
    assert(x < 0x1000_0000 ==> x == ((x >> 21u32) & 0x7F) * 0x20_0000 + ((x >> 14u32) & 0x7F)
        * 0x4000 + ((x >> 0u32) & 0x3FFF)) by (bit_vector);
    assert(x < 0x100_0000 ==> x == ((x >> 14u32) & 0x3FF) * 0x4000 + ((x >> 7u32) & 0x7F) * 0x80
        + ((x >> 0u32) & 0x7F)) by (bit_vector);
    assert(x == ((x >> 24u32) & 0xFF) * 0x100_0000 + ((x >> 0u32) & 0xFF_FFFF)) by (bit_vector);
    assert(x == ((x >> 16u32) & 0xFFFF) * 0x1_0000 + ((x >> 0u32) & 0xFFFF)) by (bit_vector);
}

/// The low 32 bits of a number are that number up to a multiple of the word
/// size, and the number itself where it fits.
pub proof fn lemma_low_bits(x: int)
    requires
        x >= 0,
    ensures
        -0x8000_0000 <= low_i32(x) <= 0x7fff_ffff,
        (x - low_i32(x)) % 0x1_0000_0000 == 0,
        x <= 0x7fff_ffff ==> low_i32(x) == x,
{
}

/// What computing children counted is what the parent reports of them, in whole
/// thousands.
pub open spec fn counted(children: Seq<Child>, pids: Seq<usize>, counters: Seq<usize>) -> bool {
    &&& counters.len() == children.len()
    &&& forall|i: int|
        0 <= i < children.len() && pids.contains((#[trigger] children[i]).pid) ==> counters[i]
            <= 0x1f3_ffff_ffff && children[i].status == low_i32(counters[i] as int / 1000)
}

/// Round trip between bursty children and their parent. For the children that
/// are not among `pids` and put a 95th percentile, a maximum and a counter into
/// their exit status, the bursty work is the sum of the counters in whole
/// thousands, as long as the thousands of each fit 14 bits, and the two delays
/// are the largest of theirs, as long as each fits 7 bits. For the others the
/// batch work is the sum of their counters in whole thousands.
pub proof fn lemma_burst_round_trip(
    children: Seq<Child>,
    pids: Seq<usize>,
    p95: Seq<usize>,
    max: Seq<usize>,
    counters: Seq<usize>,
    r: BurstReport,
)
    requires
        r.batch_work == total(children, work_among(pids), children.len()),
        r.bursty_work == total(children, low_work_outside(pids), children.len()),
        r.delay_p95 == largest(children, field_outside(pids, 21, 0x7F), children.len()),
        r.delay_max == largest(children, field_outside(pids, 14, 0x7F), children.len()),
        p95.len() == children.len(),
        max.len() == children.len(),
        counted(children, pids, counters),
        forall|i: int|
            0 <= i < children.len() && !pids.contains((#[trigger] children[i]).pid) ==> {
                &&& with_work_is(children[i].status, p95[i], max[i], counters[i])
                &&& counters[i] as int / 1000 < 0x4000
                &&& p95[i] <= 127
                &&& max[i] <= 127
            },
    ensures
        r.bursty_work == added_up(of_others(children, pids, arriving(counters)), children.len()),
        is_top(of_others(children, pids, unchanged(p95)), r.delay_p95 as int),
        is_top(of_others(children, pids, unchanged(max)), r.delay_max as int),
        r.batch_work == added_up(of_those(children, pids, arriving(counters), 0), children.len()),
{
    let n = children.len();
    lemma_total_adds_up(
        children,
        low_work_outside(pids),
        of_others(children, pids, arriving(counters)),
        n,
    );
    lemma_largest_is_top(
        children,
        field_outside(pids, 21, 0x7F),
        of_others(children, pids, unchanged(p95)),
        n,
    );
    lemma_largest_is_top(
        children,
        field_outside(pids, 14, 0x7F),
        of_others(children, pids, unchanged(max)),
        n,
    );
    lemma_total_adds_up(
        children,
        work_among(pids),
        of_those(children, pids, arriving(counters), 0),
        n,
    );
}

/// Round trip between interactive children and their parent: totals up to 1023
/// are added up, percentiles and maxima up to 127 are compared, and the counters
/// of the other children are added up in whole thousands.
pub proof fn lemma_epoch_round_trip(
    children: Seq<Child>,
    pids: Seq<usize>,
    totals: Seq<usize>,
    p95: Seq<usize>,
    max: Seq<usize>,
    counters: Seq<usize>,
    r: EpochReport,
)
    requires
        r.batch_work == total(children, work_among(pids), children.len()),
        r.io_resp == total(children, field_outside(pids, 14, 0x3FF), children.len()),
        r.io_p95 == largest(children, field_outside(pids, 7, 0x7F), children.len()),
        r.io_max == largest(children, field_outside(pids, 0, 0x7F), children.len()),
        totals.len() == children.len(),
        p95.len() == children.len(),
        max.len() == children.len(),
        counted(children, pids, counters),
        forall|i: int|
            0 <= i < children.len() && !pids.contains((#[trigger] children[i]).pid) ==> {
                &&& total_is(children[i].status, totals[i], p95[i], max[i])
                &&& totals[i] <= 1023
                &&& p95[i] <= 127
                &&& max[i] <= 127
            },
    ensures
        r.io_resp == added_up(of_others(children, pids, unchanged(totals)), children.len()),
        is_top(of_others(children, pids, unchanged(p95)), r.io_p95 as int),
        is_top(of_others(children, pids, unchanged(max)), r.io_max as int),
        r.batch_work == added_up(of_those(children, pids, arriving(counters), 0), children.len()),
{
    let n = children.len();
    lemma_total_adds_up(
        children,
        field_outside(pids, 14, 0x3FF),
        of_others(children, pids, unchanged(totals)),
        n,
    );
    lemma_largest_is_top(
        children,
        field_outside(pids, 7, 0x7F),
        of_others(children, pids, unchanged(p95)),
        n,
    );
    lemma_largest_is_top(
        children,
        field_outside(pids, 0, 0x7F),
        of_others(children, pids, unchanged(max)),
        n,
    );
    lemma_total_adds_up(
        children,
        work_among(pids),
        of_those(children, pids, arriving(counters), 0),
        n,
    );
}

/// Round trip between sleepers and their parent: percentiles and maxima up to
/// 127 are compared, and of the counters of the other children the least and the
/// largest are found, in whole thousands.
pub proof fn lemma_starve_io_round_trip(
    children: Seq<Child>,
    pids: Seq<usize>,
    p95: Seq<usize>,
    max: Seq<usize>,
    counters: Seq<usize>,
    r: StarveIoReport,
)
    requires
        r.batch_min == least(children, work_only(pids), children.len()),
        r.batch_max == largest(children, work_among(pids), children.len()),
        r.sleeper_p95 == largest(children, field_outside(pids, 7, 0x7F), children.len()),
        r.sleeper_max == largest(children, field_outside(pids, 0, 0x7F), children.len()),
        p95.len() == children.len(),
        max.len() == children.len(),
        counted(children, pids, counters),
        forall|i: int|
            0 <= i < children.len() && !pids.contains((#[trigger] children[i]).pid) ==> {
                &&& two_are(children[i].status, p95[i], max[i])
                &&& p95[i] <= 127
                &&& max[i] <= 127
            },
    ensures
        is_top(of_others(children, pids, unchanged(p95)), r.sleeper_p95 as int),
        is_top(of_others(children, pids, unchanged(max)), r.sleeper_max as int),
        is_top(of_those(children, pids, arriving(counters), 0), r.batch_max as int),
        is_bottom(
            of_those(children, pids, arriving(counters), u64::MAX as int),
            r.batch_min as int,
        ),
{
    let n = children.len();
    lemma_largest_is_top(
        children,
        field_outside(pids, 7, 0x7F),
        of_others(children, pids, unchanged(p95)),
        n,
    );
    lemma_largest_is_top(
        children,
        field_outside(pids, 0, 0x7F),
        of_others(children, pids, unchanged(max)),
        n,
    );
    lemma_largest_is_top(
        children,
        work_among(pids),
        of_those(children, pids, arriving(counters), 0),
        n,
    );
    lemma_least_is_bottom(
        children,
        work_only(pids),
        of_those(children, pids, arriving(counters), u64::MAX as int),
        n,
    );
}

/// Round trip between children that compute or wait and their parent: the
/// counters of those among `pids` are added up in whole thousands, and the
/// delays of the others as they are.
pub proof fn lemma_split_round_trip(
    children: Seq<Child>,
    pids: Seq<usize>,
    delays: Seq<usize>,
    counters: Seq<usize>,
    r: SplitReport,
)
    requires
        r.work == total(children, work_among(pids), children.len()),
        r.delay == total(children, status_outside(pids), children.len()),
        delays.len() == children.len(),
        counted(children, pids, counters),
        forall|i: int|
            0 <= i < children.len() && !pids.contains((#[trigger] children[i]).pid) ==> delays[i]
                <= 0x7fff_ffff && children[i].status == low_i32(delays[i] as int),
    ensures
        r.work == added_up(of_those(children, pids, arriving(counters), 0), children.len()),
        r.delay == added_up(of_others(children, pids, unchanged(delays)), children.len()),
{
    let n = children.len();
    lemma_total_adds_up(
        children,
        work_among(pids),
        of_those(children, pids, arriving(counters), 0),
        n,
    );
    lemma_total_adds_up(
        children,
        status_outside(pids),
        of_others(children, pids, unchanged(delays)),
        n,
    );
}

/// The same for children that first all compute: what they counted in the first
/// phase is added up as it is.
pub proof fn lemma_adapt_round_trip(
    children: Seq<Child>,
    pids: Seq<usize>,
    phase1: Seq<u64>,
    delays: Seq<usize>,
    counters: Seq<usize>,
    r: AdaptReport,
)
    requires
        r.phase1_work == sum_of(phase1, phase1.len()),
        r.phase2_work == total(children, work_among(pids), children.len()),
        r.phase2_delay == total(children, status_outside(pids), children.len()),
        delays.len() == children.len(),
        counted(children, pids, counters),
        forall|i: int|
            0 <= i < children.len() && !pids.contains((#[trigger] children[i]).pid) ==> delays[i]
                <= 0x7fff_ffff && children[i].status == low_i32(delays[i] as int),
    ensures
        r.phase1_work == added_up(Seq::new(phase1.len(), |i: int| phase1[i] as int), phase1.len()),
        r.phase2_work == added_up(of_those(children, pids, arriving(counters), 0), children.len()),
        r.phase2_delay == added_up(of_others(children, pids, unchanged(delays)), children.len()),
{
    let second = SplitReport { work: r.phase2_work, delay: r.phase2_delay };
    lemma_split_round_trip(children, pids, delays, counters, second);
    lemma_sum_adds_up(phase1, phase1.len());
}

proof fn lemma_sum_adds_up(counters: Seq<u64>, n: nat)
    requires
        n <= counters.len(),
    ensures
        sum_of(counters, n) == added_up(Seq::new(counters.len(), |i: int| counters[i] as int), n),
    decreases n,
{
    if n > 0 {
        lemma_sum_adds_up(counters, (n - 1) as nat);
    }
}

/// Round trip between identical computing children and their parent: total,
/// least and largest of their counters in whole thousands.
pub proof fn lemma_work_round_trip(children: Seq<Child>, counters: Seq<usize>, r: WorkReport)
    requires
        r.total == total(children, work(), children.len()),
        r.min == least(children, work(), children.len()),
        r.max == largest(children, work(), children.len()),
        counters.len() == children.len(),
        forall|i: int|
            0 <= i < children.len() ==> counters[i] <= 0x1f3_ffff_ffff && (
            #[trigger] children[i]).status == low_i32(counters[i] as int / 1000),
    ensures
        r.total == added_up(arriving(counters), children.len()),
        is_bottom(arriving(counters), r.min as int),
        is_top(arriving(counters), r.max as int),
{
    let n = children.len();
    lemma_total_adds_up(children, work(), arriving(counters), n);
    lemma_largest_is_top(children, work(), arriving(counters), n);
    lemma_least_is_bottom(children, work(), arriving(counters), n);
}

/// Round trip between children with a waiting and a computing phase and their
/// parent: delays up to 127 are added up, and of the counters the total, the
/// least and the largest are found, in whole thousands that fit 24 bits.
pub proof fn lemma_phase_round_trip(
    children: Seq<Child>,
    delays: Seq<usize>,
    counters: Seq<usize>,
    r: PhaseReport,
)
    requires
        r.phase1_delay == total(children, phase_delay(), children.len()),
        r.phase2_work == total(children, phase_work(), children.len()),
        r.min_work == least(children, phase_work(), children.len()),
        r.max_work == largest(children, phase_work(), children.len()),
        delays.len() == children.len(),
        counters.len() == children.len(),
        forall|i: int|
            0 <= i < children.len() ==> {
                let status = (#[trigger] children[i]).status;
                &&& delays[i] <= 127
                &&& counters[i] as int / 1000 < 0x100_0000
                &&& field_of(status, 24, 0xFF) == capped(delays[i], 0x7F)
                &&& field_of(status, 0, 0xFF_FFFF) == (counters[i] as int / 1000) % 0x100_0000
            },
    ensures
        r.phase1_delay == added_up(unchanged(delays), children.len()),
        r.phase2_work == added_up(arriving(counters), children.len()),
        is_bottom(arriving(counters), r.min_work as int),
        is_top(arriving(counters), r.max_work as int),
{
    let n = children.len();
    lemma_total_adds_up(children, phase_delay(), unchanged(delays), n);
    lemma_total_adds_up(children, phase_work(), arriving(counters), n);
    lemma_largest_is_top(children, phase_work(), arriving(counters), n);
    lemma_least_is_bottom(children, phase_work(), arriving(counters), n);
}

/// Round trip between children that watch for gaps and their parent: the largest
/// of their largest gaps, and the mean of their mean gaps, rounded down.
pub proof fn lemma_gap_round_trip(
    children: Seq<Child>,
    gaps: Seq<usize>,
    means: Seq<usize>,
    r: GapReport,
)
    requires
        children.len() > 0,
        r.max_gap == largest(children, child_gap(), children.len()),
        r.avg_gap_100 == total(children, child_avg(), children.len()) / (if children.len() > 1 {
            children.len() as int
        } else {
            1
        }),
        gaps.len() == children.len(),
        means.len() == children.len(),
        forall|i: int|
            0 <= i < children.len() ==> {
                let status = (#[trigger] children[i]).status;
                &&& gaps[i] < 0x1_0000
                &&& means[i] < 0x1_0000
                &&& field_of(status, 16, 0xFFFF) == gaps[i] as int % 0x1_0000
                &&& field_of(status, 0, 0xFFFF) == means[i] as int % 0x1_0000
            },
    ensures
        is_top(unchanged(gaps), r.max_gap as int),
        r.avg_gap_100 * children.len() <= added_up(unchanged(means), children.len()) < (
        r.avg_gap_100 + 1) * children.len(),
{
    let n = children.len();
    lemma_largest_is_top(children, child_gap(), unchanged(gaps), n);
    lemma_total_adds_up(children, child_avg(), unchanged(means), n);
    let t = added_up(unchanged(means), n);
    let c = n as int;
    let a = r.avg_gap_100 as int;
    assert(a * c <= t < (a + 1) * c) by (nonlinear_arith)
        requires
            c > 0,
            a == t / c,
    ;
}

/// Round trip between children that report one latency each and their parent:
/// total, mean rounded down, and largest.
pub proof fn lemma_latency_round_trip(
    children: Seq<Child>,
    latencies: Seq<usize>,
    r: LatencyReport,
)
    requires
        0 < children.len() <= 64,
        r.total == total(children, latency(), children.len()),
        r.avg == r.total / (if children.len() > 1 {
            children.len() as u64
        } else {
            1
        }),
        r.max == largest(children, latency(), children.len()),
        latencies.len() == children.len(),
        forall|i: int|
            0 <= i < children.len() ==> latencies[i] <= 0x7fff_ffff && (
            #[trigger] children[i]).status == low_i32(latencies[i] as int),
    ensures
        r.total == added_up(unchanged(latencies), children.len()),
        r.avg * children.len() <= r.total < (r.avg + 1) * children.len(),
        is_top(unchanged(latencies), r.max as int),
{
    let n = children.len();
    lemma_total_adds_up(children, latency(), unchanged(latencies), n);
    lemma_largest_is_top(children, latency(), unchanged(latencies), n);
    let t = r.total as int;
    let c = n as int;
    let a = r.avg as int;
    assert(a * c <= t < (a + 1) * c) by (nonlinear_arith)
        requires
            c > 0,
            a == t / c,
    ;
}

/// A pid that several lists have belongs to the first of them: interactive,
/// periodic, computing, ambiguous.
pub proof fn lemma_first_class_wins(classes: Classes, pid: usize)
    ensures
        classes.interactive@.contains(pid) ==> classes.class(pid) == Class::Interactive,
        !classes.interactive@.contains(pid) && classes.periodic@.contains(pid) ==> classes.class(
            pid,
        ) == Class::Periodic,
        !classes.interactive@.contains(pid) && !classes.periodic@.contains(pid)
            && classes.batch@.contains(pid) ==> classes.class(pid) == Class::Batch,
        classes.class(pid) == Class::Bursty ==> classes.bursty@.contains(pid),
        classes.class(pid) == Class::Unknown <==> !classes.interactive@.contains(pid)
            && !classes.periodic@.contains(pid) && !classes.batch@.contains(pid)
            && !classes.bursty@.contains(pid),
{
}

/// The four classes have no pid in common.
pub open spec fn apart(classes: Classes) -> bool {
    forall|pid: usize|
        {
            &&& #[trigger] classes.interactive@.contains(pid) ==> !classes.periodic@.contains(pid)
                && !classes.batch@.contains(pid) && !classes.bursty@.contains(pid)
            &&& classes.periodic@.contains(pid) ==> !classes.batch@.contains(pid)
                && !classes.bursty@.contains(pid)
            &&& classes.batch@.contains(pid) ==> !classes.bursty@.contains(pid)
        }
}

/// Round trip between the children of the mixed workload and their parent. Each
/// class is reported by its own children alone: the worst percentile and delay
/// of the interactive ones, the missed activations together and the worst
/// lateness of the periodic ones, the total and the extremes of what the
/// computing ones counted, and the worst percentile and delay and the work of
/// the ambiguous ones. Figures up to 127, and thousands that fit 14 bits, come
/// through as they are.
pub proof fn lemma_mixed_round_trip(
    children: Seq<Child>,
    classes: Classes,
    a: Seq<usize>,
    b: Seq<usize>,
    counters: Seq<usize>,
    r: MixedReport,
)
    requires
        classes.sums_up(children, children.len(), r),
        apart(classes),
        a.len() == children.len(),
        b.len() == children.len(),
        counted(children, classes.batch@, counters),
        forall|i: int|
            0 <= i < children.len() && !classes.batch@.contains((#[trigger] children[i]).pid)
                ==> {
                &&& with_work_is(children[i].status, a[i], b[i], counters[i])
                &&& counters[i] as int / 1000 < 0x4000
                &&& a[i] <= 127
                &&& b[i] <= 127
            },
    ensures
        is_top(
            of_those(children, classes.interactive@, unchanged(a), 0),
            r.interactive_p95 as int,
        ),
        is_top(
            of_those(children, classes.interactive@, unchanged(b), 0),
            r.interactive_max as int,
        ),
        r.periodic_miss == added_up(
            of_those(children, classes.periodic@, unchanged(a), 0),
            children.len(),
        ),
        is_top(of_those(children, classes.periodic@, unchanged(b), 0), r.periodic_max as int),
        r.batch_work == added_up(
            of_those(children, classes.batch@, arriving(counters), 0),
            children.len(),
        ),
        is_bottom(
            of_those(children, classes.batch@, arriving(counters), u64::MAX as int),
            r.batch_min as int,
        ),
        is_top(of_those(children, classes.batch@, arriving(counters), 0), r.batch_max as int),
        is_top(of_those(children, classes.bursty@, unchanged(a), 0), r.bursty_p95 as int),
        is_top(of_those(children, classes.bursty@, unchanged(b), 0), r.bursty_max as int),
        r.bursty_work == added_up(
            of_those(children, classes.bursty@, arriving(counters), 0),
            children.len(),
        ),
{
    let n = children.len();
    let x = Class::Interactive;
    let y = Class::Periodic;
    let z = Class::Bursty;
    assert(forall|i: int|
        0 <= i < n ==> (classes.interactive@.contains((#[trigger] children[i]).pid)
            || !classes.interactive@.contains(children[i].pid)));
    lemma_largest_is_top(
        children,
        classes.field_in(x, 21, 0x7F),
        of_those(children, classes.interactive@, unchanged(a), 0),
        n,
    );
    lemma_largest_is_top(
        children,
        classes.field_in(x, 14, 0x7F),
        of_those(children, classes.interactive@, unchanged(b), 0),
        n,
    );
    lemma_total_adds_up(
        children,
        classes.field_in(y, 21, 0x7F),
        of_those(children, classes.periodic@, unchanged(a), 0),
        n,
    );
    lemma_largest_is_top(
        children,
        classes.field_in(y, 14, 0x7F),
        of_those(children, classes.periodic@, unchanged(b), 0),
        n,
    );
    lemma_total_adds_up(
        children,
        classes.batch_work(0),
        of_those(children, classes.batch@, arriving(counters), 0),
        n,
    );
    lemma_least_is_bottom(
        children,
        classes.batch_work(u64::MAX as int),
        of_those(children, classes.batch@, arriving(counters), u64::MAX as int),
        n,
    );
    lemma_largest_is_top(
        children,
        classes.batch_work(0),
        of_those(children, classes.batch@, arriving(counters), 0),
        n,
    );
    lemma_largest_is_top(
        children,
        classes.field_in(z, 21, 0x7F),
        of_those(children, classes.bursty@, unchanged(a), 0),
        n,
    );
    lemma_largest_is_top(
        children,
        classes.field_in(z, 14, 0x7F),
        of_those(children, classes.bursty@, unchanged(b), 0),
        n,
    );
    lemma_total_adds_up(
        children,
        classes.bursty_work(),
        of_those(children, classes.bursty@, arriving(counters), 0),
        n,
    );
}

} // verus!
