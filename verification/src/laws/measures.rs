//! Laws of what children and parents measure, stated of the operations as they
//! are called.

use crate::bench::child::{percentile_of, Counter, DelaySum, GapLog, PeriodicLog, Sleeper};
use crate::bench::delays::{
    contains, lateness, mean, mean_hundredths, overshoot, sort, DelayLog,
};
use crate::bench::parent::{Acceptance, Throughput};
use crate::bench::report::{gap_spread, Class, Classes, GapReport};
use crate::bench::status::{
    count_status, field_of, pack_four, pack_gap, pack_phase, pack_total, pack_two, pack_with_work,
    status_work, unpack_four, work_status,
};
use crate::laws::reports::lemma_fields_make_up_status;
use vstd::prelude::*;

verus! {

/// A counter goes up by one with each iteration and by the length of a burst
/// with each burst, and calls for a look at the clock every ten thousandth
/// iteration.
pub proof fn lemma_counter_counts(n: usize)
    ensures
        forall|c: &mut Counter, look: bool|
            #[trigger] call_ensures(Counter::tick, (c,), look) ==> final(c).count == c.count + 1
                && (look <==> (c.count + 1) % 10000 == 0),
        forall|c: &mut Counter|
            #[trigger] call_ensures(Counter::worked, (c, n), ()) ==> final(c).count == c.count + n,
        forall|c: Counter| #[trigger] call_ensures(Counter::new, (), c) ==> c.count == 0,
{
}

/// A computing child goes on until the end and not beyond.
pub proof fn lemma_children_stop_at_end(c: Counter, d: DelaySum, g: GapLog, now: usize, end: usize)
    ensures
        forall|b: bool|
            #[trigger] call_ensures(Counter::goes_on, (&c, now, end), b) ==> (b <==> now < end),
        forall|b: bool|
            #[trigger] call_ensures(DelaySum::goes_on, (&d, now, end), b) ==> (b <==> now < end),
        forall|b: bool|
            #[trigger] call_ensures(GapLog::goes_on, (&g, end), b) ==> (b <==> g.prev_time < end),
{
}

/// A counter comes back from an exit status in whole thousands.
pub proof fn lemma_counter_comes_back(c: Counter, status: i32, work: u64)
    requires
        c.count <= 0x1f3_ffff_ffff,
        call_ensures(Counter::status, (&c,), status),
        call_ensures(status_work, (status,), work),
    ensures
        status >= 0,
        work <= c.count < work + 1000,
        work % 1000 == 0,
{
}

/// A count comes back as it is, and so does a counter, in thousands.
pub proof fn lemma_counts_come_back(count: usize, a: i32, b: i32)
    requires
        count <= 0x7fff_ffff,
        call_ensures(count_status, (count,), a),
        call_ensures(work_status, (count,), b),
    ensures
        a == count,
        b * 1000 <= count < b * 1000 + 1000,
{
}

/// A wakeup is recorded as it was: the delay of the cycle, the total more by
/// it, the largest delay of all; a cycle without a sleep records nothing. The
/// work is counted apart.
pub proof fn lemma_sleeper_records<const N: usize>(n: usize)
    ensures
        forall|s: &mut Sleeper<N>|
            #[trigger] call_ensures(Sleeper::<N>::wake, (s, n), ()) && s.cycle < N ==> {
                &&& final(s).cycle == s.cycle + 1
                &&& final(s).log.delays@[s.cycle as int] == n
                &&& forall|k: int|
                    0 <= k < N && k != s.cycle ==> #[trigger] final(s).log.delays@[k]
                        == s.log.delays@[k]
                &&& final(s).log.total == s.log.total + n
                &&& final(s).log.max >= n
                &&& final(s).log.max >= s.log.max
                &&& final(s).log.max == n || final(s).log.max == s.log.max
                &&& final(s).work == s.work
            },
        forall|s: &mut Sleeper<N>|
            #[trigger] call_ensures(Sleeper::<N>::skip, (s,), ()) ==> final(s).cycle == s.cycle + 1
                && final(s).log == s.log && final(s).work == s.work,
        forall|s: &mut Sleeper<N>|
            #[trigger] call_ensures(Sleeper::<N>::worked, (s, n), ()) ==> final(s).work == s.work
                + n && final(s).log == s.log && final(s).cycle == s.cycle,
{
}

/// A sleeper is done after all its cycles, and stops at the end of its time
/// even before.
pub proof fn lemma_sleeper_stops<const N: usize>(s: Sleeper<N>, now: usize, end: usize)
    requires
        s.wf(),
    ensures
        forall|b: bool|
            #[trigger] call_ensures(Sleeper::<N>::is_done, (&s,), b) ==> (b <==> s.cycle >= N),
        forall|b: bool|
            #[trigger] call_ensures(Sleeper::<N>::goes_on, (&s, now, end), b) ==> (b <==> s.cycle
                < N && now < end),
{
}

/// What a sleeper puts into its exit status, while each figure is at most 127
/// and the thousands of its work fit 14 bits: its total, mean, 95th and 99th
/// percentile, maximum and work, each in its field.
pub proof fn lemma_sleeper_reports<const N: usize>(s: Sleeper<N>, r: i32)
    requires
        0 < N <= 0x10_0000,
        s.log.total <= 127,
        percentile_of(s.log.delays@, 95) <= 127,
        percentile_of(s.log.delays@, 99) <= 127,
        s.log.max <= 127,
        s.work as int / 1000 < 0x4000,
    ensures
        call_ensures(Sleeper::<N>::status_total, (&s,), r) ==> r == s.log.total,
        call_ensures(Sleeper::<N>::status_totals, (&s,), r) ==> {
            &&& field_of(r, 21, 0x7F) == s.log.total
            &&& field_of(r, 14, 0x7F) * N <= s.log.total < (field_of(r, 14, 0x7F) + 1) * N
            &&& field_of(r, 7, 0x7F) == percentile_of(s.log.delays@, 95)
            &&& field_of(r, 0, 0x7F) == s.log.max
        },
        call_ensures(Sleeper::<N>::status_tail, (&s,), r) ==> {
            &&& field_of(r, 21, 0x7F) * N <= s.log.total < (field_of(r, 21, 0x7F) + 1) * N
            &&& field_of(r, 14, 0x7F) == percentile_of(s.log.delays@, 95)
            &&& field_of(r, 7, 0x7F) == percentile_of(s.log.delays@, 99)
            &&& field_of(r, 0, 0x7F) == s.log.max
        },
        call_ensures(Sleeper::<N>::status_overshoot, (&s,), r) ==> {
            &&& field_of(r, 14, 0x3FF) == s.log.total
            &&& field_of(r, 7, 0x7F) == percentile_of(s.log.delays@, 95)
            &&& field_of(r, 0, 0x7F) == s.log.max
        },
        call_ensures(Sleeper::<N>::status_with_work, (&s,), r) ==> {
            &&& field_of(r, 21, 0x7F) == percentile_of(s.log.delays@, 95)
            &&& field_of(r, 14, 0x7F) == s.log.max
            &&& field_of(r, 0, 0x3FFF) == s.work as int / 1000
        },
        call_ensures(Sleeper::<N>::status_delays, (&s,), r) ==> {
            &&& field_of(r, 7, 0x7F) == percentile_of(s.log.delays@, 95)
            &&& field_of(r, 0, 0x7F) == s.log.max
        },
{
    let t = s.log.total as int;
    let n = N as int;
    let q = t / n;
    assert(q * n <= t < (q + 1) * n && 0 <= q <= t) by (nonlinear_arith)
        requires
            n > 0,
            t >= 0,
            q == t / n,
    ;
}

/// Four figures come back from an exit status in the order in which they were
/// put there.
pub proof fn lemma_four_come_back<const N: usize>(
    s: Sleeper<N>,
    r: i32,
    figures: (u32, u32, u32, u32),
)
    requires
        0 < N <= 0x10_0000,
        s.log.total <= 127,
        percentile_of(s.log.delays@, 95) <= 127,
        percentile_of(s.log.delays@, 99) <= 127,
        s.log.max <= 127,
        call_ensures(Sleeper::<N>::status_totals, (&s,), r),
        call_ensures(unpack_four, (r,), figures),
    ensures
        figures.0 == s.log.total,
        figures.1 * N <= s.log.total < (figures.1 + 1) * N,
        figures.2 == percentile_of(s.log.delays@, 95),
        figures.3 == s.log.max,
{
    let t = s.log.total as int;
    let n = N as int;
    let q = t / n;
    assert(q * n <= t < (q + 1) * n && 0 <= q <= t) by (nonlinear_arith)
        requires
            n > 0,
            t >= 0,
            q == t / n,
    ;
}

/// Delays are added up as they come.
pub proof fn lemma_delays_add_up(n: usize)
    ensures
        forall|d: &mut DelaySum|
            #[trigger] call_ensures(DelaySum::wake, (d, n), ()) ==> final(d).total == d.total + n,
{
}

/// An activation is missed if it is two or more ticks late, and only so. The
/// worst lateness counts all of them.
pub proof fn lemma_periodic_misses<const N: usize>(late: usize)
    ensures
        forall|p: &mut PeriodicLog<N>|
            #[trigger] call_ensures(PeriodicLog::<N>::record, (p, late), ()) ==> {
                &&& final(p).cycle == p.cycle + 1
                &&& late >= 2 ==> final(p).miss_count == p.miss_count + 1
                &&& late < 2 ==> final(p).miss_count == p.miss_count
                &&& final(p).max_late >= late
                &&& final(p).max_late >= p.max_late
                &&& final(p).max_late == late || final(p).max_late == p.max_late
                &&& final(p).work == p.work
            },
        forall|p: &mut PeriodicLog<N>|
            #[trigger] call_ensures(PeriodicLog::<N>::worked, (p, late), ()) ==> final(p).work
                == p.work + late && final(p).miss_count == p.miss_count && final(p).max_late
                == p.max_late && final(p).cycle == p.cycle,
{
}

/// What a periodic child puts into its exit status: missed activations, worst
/// lateness and work, while they fit.
pub proof fn lemma_periodic_reports<const N: usize>(
    p: PeriodicLog<N>,
    r: i32,
    now: usize,
    end: usize,
    b: bool,
)
    requires
        p.miss_count <= 127,
        p.max_late <= 127,
        p.work as int / 1000 < 0x4000,
        call_ensures(PeriodicLog::<N>::status, (&p,), r),
        call_ensures(PeriodicLog::<N>::goes_on, (&p, now, end), b),
    ensures
        field_of(r, 21, 0x7F) == p.miss_count,
        field_of(r, 14, 0x7F) == p.max_late,
        field_of(r, 0, 0x3FFF) == p.work as int / 1000,
        b <==> p.cycle < N && now < end,
{
}

/// The first moment that a task notices begins the log; from then on the time
/// since the last one is a gap, which adds to the total and may be the largest.
pub proof fn lemma_gaps_are_between_moments(now: usize)
    ensures
        forall|g: &mut GapLog|
            #[trigger] call_ensures(GapLog::observe, (g, now), ()) ==> {
                &&& final(g).prev_time == now
                &&& final(g).num_gaps == g.num_gaps + 1
                &&& g.num_gaps == 0 ==> final(g).total_gap == g.total_gap && final(g).max_gap
                    == g.max_gap
                &&& g.num_gaps > 0 ==> {
                    &&& final(g).total_gap - g.total_gap == now - g.prev_time
                    &&& final(g).max_gap >= now - g.prev_time
                    &&& final(g).max_gap >= g.max_gap
                    &&& final(g).max_gap == g.max_gap || final(g).max_gap == now - g.prev_time
                }
            },
        forall|g: GapLog|
            #[trigger] call_ensures(GapLog::new, (now,), g) ==> g.prev_time == now && g.num_gaps
                == 0 && g.total_gap == 0 && g.max_gap == 0,
{
}

/// The mean gap is that of all gaps, in hundredths rounded down, and is reported
/// beside the largest.
pub proof fn lemma_mean_gap(g: GapLog, avg: usize, r: i32)
    requires
        call_ensures(GapLog::avg_gap_100, (&g,), avg),
        call_ensures(GapLog::status, (&g,), r),
        g.max_gap < 0x1_0000,
        avg < 0x1_0000,
    ensures
        g.num_gaps <= 1 ==> avg == 0,
        g.num_gaps > 1 ==> avg * (g.num_gaps - 1) <= g.total_gap * 100 < (avg + 1) * (g.num_gaps
            - 1),
        field_of(r, 16, 0xFFFF) == g.max_gap,
        field_of(r, 0, 0xFFFF) == avg,
{
    if g.num_gaps > 1 {
        let t = g.total_gap * 100;
        let n = g.num_gaps - 1;
        let q = avg as int;
        assert(q * n <= t < (q + 1) * n) by (nonlinear_arith)
            requires
                n > 0,
                q == t / n,
        ;
    }
}

/// The spread is what the largest gap has over the mean, and never negative.
pub proof fn lemma_spread(max_gap: u64, avg: u64, spread: u64, g: GapReport, parts: (u64, u64))
    requires
        call_ensures(gap_spread, (max_gap, avg), spread),
        call_ensures(GapReport::avg_gap, (&g,), parts),
    ensures
        max_gap * 100 >= avg ==> avg + spread == max_gap * 100,
        max_gap * 100 <= avg ==> spread == 0,
        parts.0 * 100 + parts.1 == g.avg_gap_100,
        parts.1 < 100,
{
}

/// A parent counts complete cycles for a hundred ticks.
pub proof fn lemma_throughput_lasts_hundred_ticks(t: Throughput, now: usize, b: bool, e: usize)
    requires
        call_ensures(Throughput::goes_on, (&t, now), b),
        call_ensures(Throughput::elapsed, (&t, now), e),
        t.start <= now,
    ensures
        b <==> now < t.start + 100,
        t.start + e == now,
        forall|u: &mut Throughput|
            #[trigger] call_ensures(Throughput::completed, (u,), ()) ==> final(u).count == u.count
                + 1 && final(u).start == u.start,
        forall|u: Throughput|
            #[trigger] call_ensures(Throughput::new, (now,), u) ==> u.start == now && u.count == 0,
{
}

/// A parent forks up to sixty children, until a fork fails, and waits once for
/// each that was accepted; a child is complete if its wait succeeded.
pub proof fn lemma_acceptance_counts(a: Acceptance, f: bool, w: bool, success: bool)
    requires
        call_ensures(Acceptance::forks_on, (&a,), f),
        call_ensures(Acceptance::waits_on, (&a,), w),
    ensures
        f <==> a.accepted < 60 && !a.fork_failed,
        w <==> a.waits < a.accepted,
        forall|b: &mut Acceptance|
            #[trigger] call_ensures(Acceptance::forked, (b, success), ()) && b.accepted < 60 ==> {
                &&& success ==> final(b).accepted == b.accepted + 1 && final(b).fork_failed
                    == b.fork_failed
                &&& !success ==> final(b).accepted == b.accepted && final(b).fork_failed
                &&& final(b).completed == b.completed
                &&& final(b).waits == b.waits
            },
        forall|b: &mut Acceptance|
            #[trigger] call_ensures(Acceptance::waited, (b, success), ()) && b.completed <= b.waits
                < b.accepted <= 60 ==> {
                &&& final(b).waits == b.waits + 1
                &&& success ==> final(b).completed == b.completed + 1
                &&& !success ==> final(b).completed == b.completed
                &&& final(b).accepted == b.accepted
                &&& final(b).fork_failed == b.fork_failed
            },
{
}

/// A sleep that lasted longer than requested overshot by the difference; one
/// that did not overshot by nothing. An activation is late in the same sense.
pub proof fn lemma_overshoot_is_excess(
    before: usize,
    after: usize,
    asked: usize,
    a: usize,
    b: usize,
)
    requires
        before <= after,
        before + asked <= usize::MAX,
        call_ensures(overshoot, (before, after, asked), a),
        call_ensures(lateness, (before, after, asked), b),
    ensures
        before + asked <= after ==> before + asked + a == after,
        before + asked >= after ==> a == 0,
        b == a,
{
}

/// A mean times the number of measurements is their total, rounded down, where
/// no measurement counts as one.
pub proof fn lemma_mean_times_count(total: usize, count: usize, a: usize, b: usize)
    requires
        call_ensures(mean, (total, count), a),
        call_ensures(mean_hundredths, (total, count), b),
    ensures
        count > 0 ==> a * count <= total < (a + 1) * count,
        count > 0 ==> b * count <= total * 100 < (b + 1) * count,
        count == 0 ==> a == total && b == total * 100,
{
    if count > 0 {
        lemma_quotient(total as int, count as int);
        lemma_quotient(total * 100, count as int);
        if count == 1 {
            assert(a == total && b == total * 100);
        }
    }
}

proof fn lemma_quotient(a: int, b: int)
    requires
        b > 0,
    ensures
        a / b * b <= a < (a / b + 1) * b,
{
    let q = a / b;
    assert(q * b <= a < (q + 1) * b) by (nonlinear_arith)
        requires
            b > 0,
            q == a / b,
    ;
}

/// A delay log keeps what it is given, its total and its maximum, and sorting it
/// changes neither.
pub proof fn lemma_log_keeps_delays<const N: usize>(i: usize, delay: usize)
    requires
        i < N,
    ensures
        forall|l: &mut DelayLog<N>|
            #[trigger] call_ensures(DelayLog::<N>::record, (l, i, delay), ()) ==> {
                &&& final(l).delays@[i as int] == delay
                &&& forall|k: int|
                    0 <= k < N && k != i ==> #[trigger] final(l).delays@[k] == l.delays@[k]
                &&& final(l).total == l.total + delay
                &&& final(l).max >= delay && final(l).max >= l.max
                &&& final(l).max == delay || final(l).max == l.max
            },
        forall|l: &mut DelayLog<N>|
            #[trigger] call_ensures(DelayLog::<N>::settle, (l,), ()) ==> final(l).total == l.total
                && final(l).max == l.max,
{
}

/// The packings write their figures as digits: while each fits its place, the
/// status is the sum of the figures, each times the weight of its place.
pub proof fn lemma_packings_write_digits(
    a: usize,
    b: usize,
    c: usize,
    d: usize,
    four: i32,
    with_work: i32,
    with_total: i32,
    two: i32,
)
    requires
        a <= 127,
        b <= 127,
        c <= 127,
        d <= 127,
        call_ensures(pack_four, (a, b, c, d), four),
        call_ensures(pack_with_work, (a, b, (c * 1000) as usize), with_work),
        call_ensures(pack_total, (a, b, c), with_total),
        call_ensures(pack_two, (a, b), two),
    ensures
        four == a * 0x20_0000 + b * 0x4000 + c * 0x80 + d,
        with_work == a * 0x20_0000 + b * 0x4000 + c,
        with_total == a * 0x4000 + b * 0x80 + c,
        two == a * 0x80 + b,
{
    lemma_fields_make_up_status(four);
    lemma_fields_make_up_status(with_work);
    lemma_fields_make_up_status(with_total);
    lemma_fields_make_up_status(two);
    assert(field_of(two, 21, 0x7F) == 0 && field_of(two, 14, 0x7F) == 0);
}

/// The same for a delay above a counter, and for a largest gap above a mean.
pub proof fn lemma_wide_packings_write_digits(a: usize, b: usize, phase: i32, gap: i32)
    requires
        a <= 127,
        b <= 0xFFFF,
        call_ensures(pack_phase, (a, (b * 1000) as usize), phase),
        call_ensures(pack_gap, (a, b), gap),
    ensures
        phase == a * 0x100_0000 + b,
        gap == a * 0x1_0000 + b,
{
    lemma_fields_make_up_status(phase);
    lemma_fields_make_up_status(gap);
}

/// Every measurement begins at nothing.
pub proof fn lemma_measurements_begin_at_nothing<const N: usize>(
    s: Sleeper<N>,
    l: DelayLog<N>,
    d: DelaySum,
    p: PeriodicLog<N>,
    a: Acceptance,
    i: int,
)
    requires
        call_ensures(Sleeper::<N>::new, (), s),
        call_ensures(DelayLog::<N>::new, (), l),
        call_ensures(DelaySum::new, (), d),
        call_ensures(PeriodicLog::<N>::new, (), p),
        call_ensures(Acceptance::new, (), a),
        0 <= i < N,
    ensures
        s.cycle == 0 && s.work == 0 && s.log.total == 0 && s.log.max == 0,
        s.log.delays@[i] == 0,
        l.total == 0 && l.max == 0 && l.delays@[i] == 0,
        d.total == 0,
        p.cycle == 0 && p.miss_count == 0 && p.max_late == 0 && p.work == 0,
        a.accepted == 0 && a.completed == 0 && a.waits == 0 && !a.fork_failed,
{
    assert(s.log.delays@[i] == 0);
}

/// A list has a value if some entry is that value, and sorting it keeps its
/// entries.
pub proof fn lemma_lists<const N: usize>(items: [usize; N], value: usize, found: bool, i: int)
    requires
        call_ensures(contains::<N>, (&items, value), found),
        0 <= i < N,
    ensures
        items@[i] == value ==> found,
        found ==> exists|k: int| 0 <= k < N && #[trigger] items@[k] == value,
        forall|l: &mut [usize; N]|
            #[trigger] call_ensures(sort::<N>, (l,), ()) ==> final(l)@.to_multiset()
                == l@.to_multiset() && final(l)@[0] <= final(l)@[i] <= final(l)@[N - 1],
{
}

/// `class_of` goes by the first list that has a pid.
pub proof fn lemma_class_of_pid(classes: Classes, pid: usize, class: Class)
    requires
        call_ensures(Classes::class_of, (&classes, pid), class),
    ensures
        class == Class::Interactive <==> classes.interactive@.contains(pid),
        class == Class::Periodic <==> classes.periodic@.contains(pid)
            && !classes.interactive@.contains(pid),
        class == Class::Batch <==> classes.batch@.contains(pid) && !classes.interactive@.contains(
            pid,
        ) && !classes.periodic@.contains(pid),
        class == Class::Bursty <==> classes.bursty@.contains(pid) && !classes.interactive@.contains(
            pid,
        ) && !classes.periodic@.contains(pid) && !classes.batch@.contains(pid),
{
}

} // verus!
