//! What the children of a workload measure.

use crate::bench::delays::{ascending, lemma_sorted_unique, mean, percentile, rank, DelayLog};
use crate::bench::status::{
    count_status, field_of, four_are, low_i32, pack_four, pack_gap, pack_total, pack_two,
    pack_with_work, total_is, two_are, with_work_is, work_status,
};
use vstd::prelude::*;

verus! {

/// Iterations between two looks at the clock.
pub const CLOCK_INTERVAL: usize = 10000;

/// The work of a computing child.
#[derive(Clone, Copy, Debug, PartialEq, Eq, Structural)]
pub struct Counter {
    pub count: usize,
}

impl Counter {
    pub fn new() -> (r: Self)
        ensures
            r.count == 0,
    {
        Counter { count: 0 }
    }

    /// Counts one iteration, and tells whether it is time to look at the clock.
    pub fn tick(&mut self) -> (look: bool)
        requires
            old(self).count < usize::MAX,
        ensures
            final(self).count == old(self).count + 1,
            look == (final(self).count % CLOCK_INTERVAL == 0),
    {
        self.count = self.count + 1;
        self.count % CLOCK_INTERVAL == 0
    }

    /// Counts the iterations of a whole burst.
    pub fn worked(&mut self, iterations: usize)
        requires
            old(self).count + iterations <= usize::MAX,
        ensures
            final(self).count == old(self).count + iterations,
    {
        self.count = self.count + iterations;
    }

    /// Whether the child goes on counting at time `now`.
    pub fn goes_on(&self, now: usize, end: usize) -> (b: bool)
        ensures
            b == (now < end),
    {
        now < end
    }

    /// The exit status of the child.
    pub fn status(&self) -> (r: i32)
        ensures
            r == low_i32(self.count as int / 1000),
            self.count as int / 1000 <= i32::MAX ==> r == self.count as int / 1000,
    {
        work_status(self.count)
    }
}

/// The percentile of a sequence of delays, whatever order they came in.
pub open spec fn percentile_of(delays: Seq<usize>, percent: int) -> usize {
    let sorted = choose|s: Seq<usize>|
        ascending(s) && s.to_multiset() == delays.to_multiset();
    sorted[rank(delays.len() as int, percent)]
}

/// A child that sleeps and wakes, at most `N` times.
#[derive(Clone, Copy, Debug)]
pub struct Sleeper<const N: usize> {
    pub log: DelayLog<N>,
    /// Cycles done so far.
    pub cycle: usize,
    /// Iterations of work done so far.
    pub work: usize,
}

impl<const N: usize> Sleeper<N> {
    /// Nothing is recorded of the cycles to come.
    pub open spec fn wf(self) -> bool {
        &&& self.log.wf()
        &&& self.cycle <= N
        &&& forall|i: int| self.cycle <= i < N ==> #[trigger] self.log.delays@[i] == 0
    }

    pub fn new() -> (r: Self)
        ensures
            r.wf(),
            r.cycle == 0,
            r.work == 0,
            r.log.total == 0,
            r.log.max == 0,
    {
        Sleeper { log: DelayLog::new(), cycle: 0, work: 0 }
    }

    /// All cycles are done.
    pub fn is_done(&self) -> (b: bool)
        requires
            self.wf(),
        ensures
            b == (self.cycle == N),
    {
        self.cycle >= N
    }

    /// Whether there is another cycle at time `now`.
    pub fn goes_on(&self, now: usize, end: usize) -> (b: bool)
        requires
            self.wf(),
        ensures
            b == (self.cycle < N && now < end),
    {
        self.cycle < N && now < end
    }

    /// The child wakes from the sleep of this cycle, `delay` ticks late.
    pub fn wake(&mut self, delay: usize)
        requires
            old(self).wf(),
            old(self).cycle < N,
            old(self).log.total + delay <= usize::MAX,
        ensures
            final(self).wf(),
            final(self).cycle == old(self).cycle + 1,
            final(self).work == old(self).work,
            final(self).log.delays@ == old(self).log.delays@.update(
                old(self).cycle as int,
                delay,
            ),
            final(self).log.total == old(self).log.total + delay,
            final(self).log.max == (if delay > old(self).log.max {
                delay
            } else {
                old(self).log.max
            }),
    {
        self.log.record(self.cycle, delay);
        self.cycle = self.cycle + 1;
    }

    /// The child does without a sleep in this cycle.
    pub fn skip(&mut self)
        requires
            old(self).wf(),
            old(self).cycle < N,
        ensures
            final(self).wf(),
            final(self).cycle == old(self).cycle + 1,
            final(self).work == old(self).work,
            final(self).log == old(self).log,
    {
        self.cycle = self.cycle + 1;
    }

    /// The child has worked for some iterations.
    pub fn worked(&mut self, iterations: usize)
        requires
            old(self).work + iterations <= usize::MAX,
        ensures
            final(self).work == old(self).work + iterations,
            final(self).cycle == old(self).cycle,
            final(self).log == old(self).log,
    {
        self.work = self.work + iterations;
    }

    /// A percentile of the recorded delays.
    pub fn percentile(&self, percent: usize) -> (r: usize)
        requires
            N > 0,
            N * percent <= usize::MAX,
        ensures
            r == percentile_of(self.log.delays@, percent as int),
    {
        let mut log: DelayLog<N> = self.log;
        log.settle();
        proof {
            let delays = self.log.delays@;
            let sorted = choose|s: Seq<usize>|
                ascending(s) && s.to_multiset() == delays.to_multiset();
            assert(ascending(log.delays@) && log.delays@.to_multiset()
                == delays.to_multiset());
            lemma_sorted_unique(sorted, log.delays@);
        }
        percentile(&log.delays, percent)
    }

    /// Exit status: total.
    pub fn status_total(&self) -> (r: i32)
        ensures
            r == low_i32(self.log.total as int),
            self.log.total <= i32::MAX ==> r == self.log.total,
    {
        count_status(self.log.total)
    }

    /// Exit status: total, mean, 95th percentile and maximum.
    pub fn status_totals(&self) -> (r: i32)
        requires
            N > 0,
            N * 95 <= usize::MAX,
        ensures
            0 <= r < 0x1000_0000,
            four_are(
                r,
                self.log.total,
                self.log.total / N,
                percentile_of(self.log.delays@, 95),
                self.log.max,
            ),
    {
        pack_four(self.log.total, mean(self.log.total, N), self.percentile(95), self.log.max)
    }

    /// Exit status: mean, 95th and 99th percentile, and maximum.
    pub fn status_tail(&self) -> (r: i32)
        requires
            N > 0,
            N * 99 <= usize::MAX,
        ensures
            0 <= r < 0x1000_0000,
            four_are(
                r,
                self.log.total / N,
                percentile_of(self.log.delays@, 95),
                percentile_of(self.log.delays@, 99),
                self.log.max,
            ),
    {
        pack_four(
            mean(self.log.total, N),
            self.percentile(95),
            self.percentile(99),
            self.log.max,
        )
    }

    /// Exit status: total, 95th percentile and maximum.
    pub fn status_overshoot(&self) -> (r: i32)
        requires
            N > 0,
            N * 95 <= usize::MAX,
        ensures
            0 <= r < 0x100_0000,
            total_is(
                r,
                self.log.total,
                percentile_of(self.log.delays@, 95),
                self.log.max,
            ),
    {
        pack_total(self.log.total, self.percentile(95), self.log.max)
    }

    /// Exit status: 95th percentile, maximum and work.
    pub fn status_with_work(&self) -> (r: i32)
        requires
            N > 0,
            N * 95 <= usize::MAX,
        ensures
            0 <= r < 0x1000_0000,
            with_work_is(
                r,
                percentile_of(self.log.delays@, 95),
                self.log.max,
                self.work,
            ),
    {
        pack_with_work(self.percentile(95), self.log.max, self.work)
    }

    /// Exit status: 95th percentile and maximum.
    pub fn status_delays(&self) -> (r: i32)
        requires
            N > 0,
            N * 95 <= usize::MAX,
        ensures
            0 <= r < 0x4000,
            two_are(
                r,
                percentile_of(self.log.delays@, 95),
                self.log.max,
            ),
    {
        pack_two(self.percentile(95), self.log.max)
    }
}

/// The delays of a child that sleeps and wakes until some time.
#[derive(Clone, Copy, Debug, PartialEq, Eq, Structural)]
pub struct DelaySum {
    pub total: usize,
}

impl DelaySum {
    pub fn new() -> (r: Self)
        ensures
            r.total == 0,
    {
        DelaySum { total: 0 }
    }

    /// Whether there is another cycle at time `now`.
    pub fn goes_on(&self, now: usize, end: usize) -> (b: bool)
        ensures
            b == (now < end),
    {
        now < end
    }

    /// The child wakes, `delay` ticks late.
    pub fn wake(&mut self, delay: usize)
        requires
            old(self).total + delay <= usize::MAX,
        ensures
            final(self).total == old(self).total + delay,
    {
        self.total = self.total + delay;
    }
}

/// How late a periodic child was, in at most `N` cycles.
#[derive(Clone, Copy, Debug)]
pub struct PeriodicLog<const N: usize> {
    /// Cycles done so far.
    pub cycle: usize,
    /// Activations that were more than one tick late.
    pub miss_count: usize,
    pub max_late: usize,
    /// Iterations of work done so far.
    pub work: usize,
}

impl<const N: usize> PeriodicLog<N> {
    /// No more misses than cycles.
    pub open spec fn wf(self) -> bool {
        self.miss_count <= self.cycle <= N
    }

    pub fn new() -> (r: Self)
        ensures
            r.wf(),
            r.cycle == 0,
            r.miss_count == 0,
            r.max_late == 0,
            r.work == 0,
    {
        PeriodicLog { cycle: 0, miss_count: 0, max_late: 0, work: 0 }
    }

    /// Whether there is another cycle at time `now`.
    pub fn goes_on(&self, now: usize, end: usize) -> (b: bool)
        ensures
            b == (self.cycle < N && now < end),
    {
        self.cycle < N && now < end
    }

    /// Records the activation of this cycle, which was `late` ticks late.
    pub fn record(&mut self, late: usize)
        requires
            old(self).wf(),
            old(self).cycle < N,
        ensures
            final(self).wf(),
            final(self).cycle == old(self).cycle + 1,
            final(self).miss_count == old(self).miss_count + (if late > 1 {
                1int
            } else {
                0
            }),
            final(self).max_late == (if late > old(self).max_late {
                late
            } else {
                old(self).max_late
            }),
            final(self).work == old(self).work,
    {
        self.cycle = self.cycle + 1;
        if late > 1 {
            self.miss_count = self.miss_count + 1;
        }
        if late > self.max_late {
            self.max_late = late;
        }
    }

    /// The child has worked for some iterations.
    pub fn worked(&mut self, iterations: usize)
        requires
            old(self).work + iterations <= usize::MAX,
        ensures
            final(self).work == old(self).work + iterations,
            final(self).cycle == old(self).cycle,
            final(self).miss_count == old(self).miss_count,
            final(self).max_late == old(self).max_late,
    {
        self.work = self.work + iterations;
    }

    /// Exit status: missed activations, worst lateness and work.
    pub fn status(&self) -> (r: i32)
        ensures
            0 <= r < 0x1000_0000,
            with_work_is(r, self.miss_count, self.max_late, self.work),
    {
        pack_with_work(self.miss_count, self.max_late, self.work)
    }
}

/// The gaps between the moments at which a task noticed that it was running.
#[derive(Clone, Copy, Debug, PartialEq, Eq, Structural)]
pub struct GapLog {
    pub prev_time: usize,
    pub max_gap: usize,
    pub total_gap: usize,
    /// Moments noticed so far. The gap before the first is not counted.
    pub num_gaps: usize,
}

impl GapLog {
    /// The counted gaps are together not longer than the time that has passed,
    /// and none is longer than the largest.
    pub open spec fn wf(self) -> bool {
        &&& self.max_gap <= self.total_gap <= self.prev_time
        &&& self.num_gaps == 0 ==> self.total_gap == 0
        &&& self.num_gaps > 0 ==> self.total_gap <= self.max_gap * (self.num_gaps - 1)
    }

    /// A log that begins at time `now`.
    pub fn new(now: usize) -> (r: Self)
        ensures
            r.wf(),
            r.prev_time == now,
            r.max_gap == 0,
            r.total_gap == 0,
            r.num_gaps == 0,
    {
        GapLog { prev_time: now, max_gap: 0, total_gap: 0, num_gaps: 0 }
    }

    /// The task notices that it is running at time `now`.
    pub fn observe(&mut self, now: usize)
        requires
            old(self).wf(),
            old(self).prev_time <= now,
            old(self).num_gaps < usize::MAX,
        ensures
            final(self).wf(),
            final(self).prev_time == now,
            final(self).num_gaps == old(self).num_gaps + 1,
            old(self).num_gaps == 0 ==> final(self).total_gap == old(self).total_gap
                && final(self).max_gap == old(self).max_gap,
            old(self).num_gaps > 0 ==> final(self).total_gap == old(self).total_gap + (now - old(
                self,
            ).prev_time) && final(self).max_gap == (if now - old(self).prev_time > old(
                self,
            ).max_gap {
                now - old(self).prev_time
            } else {
                old(self).max_gap as int
            }),
    {
        let gap: usize = now - self.prev_time;
        proof {
            let counted = self.num_gaps - 1;
            let before = self.max_gap as int;
            let after = if gap > before {
                gap as int
            } else {
                before
            };
            assert(counted >= 0 ==> before * counted + gap <= after * (counted + 1))
                by (nonlinear_arith)
                requires
                    0 <= before <= after,
                    gap <= after,
            ;
        }
        if gap > 0 && self.num_gaps > 0 {
            self.total_gap = self.total_gap + gap;
            if gap > self.max_gap {
                self.max_gap = gap;
            }
        }
        self.num_gaps = self.num_gaps + 1;
        self.prev_time = now;
    }

    /// Whether the task goes on after the last moment that it noticed.
    pub fn goes_on(&self, end: usize) -> (b: bool)
        ensures
            b == (self.prev_time < end),
    {
        self.prev_time < end
    }

    /// The mean gap in hundredths of a tick.
    pub fn avg_gap_100(&self) -> (r: usize)
        requires
            self.num_gaps > 1 ==> self.total_gap * 100 <= usize::MAX,
        ensures
            r == (if self.num_gaps > 1 {
                self.total_gap * 100 / (self.num_gaps - 1)
            } else {
                0
            }),
    {
        if self.num_gaps > 1 {
            (self.total_gap * 100) / (self.num_gaps - 1)
        } else {
            0
        }
    }

    /// Exit status: largest gap and mean gap.
    pub fn status(&self) -> (r: i32)
        requires
            self.num_gaps > 1 ==> self.total_gap * 100 <= usize::MAX,
        ensures
            field_of(r, 16, 0xFFFF) == self.max_gap as int % 0x1_0000,
            field_of(r, 0, 0xFFFF) == (if self.num_gaps > 1 {
                self.total_gap * 100 / (self.num_gaps - 1) % 0x1_0000
            } else {
                0
            }),
    {
        pack_gap(self.max_gap, self.avg_gap_100())
    }
}

/// The mean gap is not larger than the largest one.
pub proof fn lemma_mean_gap_bounded(log: GapLog)
    requires
        log.wf(),
        log.num_gaps > 1,
    ensures
        log.total_gap * 100 / (log.num_gaps - 1) <= log.max_gap * 100,
{
    let total = log.total_gap as int;
    let max = log.max_gap as int;
    let gaps = log.num_gaps - 1;
    assert(total * 100 / gaps <= max * 100) by (nonlinear_arith)
        requires
            gaps > 0,
            total <= max * gaps,
    ;
}

} // verus!
