//! What a parent reports about its children.

use crate::bench::delays::contains;
use crate::bench::status::{field, field_of, status_work};
use crate::process::NPROC;
use vstd::prelude::*;

verus! {

/// A child that has exited.
#[derive(Clone, Copy, Debug, PartialEq, Eq, Structural)]
pub struct Child {
    pub pid: usize,
    pub status: i32,
}

/// The sum of a figure over the first `n` children.
pub open spec fn total(children: Seq<Child>, figure: spec_fn(Child) -> int, n: nat) -> int
    decreases n,
{
    if n == 0 {
        0
    } else {
        total(children, figure, (n - 1) as nat) + figure(children[n - 1])
    }
}

/// The largest of a figure over the first `n` children, at least 0.
pub open spec fn largest(children: Seq<Child>, figure: spec_fn(Child) -> int, n: nat) -> int
    decreases n,
{
    if n == 0 {
        0
    } else {
        let before = largest(children, figure, (n - 1) as nat);
        if figure(children[n - 1]) > before {
            figure(children[n - 1])
        } else {
            before
        }
    }
}

/// The least of a figure over the first `n` children, the largest number of its
/// type if there are none.
pub open spec fn least(children: Seq<Child>, figure: spec_fn(Child) -> int, n: nat) -> int
    decreases n,
{
    if n == 0 {
        u64::MAX as int
    } else {
        let before = least(children, figure, (n - 1) as nat);
        if figure(children[n - 1]) < before {
            figure(children[n - 1])
        } else {
            before
        }
    }
}

/// There are no more children than the process table holds, and none of them
/// has a negative status.
pub open spec fn plausible(children: Seq<Child>) -> bool {
    &&& children.len() <= NPROC
    &&& forall|i: int| 0 <= i < children.len() ==> #[trigger] children[i].status >= 0
}

/// There are no more children than the process table holds, and none of those
/// that report a counter has a negative status.
pub open spec fn counts(children: Seq<Child>, pids: Seq<usize>) -> bool {
    &&& children.len() <= NPROC
    &&& forall|i: int|
        0 <= i < children.len() && pids.contains(children[i].pid) ==> #[trigger] children[i].status
            >= 0
}

/// The work that a child reports in thousands, for those among `pids`.
pub open spec fn work_among(pids: Seq<usize>) -> spec_fn(Child) -> int {
    |c: Child|
        if pids.contains(c.pid) {
            c.status * 1000
        } else {
            0
        }
}

/// A status as an unsigned 64-bit number.
pub open spec fn unsigned(status: i32) -> int {
    if status >= 0 {
        status as int
    } else {
        status + 0x1_0000_0000_0000_0000
    }
}

/// The status of the children that are not among `pids`.
pub open spec fn status_outside(pids: Seq<usize>) -> spec_fn(Child) -> int {
    |c: Child|
        if pids.contains(c.pid) {
            0
        } else {
            unsigned(c.status)
        }
}

/// A field of the status of the children that are not among `pids`.
pub open spec fn field_outside(pids: Seq<usize>, shift: u32, mask: u32) -> spec_fn(Child) -> int {
    |c: Child|
        if pids.contains(c.pid) {
            0
        } else {
            field_of(c.status, shift, mask) as int
        }
}

/// The work that each child reports in thousands.
pub open spec fn work() -> spec_fn(Child) -> int {
    |c: Child| c.status * 1000
}

/// A sum over more children is no smaller.
proof fn lemma_total_grows(children: Seq<Child>, figure: spec_fn(Child) -> int, n: nat, m: nat)
    requires
        n <= m <= children.len(),
        forall|i: int| 0 <= i < children.len() ==> #[trigger] figure(children[i]) >= 0,
    ensures
        total(children, figure, n) <= total(children, figure, m),
    decreases m,
{
    if n < m {
        lemma_total_grows(children, figure, n, (m - 1) as nat);
        assert(figure(children[m - 1]) >= 0);
    }
}

fn as_unsigned(status: i32) -> (r: u64)
    ensures
        r == unsigned(status),
{
    if status >= 0 {
        status as u64
    } else {
        u64::MAX - ((-(status as i64) - 1) as u64)
    }
}

/// Whether all children report counters.
pub fn all_count(children: &[Child]) -> (b: bool)
    ensures
        b == plausible(children@),
{
    if children.len() > NPROC {
        return false;
    }
    let mut i: usize = 0;
    while i < children.len()
        invariant
            i <= children@.len() <= NPROC,
            forall|k: int| 0 <= k < i ==> #[trigger] children@[k].status >= 0,
        decreases children@.len() - i,
    {
        if children[i].status < 0 {
            assert(!(children@[i as int].status >= 0));
            return false;
        }
        i = i + 1;
    }
    true
}

/// Whether the children among `pids` report counters.
pub fn can_count<const N: usize>(children: &[Child], pids: &[usize; N]) -> (b: bool)
    ensures
        b == counts(children@, pids@),
{
    if children.len() > NPROC {
        return false;
    }
    let mut i: usize = 0;
    while i < children.len()
        invariant
            i <= children@.len() <= NPROC,
            forall|k: int|
                0 <= k < i && pids@.contains(children@[k].pid) ==> #[trigger] children@[k].status
                    >= 0,
        decreases children@.len() - i,
    {
        if children[i].status < 0 && contains(pids, children[i].pid) {
            assert(!(children@[i as int].status >= 0));
            return false;
        }
        i = i + 1;
    }
    true
}

/// Computing children and waiting children, told apart by their pids.
#[derive(Clone, Copy, Debug, PartialEq, Eq, Structural)]
pub struct SplitReport {
    /// Work of the computing children.
    pub work: u64,
    /// Delay of the others.
    pub delay: u64,
}

/// The computing children report counters, and the delays of the others can be
/// added up.
pub open spec fn splits(children: Seq<Child>, cpu_pids: Seq<usize>) -> bool {
    &&& counts(children, cpu_pids)
    &&& total(children, status_outside(cpu_pids), children.len()) <= u64::MAX
}

/// Whether `split_report` can be given.
pub fn can_split<const N: usize>(children: &[Child], cpu_pids: &[usize; N]) -> (b: bool)
    ensures
        b == splits(children@, cpu_pids@),
{
    if !can_count(children, cpu_pids) {
        return false;
    }
    let mut delay: u128 = 0;
    let mut i: usize = 0;
    while i < children.len()
        invariant
            i <= children@.len() <= NPROC,
            delay == total(children@, status_outside(cpu_pids@), i as nat),
            delay <= i * 0x1_0000_0000_0000_0000,
        decreases children@.len() - i,
    {
        let child: Child = children[i];
        if !contains(cpu_pids, child.pid) {
            delay = delay + as_unsigned(child.status) as u128;
        }
        i = i + 1;
    }
    delay <= u64::MAX as u128
}

/// Adds up the work of the children among `cpu_pids` and the delay of the
/// others.
pub fn split_report<const N: usize>(children: &[Child], cpu_pids: &[usize; N]) -> (r: SplitReport)
    requires
        splits(children@, cpu_pids@),
    ensures
        r.work == total(children@, work_among(cpu_pids@), children@.len()),
        r.delay == total(children@, status_outside(cpu_pids@), children@.len()),
{
    let mut work: u64 = 0;
    let mut delay: u64 = 0;
    let mut i: usize = 0;
    while i < children.len()
        invariant
            splits(children@, cpu_pids@),
            i <= children@.len(),
            work == total(children@, work_among(cpu_pids@), i as nat),
            delay == total(children@, status_outside(cpu_pids@), i as nat),
            work <= i * 0x8000_0000 * 1000,
        decreases children@.len() - i,
    {
        let child: Child = children[i];
        proof {
            lemma_total_grows(
                children@,
                status_outside(cpu_pids@),
                (i + 1) as nat,
                children@.len(),
            );
        }
        if contains(cpu_pids, child.pid) {
            assert(children@[i as int].status >= 0);
            work = work + status_work(child.status);
        } else {
            delay = delay + as_unsigned(child.status);
        }
        i = i + 1;
    }
    SplitReport { work, delay }
}

/// Children that compute in a first phase, some of which then sleep.
#[derive(Clone, Copy, Debug, PartialEq, Eq, Structural)]
pub struct AdaptReport {
    /// Work of all children in the first phase.
    pub phase1_work: u64,
    /// Delay of the sleeping children in the second phase.
    pub phase2_delay: u64,
    /// Work of the computing children in the second phase.
    pub phase2_work: u64,
}

/// The sum of the first `n` counters.
pub open spec fn sum_of(counters: Seq<u64>, n: nat) -> int
    decreases n,
{
    if n == 0 {
        0
    } else {
        sum_of(counters, (n - 1) as nat) + counters[n - 1]
    }
}

/// A sum of more counters is no smaller.
proof fn lemma_sum_grows(counters: Seq<u64>, n: nat, m: nat)
    requires
        n <= m <= counters.len(),
    ensures
        sum_of(counters, n) <= sum_of(counters, m),
    decreases m,
{
    if n < m {
        lemma_sum_grows(counters, n, (m - 1) as nat);
    }
}

/// The figures of the second phase can be told apart and added up, and so can
/// the counters of the first.
pub open spec fn adapts(children: Seq<Child>, cpu_pids: Seq<usize>, phase1: Seq<u64>) -> bool {
    &&& splits(children, cpu_pids)
    &&& sum_of(phase1, phase1.len()) <= u64::MAX
}

/// Whether `adapt_report` can be given.
pub fn can_adapt<const N: usize>(
    children: &[Child],
    cpu_pids: &[usize; N],
    phase1: &[u64],
) -> (b: bool)
    ensures
        b == adapts(children@, cpu_pids@, phase1@),
{
    let mut sum: u64 = 0;
    let mut i: usize = 0;
    while i < phase1.len()
        invariant
            i <= phase1@.len(),
            sum == sum_of(phase1@, i as nat),
        decreases phase1@.len() - i,
    {
        proof {
            lemma_sum_grows(phase1@, (i + 1) as nat, phase1@.len());
        }
        if phase1[i] > u64::MAX - sum {
            return false;
        }
        sum = sum + phase1[i];
        i = i + 1;
    }
    can_split(children, cpu_pids)
}

/// Sums up the children of the adaptation workload. Their exit statuses tell of
/// the second phase: the work of the children among `cpu_pids` and the delay of
/// the others. `phase1` holds what each child counted in the first.
pub fn adapt_report<const N: usize>(
    children: &[Child],
    cpu_pids: &[usize; N],
    phase1: &[u64],
) -> (r: AdaptReport)
    requires
        adapts(children@, cpu_pids@, phase1@),
    ensures
        r.phase1_work == sum_of(phase1@, phase1@.len()),
        r.phase2_work == total(children@, work_among(cpu_pids@), children@.len()),
        r.phase2_delay == total(children@, status_outside(cpu_pids@), children@.len()),
{
    let mut phase1_work: u64 = 0;
    let mut i: usize = 0;
    while i < phase1.len()
        invariant
            i <= phase1@.len(),
            sum_of(phase1@, phase1@.len()) <= u64::MAX,
            phase1_work == sum_of(phase1@, i as nat),
        decreases phase1@.len() - i,
    {
        proof {
            lemma_sum_grows(phase1@, (i + 1) as nat, phase1@.len());
        }
        phase1_work = phase1_work + phase1[i];
        i = i + 1;
    }
    let second: SplitReport = split_report(children, cpu_pids);
    AdaptReport { phase1_work, phase2_delay: second.delay, phase2_work: second.work }
}

/// Identical computing children.
#[derive(Clone, Copy, Debug, PartialEq, Eq, Structural)]
pub struct WorkReport {
    pub total: u64,
    pub min: u64,
    pub max: u64,
}

/// Adds up the work of all children and finds the extremes.
pub fn work_report(children: &[Child]) -> (r: WorkReport)
    requires
        plausible(children@),
    ensures
        r.total == total(children@, work(), children@.len()),
        r.min == least(children@, work(), children@.len()),
        r.max == largest(children@, work(), children@.len()),
{
    let mut total_work: u64 = 0;
    let mut min: u64 = u64::MAX;
    let mut max: u64 = 0;
    let mut i: usize = 0;
    while i < children.len()
        invariant
            plausible(children@),
            i <= children@.len(),
            total_work == total(children@, work(), i as nat),
            min == least(children@, work(), i as nat),
            max == largest(children@, work(), i as nat),
            total_work <= i * 0x8000_0000 * 1000,
        decreases children@.len() - i,
    {
        assert(children@[i as int].status >= 0);
        let count: u64 = status_work(children[i].status);
        total_work = total_work + count;
        if count < min {
            min = count;
        }
        if count > max {
            max = count;
        }
        i = i + 1;
    }
    WorkReport { total: total_work, min, max }
}

/// Interactive children beside computing ones.
#[derive(Clone, Copy, Debug, PartialEq, Eq, Structural)]
pub struct EpochReport {
    /// Delay of the interactive children together.
    pub io_resp: u64,
    /// Worst 95th percentile of a child.
    pub io_p95: u32,
    /// Worst delay of a child.
    pub io_max: u32,
    pub batch_work: u64,
}

/// Sums up the children of the epoch workload.
pub fn epoch_report<const N: usize>(children: &[Child], batch_pids: &[usize; N]) -> (r: EpochReport)
    requires
        counts(children@, batch_pids@),
    ensures
        r.batch_work == total(children@, work_among(batch_pids@), children@.len()),
        r.io_resp == total(children@, field_outside(batch_pids@, 14, 0x3FF), children@.len()),
        r.io_p95 == largest(children@, field_outside(batch_pids@, 7, 0x7F), children@.len()),
        r.io_max == largest(children@, field_outside(batch_pids@, 0, 0x7F), children@.len()),
{
    let mut r: EpochReport = EpochReport { io_resp: 0, io_p95: 0, io_max: 0, batch_work: 0 };
    let mut i: usize = 0;
    while i < children.len()
        invariant
            counts(children@, batch_pids@),
            i <= children@.len(),
            r.batch_work == total(children@, work_among(batch_pids@), i as nat),
            r.io_resp == total(children@, field_outside(batch_pids@, 14, 0x3FF), i as nat),
            r.io_p95 == largest(children@, field_outside(batch_pids@, 7, 0x7F), i as nat),
            r.io_max == largest(children@, field_outside(batch_pids@, 0, 0x7F), i as nat),
            r.batch_work <= i * 0x8000_0000 * 1000,
            r.io_resp <= i * 0x3FF,
        decreases children@.len() - i,
    {
        let child: Child = children[i];
        if contains(batch_pids, child.pid) {
            assert(children@[i as int].status >= 0);
            r.batch_work = r.batch_work + status_work(child.status);
        } else {
            let p95: u32 = field(child.status, 7, 0x7F);
            let max: u32 = field(child.status, 0, 0x7F);
            r.io_resp = r.io_resp + field(child.status, 14, 0x3FF) as u64;
            if p95 > r.io_p95 {
                r.io_p95 = p95;
            }
            if max > r.io_max {
                r.io_max = max;
            }
        }
        i = i + 1;
    }
    r
}

/// Children that alternate between sleep and work beside computing ones.
#[derive(Clone, Copy, Debug, PartialEq, Eq, Structural)]
pub struct BurstReport {
    /// Worst 95th percentile of a child.
    pub delay_p95: u32,
    /// Worst delay of a child.
    pub delay_max: u32,
    pub batch_work: u64,
    pub bursty_work: u64,
}

/// The thousands of work in the low 14 bits of the status of the children that
/// are not among `pids`.
pub open spec fn low_work_outside(pids: Seq<usize>) -> spec_fn(Child) -> int {
    |c: Child|
        if pids.contains(c.pid) {
            0
        } else {
            field_of(c.status, 0, 0x3FFF) * 1000
        }
}

/// Sums up the children of the burst and phase-flip workloads.
pub fn burst_report<const N: usize>(children: &[Child], batch_pids: &[usize; N]) -> (r: BurstReport)
    requires
        counts(children@, batch_pids@),
    ensures
        r.batch_work == total(children@, work_among(batch_pids@), children@.len()),
        r.bursty_work == total(children@, low_work_outside(batch_pids@), children@.len()),
        r.delay_p95 == largest(children@, field_outside(batch_pids@, 21, 0x7F), children@.len()),
        r.delay_max == largest(children@, field_outside(batch_pids@, 14, 0x7F), children@.len()),
{
    let mut r: BurstReport = BurstReport {
        delay_p95: 0,
        delay_max: 0,
        batch_work: 0,
        bursty_work: 0,
    };
    let mut i: usize = 0;
    while i < children.len()
        invariant
            counts(children@, batch_pids@),
            i <= children@.len(),
            r.batch_work == total(children@, work_among(batch_pids@), i as nat),
            r.bursty_work == total(children@, low_work_outside(batch_pids@), i as nat),
            r.delay_p95 == largest(children@, field_outside(batch_pids@, 21, 0x7F), i as nat),
            r.delay_max == largest(children@, field_outside(batch_pids@, 14, 0x7F), i as nat),
            r.batch_work <= i * 0x8000_0000 * 1000,
            r.bursty_work <= i * 0x3FFF * 1000,
        decreases children@.len() - i,
    {
        let child: Child = children[i];
        if contains(batch_pids, child.pid) {
            assert(children@[i as int].status >= 0);
            r.batch_work = r.batch_work + status_work(child.status);
        } else {
            let p95: u32 = field(child.status, 21, 0x7F);
            let max: u32 = field(child.status, 14, 0x7F);
            if p95 > r.delay_p95 {
                r.delay_p95 = p95;
            }
            if max > r.delay_max {
                r.delay_max = max;
            }
            r.bursty_work = r.bursty_work + field(child.status, 0, 0x3FFF) as u64 * 1000;
        }
        i = i + 1;
    }
    r
}

/// Many sleepers beside a few computing children.
#[derive(Clone, Copy, Debug, PartialEq, Eq, Structural)]
pub struct StarveIoReport {
    /// Worst 95th percentile of a sleeper.
    pub sleeper_p95: u32,
    /// Worst delay of a sleeper.
    pub sleeper_max: u32,
    /// Least work of a computing child.
    pub batch_min: u64,
    /// Most work of a computing child.
    pub batch_max: u64,
}

/// As `work_among`, where the children that are not among `pids` are left out
/// of a minimum.
pub open spec fn work_only(pids: Seq<usize>) -> spec_fn(Child) -> int {
    |c: Child|
        if pids.contains(c.pid) {
            c.status * 1000
        } else {
            u64::MAX as int
        }
}

/// Sums up the children of the workload in which sleepers may starve the others.
pub fn starve_io_report<const N: usize>(children: &[Child], batch_pids: &[usize; N]) -> (r:
    StarveIoReport)
    requires
        counts(children@, batch_pids@),
    ensures
        r.batch_min == least(children@, work_only(batch_pids@), children@.len()),
        r.batch_max == largest(children@, work_among(batch_pids@), children@.len()),
        r.sleeper_p95 == largest(children@, field_outside(batch_pids@, 7, 0x7F), children@.len()),
        r.sleeper_max == largest(children@, field_outside(batch_pids@, 0, 0x7F), children@.len()),
{
    let mut r: StarveIoReport = StarveIoReport {
        sleeper_p95: 0,
        sleeper_max: 0,
        batch_min: u64::MAX,
        batch_max: 0,
    };
    let mut i: usize = 0;
    while i < children.len()
        invariant
            counts(children@, batch_pids@),
            i <= children@.len(),
            r.batch_min == least(children@, work_only(batch_pids@), i as nat),
            r.batch_max == largest(children@, work_among(batch_pids@), i as nat),
            r.sleeper_p95 == largest(children@, field_outside(batch_pids@, 7, 0x7F), i as nat),
            r.sleeper_max == largest(children@, field_outside(batch_pids@, 0, 0x7F), i as nat),
        decreases children@.len() - i,
    {
        let child: Child = children[i];
        if contains(batch_pids, child.pid) {
            assert(children@[i as int].status >= 0);
            let done: u64 = status_work(child.status);
            if done < r.batch_min {
                r.batch_min = done;
            }
            if done > r.batch_max {
                r.batch_max = done;
            }
        } else {
            let p95: u32 = field(child.status, 7, 0x7F);
            let max: u32 = field(child.status, 0, 0x7F);
            if p95 > r.sleeper_p95 {
                r.sleeper_p95 = p95;
            }
            if max > r.sleeper_max {
                r.sleeper_max = max;
            }
        }
        i = i + 1;
    }
    r
}

/// Interactive, periodic, computing and ambiguous children at once.
#[derive(Clone, Copy, Debug, PartialEq, Eq, Structural)]
pub struct MixedReport {
    /// Worst 95th percentile of an interactive child.
    pub interactive_p95: u32,
    /// Worst delay of an interactive child.
    pub interactive_max: u32,
    /// Missed activations of the periodic children together.
    pub periodic_miss: u64,
    /// Worst lateness of a periodic child.
    pub periodic_max: u32,
    pub batch_work: u64,
    /// Least work of a computing child.
    pub batch_min: u64,
    /// Most work of a computing child.
    pub batch_max: u64,
    /// Worst 95th percentile of an ambiguous child.
    pub bursty_p95: u32,
    /// Worst delay of an ambiguous child.
    pub bursty_max: u32,
    pub bursty_work: u64,
}

/// The classes of the mixed workload, by the pids of their children.
#[derive(Clone, Copy, Debug)]
pub struct Classes {
    pub interactive: [usize; 8],
    pub periodic: [usize; 8],
    pub batch: [usize; 24],
    pub bursty: [usize; 8],
}

/// One class of the mixed workload.
#[derive(Clone, Copy, Debug, PartialEq, Eq, Structural)]
pub enum Class {
    Interactive,
    Periodic,
    Batch,
    Bursty,
    Unknown,
}

impl Classes {
    /// The class of a pid: the first that has it.
    pub open spec fn class(self, pid: usize) -> Class {
        if self.interactive@.contains(pid) {
            Class::Interactive
        } else if self.periodic@.contains(pid) {
            Class::Periodic
        } else if self.batch@.contains(pid) {
            Class::Batch
        } else if self.bursty@.contains(pid) {
            Class::Bursty
        } else {
            Class::Unknown
        }
    }

    /// The class of a pid.
    pub fn class_of(&self, pid: usize) -> (r: Class)
        ensures
            r == self.class(pid),
    {
        if contains(&self.interactive, pid) {
            Class::Interactive
        } else if contains(&self.periodic, pid) {
            Class::Periodic
        } else if contains(&self.batch, pid) {
            Class::Batch
        } else if contains(&self.bursty, pid) {
            Class::Bursty
        } else {
            Class::Unknown
        }
    }

    /// A field of the status of the children of one class, 0 for the others.
    pub open spec fn field_in(self, class: Class, shift: u32, mask: u32) -> spec_fn(Child) -> int {
        |c: Child|
            if self.class(c.pid) == class {
                field_of(c.status, shift, mask) as int
            } else {
                0
            }
    }

    /// The work of the computing children, `other` for the rest.
    pub open spec fn batch_work(self, other: int) -> spec_fn(Child) -> int {
        |c: Child|
            if self.class(c.pid) == Class::Batch {
                c.status * 1000
            } else {
                other
            }
    }

    /// The work of the ambiguous children.
    pub open spec fn bursty_work(self) -> spec_fn(Child) -> int {
        |c: Child|
            if self.class(c.pid) == Class::Bursty {
                field_of(c.status, 0, 0x3FFF) * 1000
            } else {
                0
            }
    }

    /// `r` sums up the first `n` children.
    pub open spec fn sums_up(self, children: Seq<Child>, n: nat, r: MixedReport) -> bool {
        &&& r.interactive_p95 == largest(children, self.field_in(Class::Interactive, 21, 0x7F), n)
        &&& r.interactive_max == largest(children, self.field_in(Class::Interactive, 14, 0x7F), n)
        &&& r.periodic_miss == total(children, self.field_in(Class::Periodic, 21, 0x7F), n)
        &&& r.periodic_max == largest(children, self.field_in(Class::Periodic, 14, 0x7F), n)
        &&& r.batch_work == total(children, self.batch_work(0), n)
        &&& r.batch_min == least(children, self.batch_work(u64::MAX as int), n)
        &&& r.batch_max == largest(children, self.batch_work(0), n)
        &&& r.bursty_p95 == largest(children, self.field_in(Class::Bursty, 21, 0x7F), n)
        &&& r.bursty_max == largest(children, self.field_in(Class::Bursty, 14, 0x7F), n)
        &&& r.bursty_work == total(children, self.bursty_work(), n)
    }
}

fn larger(a: u32, b: u32) -> (r: u32)
    ensures
        r == (if b > a {
            b
        } else {
            a
        }),
{
    if b > a {
        b
    } else {
        a
    }
}

/// Sums up the children of the mixed workload.
pub fn mixed_report(children: &[Child], classes: &Classes) -> (r: MixedReport)
    requires
        counts(children@, classes.batch@),
    ensures
        classes.sums_up(children@, children@.len(), r),
{
    let mut r: MixedReport = MixedReport {
        interactive_p95: 0,
        interactive_max: 0,
        periodic_miss: 0,
        periodic_max: 0,
        batch_work: 0,
        batch_min: u64::MAX,
        batch_max: 0,
        bursty_p95: 0,
        bursty_max: 0,
        bursty_work: 0,
    };
    let mut i: usize = 0;
    while i < children.len()
        invariant
            counts(children@, classes.batch@),
            i <= children@.len(),
            classes.sums_up(children@, i as nat, r),
            r.periodic_miss <= i * 0x7F,
            r.batch_work <= i * 0x8000_0000 * 1000,
            r.bursty_work <= i * 0x3FFF * 1000,
        decreases children@.len() - i,
    {
        let child: Child = children[i];
        match classes.class_of(child.pid) {
            Class::Interactive => {
                r.interactive_p95 = larger(r.interactive_p95, field(child.status, 21, 0x7F));
                r.interactive_max = larger(r.interactive_max, field(child.status, 14, 0x7F));
            },
            Class::Periodic => {
                r.periodic_miss = r.periodic_miss + field(child.status, 21, 0x7F) as u64;
                r.periodic_max = larger(r.periodic_max, field(child.status, 14, 0x7F));
            },
            Class::Batch => {
                assert(children@[i as int].status >= 0);
                let done: u64 = status_work(child.status);
                r.batch_work = r.batch_work + done;
                if done < r.batch_min {
                    r.batch_min = done;
                }
                if done > r.batch_max {
                    r.batch_max = done;
                }
            },
            Class::Bursty => {
                r.bursty_p95 = larger(r.bursty_p95, field(child.status, 21, 0x7F));
                r.bursty_max = larger(r.bursty_max, field(child.status, 14, 0x7F));
                r.bursty_work = r.bursty_work + field(child.status, 0, 0x3FFF) as u64 * 1000;
            },
            Class::Unknown => {},
        }
        i = i + 1;
    }
    r
}

/// Children whose latency-bound phase is followed by one of pure work.
#[derive(Clone, Copy, Debug, PartialEq, Eq, Structural)]
pub struct PhaseReport {
    pub phase1_delay: u64,
    pub phase2_work: u64,
    pub min_work: u64,
    pub max_work: u64,
}

/// The delay in the high byte of a status.
pub open spec fn phase_delay() -> spec_fn(Child) -> int {
    |c: Child| field_of(c.status, 24, 0xFF) as int
}

/// The thousands of work in the low 24 bits of a status.
pub open spec fn phase_work() -> spec_fn(Child) -> int {
    |c: Child| field_of(c.status, 0, 0xFF_FFFF) * 1000
}

/// Sums up the children of the reverse adaptation workload.
pub fn phase_report(children: &[Child]) -> (r: PhaseReport)
    requires
        children@.len() <= NPROC,
    ensures
        r.phase1_delay == total(children@, phase_delay(), children@.len()),
        r.phase2_work == total(children@, phase_work(), children@.len()),
        r.min_work == least(children@, phase_work(), children@.len()),
        r.max_work == largest(children@, phase_work(), children@.len()),
{
    let mut r: PhaseReport = PhaseReport {
        phase1_delay: 0,
        phase2_work: 0,
        min_work: u64::MAX,
        max_work: 0,
    };
    let mut i: usize = 0;
    while i < children.len()
        invariant
            children@.len() <= NPROC,
            i <= children@.len(),
            r.phase1_delay == total(children@, phase_delay(), i as nat),
            r.phase2_work == total(children@, phase_work(), i as nat),
            r.min_work == least(children@, phase_work(), i as nat),
            r.max_work == largest(children@, phase_work(), i as nat),
            r.phase1_delay <= i * 0xFF,
            r.phase2_work <= i * 0xFF_FFFF * 1000,
        decreases children@.len() - i,
    {
        let status: i32 = children[i].status;
        let delay: u64 = field(status, 24, 0xFF) as u64;
        let done: u64 = field(status, 0, 0xFF_FFFF) as u64 * 1000;
        r.phase1_delay = r.phase1_delay + delay;
        r.phase2_work = r.phase2_work + done;
        if done < r.min_work {
            r.min_work = done;
        }
        if done > r.max_work {
            r.max_work = done;
        }
        i = i + 1;
    }
    r
}

/// Gaps between the turns of computing children.
#[derive(Clone, Copy, Debug, PartialEq, Eq, Structural)]
pub struct GapReport {
    pub max_gap: u64,
    /// Mean of the mean gaps, in hundredths of a tick.
    pub avg_gap_100: u64,
    /// By how much the largest gap exceeds the mean, in hundredths of a tick.
    pub spread: u64,
}

impl GapReport {
    /// The mean gap in whole ticks, and what is left of it in hundredths.
    pub fn avg_gap(&self) -> (r: (u64, u64))
        ensures
            r.0 * 100 + r.1 == self.avg_gap_100,
            r.1 < 100,
    {
        (self.avg_gap_100 / 100, self.avg_gap_100 % 100)
    }
}

/// The largest gap that a child reports.
pub open spec fn child_gap() -> spec_fn(Child) -> int {
    |c: Child| field_of(c.status, 16, 0xFFFF) as int
}

/// The mean gap that a child reports.
pub open spec fn child_avg() -> spec_fn(Child) -> int {
    |c: Child| field_of(c.status, 0, 0xFFFF) as int
}

/// By how much the largest gap exceeds the mean gap in hundredths.
pub fn gap_spread(max_gap: u64, avg_gap_100: u64) -> (r: u64)
    requires
        max_gap * 100 <= u64::MAX,
    ensures
        r == (if max_gap * 100 > avg_gap_100 {
            max_gap * 100 - avg_gap_100
        } else {
            0
        }),
{
    (max_gap * 100).saturating_sub(avg_gap_100)
}

/// Sums up the children of the gap workloads.
pub fn gap_report(children: &[Child]) -> (r: GapReport)
    requires
        children@.len() <= NPROC,
    ensures
        r.max_gap == largest(children@, child_gap(), children@.len()),
        r.avg_gap_100 == total(children@, child_avg(), children@.len()) / (if children@.len() > 1 {
            children@.len() as int
        } else {
            1
        }),
        r.spread == (if r.max_gap * 100 > r.avg_gap_100 {
            r.max_gap * 100 - r.avg_gap_100
        } else {
            0
        }),
{
    let mut max_gap: u64 = 0;
    let mut sum: u64 = 0;
    let mut i: usize = 0;
    while i < children.len()
        invariant
            children@.len() <= NPROC,
            i <= children@.len(),
            max_gap == largest(children@, child_gap(), i as nat),
            max_gap <= 0xFFFF,
            sum == total(children@, child_avg(), i as nat),
            sum <= i * 0xFFFF,
        decreases children@.len() - i,
    {
        let status: i32 = children[i].status;
        let gap: u64 = field(status, 16, 0xFFFF) as u64;
        if gap > max_gap {
            max_gap = gap;
        }
        sum = sum + field(status, 0, 0xFFFF) as u64;
        i = i + 1;
    }
    let count: u64 = if children.len() > 1 { children.len() as u64 } else { 1 };
    let avg_gap_100: u64 = sum / count;
    GapReport { max_gap, avg_gap_100, spread: gap_spread(max_gap, avg_gap_100) }
}

/// Mean and largest of a series of latencies.
#[derive(Clone, Copy, Debug, PartialEq, Eq, Structural)]
pub struct LatencyReport {
    pub total: u64,
    pub avg: u64,
    pub max: u64,
}

/// The status of a child as a latency.
pub open spec fn latency() -> spec_fn(Child) -> int {
    |c: Child| unsigned(c.status)
}

/// There are no more children than the process table holds, and their latencies
/// can be added up.
pub open spec fn latencies_add_up(children: Seq<Child>) -> bool {
    &&& children.len() <= NPROC
    &&& total(children, latency(), children.len()) <= u64::MAX
}

/// Whether `latency_report` can be given.
pub fn can_add_latencies(children: &[Child]) -> (b: bool)
    ensures
        b == latencies_add_up(children@),
{
    if children.len() > NPROC {
        return false;
    }
    let mut sum: u128 = 0;
    let mut i: usize = 0;
    while i < children.len()
        invariant
            i <= children@.len() <= NPROC,
            sum == total(children@, latency(), i as nat),
            sum <= i * 0x1_0000_0000_0000_0000,
        decreases children@.len() - i,
    {
        sum = sum + as_unsigned(children[i].status) as u128;
        i = i + 1;
    }
    sum <= u64::MAX as u128
}

/// Sums up children that report one latency each.
pub fn latency_report(children: &[Child]) -> (r: LatencyReport)
    requires
        latencies_add_up(children@),
    ensures
        r.total == total(children@, latency(), children@.len()),
        r.avg == r.total / (if children@.len() > 1 {
            children@.len() as u64
        } else {
            1
        }),
        r.max == largest(children@, latency(), children@.len()),
{
    let mut sum: u64 = 0;
    let mut max: u64 = 0;
    let mut i: usize = 0;
    while i < children.len()
        invariant
            latencies_add_up(children@),
            i <= children@.len(),
            sum == total(children@, latency(), i as nat),
            max == largest(children@, latency(), i as nat),
        decreases children@.len() - i,
    {
        proof {
            lemma_total_grows(children@, latency(), (i + 1) as nat, children@.len());
        }
        let one: u64 = as_unsigned(children[i].status);
        sum = sum + one;
        if one > max {
            max = one;
        }
        i = i + 1;
    }
    let count: u64 = if children.len() > 1 { children.len() as u64 } else { 1 };
    LatencyReport { total: sum, avg: sum / count, max }
}

/// A figure of a child lies between the extremes, and the extremes are figures
/// of children.
pub proof fn lemma_extremes(children: Seq<Child>, figure: spec_fn(Child) -> int, n: nat, k: int)
    requires
        0 <= k < n <= children.len(),
        forall|i: int| 0 <= i < n ==> 0 <= #[trigger] figure(children[i]) <= u64::MAX,
    ensures
        least(children, figure, n) <= figure(children[k]) <= largest(children, figure, n),
        exists|i: int| 0 <= i < n && #[trigger] figure(children[i]) == least(children, figure, n),
        exists|i: int| 0 <= i < n && #[trigger] figure(children[i]) == largest(children, figure, n),
    decreases n,
{
    let last = figure(children[n - 1]);
    if n == 1 {
        reveal_with_fuel(least, 2);
        reveal_with_fuel(largest, 2);
        assert(figure(children[0]) == last);
    } else {
        let before = (n - 1) as nat;
        lemma_extremes(
            children,
            figure,
            before,
            if k < before {
                k
            } else {
                0
            },
        );
        let low = choose|i: int|
            0 <= i < before && #[trigger] figure(children[i]) == least(children, figure, before);
        let high = choose|i: int|
            0 <= i < before && #[trigger] figure(children[i]) == largest(children, figure, before);
        assert(figure(children[low]) == least(children, figure, n) || last == least(
            children,
            figure,
            n,
        ));
        assert(figure(children[high]) == largest(children, figure, n) || last == largest(
            children,
            figure,
            n,
        ));
    }
}

/// The mean of a figure lies between its extremes.
pub proof fn lemma_total_between_extremes(
    children: Seq<Child>,
    figure: spec_fn(Child) -> int,
    n: nat,
)
    requires
        n <= children.len(),
        forall|i: int| 0 <= i < n ==> 0 <= #[trigger] figure(children[i]) <= u64::MAX,
    ensures
        n > 0 ==> least(children, figure, n) * n <= total(children, figure, n),
        total(children, figure, n) <= largest(children, figure, n) * n,
    decreases n,
{
    if n > 0 {
        let before = (n - 1) as nat;
        lemma_total_between_extremes(children, figure, before);
        lemma_extremes(children, figure, n, n - 1);
        let low = least(children, figure, n);
        let low_before = least(children, figure, before);
        let high = largest(children, figure, n);
        let high_before = largest(children, figure, before);
        assert(low * n == low * before + low && high * n == high * before + high)
            by (nonlinear_arith)
            requires
                n == before + 1,
        ;
        assert(low * before <= low_before * before) by (nonlinear_arith)
            requires
                low <= low_before,
                before >= 0,
        ;
        assert(high_before * before <= high * before) by (nonlinear_arith)
            requires
                high_before <= high,
                before >= 0,
        ;
        if before == 0 {
            reveal_with_fuel(total, 2);
        }
    }
}

/// Which of two children is collected first does not matter.
pub proof fn lemma_neighbours_commute(
    children: Seq<Child>,
    figure: spec_fn(Child) -> int,
    k: int,
    n: nat,
)
    requires
        0 <= k,
        k + 1 < n <= children.len(),
    ensures
        ({
            let swapped = children.update(k, children[k + 1]).update(k + 1, children[k]);
            &&& total(swapped, figure, n) == total(children, figure, n)
            &&& largest(swapped, figure, n) == largest(children, figure, n)
            &&& least(swapped, figure, n) == least(children, figure, n)
        }),
    decreases n,
{
    let swapped = children.update(k, children[k + 1]).update(k + 1, children[k]);
    if n == k + 2 {
        lemma_same_before(children, swapped, figure, k as nat);
        reveal_with_fuel(total, 3);
        reveal_with_fuel(largest, 3);
        reveal_with_fuel(least, 3);
    } else {
        lemma_neighbours_commute(children, figure, k, (n - 1) as nat);
    }
}

/// Figures of the first `n` children depend on those children alone.
proof fn lemma_same_before(
    a: Seq<Child>,
    b: Seq<Child>,
    figure: spec_fn(Child) -> int,
    n: nat,
)
    requires
        n <= a.len(),
        n <= b.len(),
        forall|i: int| 0 <= i < n ==> a[i] == b[i],
    ensures
        total(a, figure, n) == total(b, figure, n),
        largest(a, figure, n) == largest(b, figure, n),
        least(a, figure, n) == least(b, figure, n),
    decreases n,
{
    if n > 0 {
        lemma_same_before(a, b, figure, (n - 1) as nat);
    }
}

} // verus!
