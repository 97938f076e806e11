//! MLFQ: the multi-level feedback queue.
//!
//!   1. If one task has a higher priority than another, it runs.
//!   2. Tasks of the same priority run in round robin.
//!   3. A task starts at the highest priority.
//!   4. Once a task has used up its time allotment at a level, however often
//!      it gave up the CPU meanwhile, it moves down one level.
//!   5. From time to time all tasks move back to the topmost level.

use crate::process::{ProcState, NPROC};
use crate::scheduler::scan::{
    lemma_equal_comes_closer, lemma_offer, lemma_skip, picks_least, precedes, scan_slot, turn, Best,
};
use crate::scheduler::Scheduler;
use vstd::prelude::*;

verus! {

/// Number of priority levels. Level 0 is the highest priority.
pub const NUM_LEVELS: usize = 3;

/// Turns that a task gets at each level before it moves down. Nothing is below
/// the last level.
pub const TIME_ALLOTMENT: [u64; NUM_LEVELS] = [1, 2, 4];

/// Number of dispatches, over all CPUs, between two priority boosts.
pub const BOOST_INTERVAL: u64 = 100;

/// The tables that all CPUs share, indexed by slot.
#[derive(Clone, Copy, Debug)]
pub struct MlfqShared {
    /// Priority level, 0 being the highest.
    pub queue_level: [u8; NPROC],
    /// Turns used at the current level.
    pub ticks_at_level: [u64; NPROC],
    /// Number of turns given so far.
    pub dispatch_count: u64,
}

/// One CPU's place in the scan of the process table.
#[derive(Clone, Copy, Debug, PartialEq, Eq, Structural)]
pub struct Mlfq {
    pub scan_offset: usize,
}

/// The slot at which a CPU starts its first scan.
pub open spec fn start_slot(cpu: usize) -> usize {
    cpu
}

/// The time allotment of a level.
pub open spec fn allotment(level: int) -> u64 {
    TIME_ALLOTMENT@[level]
}

/// The level of a task after one more turn, its `ticks`-th at this level.
pub open spec fn level_after(level: u8, ticks: u64) -> u8 {
    if exhausted(level, ticks) {
        (level + 1) as u8
    } else {
        level
    }
}

/// The turns that count against the allotment after that turn.
pub open spec fn ticks_after(level: u8, ticks: u64) -> u64 {
    if exhausted(level, ticks) {
        0
    } else {
        ticks
    }
}

/// A task that had its `ticks`-th turn at `level` has used up its allotment.
pub open spec fn exhausted(level: u8, ticks: u64) -> bool {
    level < NUM_LEVELS - 1 && ticks >= allotment(level as int)
}

/// The dispatch after `count` others is the one that boosts all priorities.
pub open spec fn boosts(count: u64) -> bool {
    (count + 1) % (BOOST_INTERVAL as int) == 0
}

/// The runnable tasks, which compete by their level.
pub open spec fn level_keys(queue_level: Seq<u8>, states: Seq<ProcState>) -> Seq<Option<int>> {
    Seq::new(
        NPROC as nat,
        |i: int|
            if states[i] == ProcState::RUNNABLE && queue_level[i] < u8::MAX {
                Some(queue_level[i] as int)
            } else {
                None
            },
    )
}

impl MlfqShared {
    /// Every level exists, no task has overstayed its allotment, and no task
    /// had more turns at its level than there were dispatches since the last
    /// boost.
    pub open spec fn wf(self) -> bool {
        &&& forall|i: int| 0 <= i < NPROC ==> #[trigger] self.queue_level@[i] < NUM_LEVELS
        &&& forall|i: int|
            0 <= i < NPROC ==> !exhausted(
                self.queue_level@[i],
                #[trigger] self.ticks_at_level@[i],
            )
        &&& forall|i: int|
            0 <= i < NPROC ==> #[trigger] self.ticks_at_level@[i] <= self.dispatch_count
                % BOOST_INTERVAL
    }

    /// All tasks at the highest priority.
    pub open spec fn at_top(self) -> bool {
        &&& forall|i: int| 0 <= i < NPROC ==> #[trigger] self.queue_level@[i] == 0
        &&& forall|i: int| 0 <= i < NPROC ==> #[trigger] self.ticks_at_level@[i] == 0
    }

    /// Tables in which every slot is at the highest priority.
    pub fn new() -> (r: Self)
        ensures
            r.wf(),
            r.at_top(),
            r.dispatch_count == 0,
    {
        MlfqShared { queue_level: [0;NPROC], ticks_at_level: [0;NPROC], dispatch_count: 0 }
    }

    /// Moves all tasks back to the highest priority.
    pub fn boost(&mut self)
        ensures
            final(self).at_top(),
            final(self).dispatch_count == old(self).dispatch_count,
            final(self).wf(),
    {
        let mut i: usize = 0;
        while i < NPROC
            invariant
                i <= NPROC,
                self.dispatch_count == old(self).dispatch_count,
                forall|k: int| 0 <= k < i ==> #[trigger] self.queue_level@[k] == 0,
                forall|k: int| 0 <= k < i ==> #[trigger] self.ticks_at_level@[k] == 0,
            decreases NPROC - i,
        {
            self.queue_level[i] = 0;
            self.ticks_at_level[i] = 0;
            i = i + 1;
        }
    }

    /// Puts the process that takes slot `idx` at the highest priority, whatever
    /// the last one in the slot had come to.
    pub fn enter(&mut self, idx: usize)
        requires
            idx < NPROC,
        ensures
            entered(*old(self), idx as int, *final(self)),
            old(self).wf() ==> final(self).wf(),
    {
        self.queue_level[idx] = 0;
        self.ticks_at_level[idx] = 0;
    }

    /// Charges slot `idx` for one turn at its level, and moves it down if that
    /// uses up its allotment.
    pub fn charge(&mut self, idx: usize)
        requires
            idx < NPROC,
            old(self).ticks_at_level@[idx as int] < u64::MAX,
        ensures
            final(self).dispatch_count == old(self).dispatch_count,
            turn_charged(*old(self), idx as int, *final(self)),
    {
        let level: usize = self.queue_level[idx] as usize;
        let ticks: u64 = self.ticks_at_level[idx] + 1;
        self.ticks_at_level[idx] = ticks;
        let allotments: [u64; NUM_LEVELS] = TIME_ALLOTMENT;
        if level < NUM_LEVELS - 1 && ticks >= allotments[level] {
            self.queue_level[idx] = (level + 1) as u8;
            self.ticks_at_level[idx] = 0;
        }
        assert(self.queue_level@ =~= old(self).queue_level@.update(
            idx as int,
            level_after(old(self).queue_level@[idx as int], ticks),
        ));
        assert(self.ticks_at_level@ =~= old(self).ticks_at_level@.update(
            idx as int,
            ticks_after(old(self).queue_level@[idx as int], ticks),
        ));
    }
}

/// A process took slot `i`: `s` are the tables before, `s2` after.
pub open spec fn entered(s: MlfqShared, i: int, s2: MlfqShared) -> bool {
    &&& s2.queue_level@ == s.queue_level@.update(i, 0)
    &&& s2.ticks_at_level@ == s.ticks_at_level@.update(i, 0)
    &&& s2.dispatch_count == s.dispatch_count
}

/// Slot `i` had a turn: `s` are the tables before, `s2` after.
pub open spec fn turn_charged(s: MlfqShared, i: int, s2: MlfqShared) -> bool {
    let level = s.queue_level@[i];
    let ticks = (s.ticks_at_level@[i] + 1) as u64;
    &&& s2.queue_level@ == s.queue_level@.update(i, level_after(level, ticks))
    &&& s2.ticks_at_level@ == s.ticks_at_level@.update(i, ticks_after(level, ticks))
}

/// As `turn_charged`, with the dispatch counted and the boost that it may bring.
pub open spec fn accounted(s: MlfqShared, i: int, s2: MlfqShared) -> bool {
    &&& s2.dispatch_count == s.dispatch_count + 1
    &&& if boosts(s.dispatch_count) {
        s2.at_top()
    } else {
        turn_charged(s, i, s2)
    }
}

impl Mlfq {
    pub open spec fn wf(self) -> bool {
        self.scan_offset < NPROC
    }

    /// The scan of a CPU that has just come up. Each CPU starts at a slot of its
    /// own, which spreads the CPUs over the table.
    pub fn new(cpu: usize) -> (r: Self)
        requires
            cpu < NPROC,
        ensures
            r.wf(),
            r.scan_offset == start_slot(cpu),
    {
        Mlfq { scan_offset: cpu }
    }

    /// The runnable task at the highest priority, the first of them in scan
    /// order.
    pub fn select(&self, shared: &MlfqShared, states: &[ProcState; NPROC]) -> (pick: Option<usize>)
        requires
            self.wf(),
        ensures
            picks_least(
                level_keys(shared.queue_level@, states@),
                self.scan_offset as int,
                pick,
            ),
    {
        let ghost keys = level_keys(shared.queue_level@, states@);
        let ghost start = self.scan_offset as int;
        let mut best: Best = Best::new();
        assert(best.after(keys, start, 0));
        let mut j: usize = 0;
        while j < NPROC
            invariant
                j <= NPROC,
                self.wf(),
                start == self.scan_offset,
                keys == level_keys(shared.queue_level@, states@),
                best.after(keys, start, j as int),
            decreases NPROC - j,
        {
            let i: usize = scan_slot(self.scan_offset, j);
            if states[i] == ProcState::RUNNABLE && shared.queue_level[i] < u8::MAX {
                proof {
                    lemma_offer(best, keys, start, j as int, i, shared.queue_level@[i as int] as u64);
                }
                best.offer(i, shared.queue_level[i] as u64);
            } else {
                proof {
                    lemma_skip(best, keys, start, j as int, i as int);
                }
            }
            j = j + 1;
        }
        best.pick
    }

    /// Lets the next scan start after slot `idx`.
    pub fn advance(&mut self, idx: usize)
        requires
            idx < NPROC,
        ensures
            final(self).wf(),
            final(self).scan_offset == (idx + 1) % (NPROC as int),
    {
        self.scan_offset = (idx + 1) % NPROC;
    }
}

impl Scheduler for Mlfq {
    type Shared = MlfqShared;

    type Choice = usize;

    open spec fn begin_ok(self, shared: MlfqShared, choice: usize) -> bool {
        true
    }

    open spec fn finish_ok(self, shared: MlfqShared, choice: usize) -> bool {
        &&& choice < NPROC
        &&& shared.ticks_at_level@[choice as int] < u64::MAX
        &&& shared.dispatch_count < u64::MAX
    }

    fn can_begin(&self, shared: &MlfqShared, choice: &usize) -> (b: bool) {
        true
    }

    fn begin(&mut self, shared: &mut MlfqShared, choice: &usize, state: ProcState) -> (run: bool)
        ensures
            run == (state == ProcState::RUNNABLE),
            *final(self) == *old(self),
            *final(shared) == *old(shared),
    {
        state == ProcState::RUNNABLE
    }

    fn can_finish(&self, shared: &MlfqShared, choice: &usize) -> (b: bool) {
        *choice < NPROC && shared.ticks_at_level[*choice] < u64::MAX && shared.dispatch_count
            < u64::MAX
    }

    fn finish(&mut self, shared: &mut MlfqShared, choice: &usize)
        ensures
            *final(self) == *old(self),
            accounted(*old(shared), *choice as int, *final(shared)),
            old(shared).wf() ==> final(shared).wf(),
    {
        shared.charge(*choice);
        let count: u64 = shared.dispatch_count;
        shared.dispatch_count = count + 1;
        if (count + 1) % BOOST_INTERVAL == 0 {
            shared.boost();
        }
        proof {
            if old(shared).wf() && !boosts(count) {
                lemma_charge_keeps_wf(*old(shared), *choice as int, *shared);
            }
        }
    }
}

/// A turn that brings no boost keeps the tables well-formed.
pub proof fn lemma_charge_keeps_wf(s: MlfqShared, i: int, s2: MlfqShared)
    requires
        s.wf(),
        0 <= i < NPROC,
        s.dispatch_count < u64::MAX,
        !boosts(s.dispatch_count),
        s2.dispatch_count == s.dispatch_count + 1,
        turn_charged(s, i, s2),
    ensures
        s2.wf(),
{
    let level = s.queue_level@[i];
    let ticks = (s.ticks_at_level@[i] + 1) as u64;
    assert(s.ticks_at_level@[i] <= s.dispatch_count % BOOST_INTERVAL);
    assert(s2.dispatch_count % BOOST_INTERVAL == s.dispatch_count % BOOST_INTERVAL + 1);
    assert(!exhausted(level_after(level, ticks), ticks_after(level, ticks)));
    assert forall|k: int| 0 <= k < NPROC implies #[trigger] s2.queue_level@[k] < NUM_LEVELS by {
        assert(s.queue_level@[k] < NUM_LEVELS);
    }
    assert forall|k: int| 0 <= k < NPROC implies !exhausted(
        s2.queue_level@[k],
        #[trigger] s2.ticks_at_level@[k],
    ) && s2.ticks_at_level@[k] <= s2.dispatch_count % BOOST_INTERVAL by {
        assert(!exhausted(s.queue_level@[k], s.ticks_at_level@[k]));
        assert(s.ticks_at_level@[k] <= s.dispatch_count % BOOST_INTERVAL);
    }
}

/// Rule 1: the chosen task is runnable, and no runnable task has a higher
/// priority. If any task is runnable, one is chosen.
pub proof fn lemma_highest_priority_runs(
    m: Mlfq,
    shared: MlfqShared,
    states: Seq<ProcState>,
    pick: Option<usize>,
    q: int,
)
    requires
        m.wf(),
        shared.wf(),
        picks_least(level_keys(shared.queue_level@, states), m.scan_offset as int, pick),
        0 <= q < NPROC,
        states[q] == ProcState::RUNNABLE,
    ensures
        pick is Some,
        pick->0 < NPROC,
        states[pick->0 as int] == ProcState::RUNNABLE,
        shared.queue_level@[pick->0 as int] <= shared.queue_level@[q],
{
    let keys = level_keys(shared.queue_level@, states);
    assert(shared.queue_level@[q] < NUM_LEVELS);
    assert(keys[q] is Some);
    assert(turn(m.scan_offset as int, q) < NPROC);
    if pick is Some {
        assert(precedes(keys, m.scan_offset as int, pick->0 as int, q));
    }
}

/// Rule 2: tasks of the same priority take turns. With every turn that goes to
/// another task at its level, a waiting task comes sooner in the next scan.
pub proof fn lemma_same_priority_takes_turns(
    m: Mlfq,
    shared: MlfqShared,
    states: Seq<ProcState>,
    pick: usize,
    q: int,
    m2: Mlfq,
)
    requires
        m.wf(),
        picks_least(level_keys(shared.queue_level@, states), m.scan_offset as int, Some(pick)),
        m2.scan_offset == (pick + 1) % (NPROC as int),
        0 <= q < NPROC,
        states[q] == ProcState::RUNNABLE,
        shared.queue_level@[q] == shared.queue_level@[pick as int],
        pick != q,
    ensures
        turn(m2.scan_offset as int, q) < turn(m.scan_offset as int, q),
        0 <= turn(m2.scan_offset as int, q),
{
    let keys = level_keys(shared.queue_level@, states);
    assert(keys[pick as int] is Some);
    lemma_equal_comes_closer(
        keys,
        m.scan_offset as int,
        pick,
        q,
        m2.scan_offset as int,
    );
}

/// Level and turns of a task after `n` turns in a row without a boost.
pub open spec fn after_turns(level: u8, ticks: u64, n: nat) -> (u8, u64)
    decreases n,
{
    if n == 0 {
        (level, ticks)
    } else {
        let (l, t) = after_turns(level, ticks, (n - 1) as nat);
        (level_after(l, (t + 1) as u64), ticks_after(l, (t + 1) as u64))
    }
}

/// Rule 4: a task that arrives at a level stays there for exactly the time
/// allotment of that level, and then moves down one level.
pub proof fn lemma_demoted_after_allotment(level: u8, n: nat)
    requires
        level < NUM_LEVELS - 1,
        n <= allotment(level as int),
    ensures
        after_turns(level, 0, n) == (if n < allotment(level as int) {
            (level, n as u64)
        } else {
            ((level + 1) as u8, 0u64)
        }),
    decreases n,
{
    if n > 0 {
        lemma_demoted_after_allotment(level, (n - 1) as nat);
    }
}

/// Nothing is below the lowest level.
pub proof fn lemma_lowest_level_keeps(ticks: u64, n: nat)
    ensures
        after_turns((NUM_LEVELS - 1) as u8, ticks, n).0 == NUM_LEVELS - 1,
    decreases n,
{
    if n > 0 {
        lemma_lowest_level_keeps(ticks, (n - 1) as nat);
    }
}

/// A task that only computes reaches the lowest level after three turns.
pub proof fn lemma_full_demotion()
    ensures
        allotment(0) + allotment(1) == 3,
        after_turns(0, 0, 3) == ((NUM_LEVELS - 1) as u8, 0u64),
{
    reveal_with_fuel(after_turns, 4);
}

/// Lower levels have longer allotments.
pub proof fn lemma_allotments_increase(a: int, b: int)
    requires
        0 <= a <= b < NUM_LEVELS,
    ensures
        allotment(a) <= allotment(b),
{
}

/// Rule 5: of `BOOST_INTERVAL` dispatches in a row exactly one boosts.
pub proof fn lemma_one_boost_per_interval(count: u64)
    requires
        count + BOOST_INTERVAL <= u64::MAX,
    ensures
        exists|k: u64| count <= k < count + BOOST_INTERVAL && #[trigger] boosts(k),
        forall|a: u64, b: u64|
            count <= a < count + BOOST_INTERVAL && count <= b < count + BOOST_INTERVAL
                && #[trigger] boosts(a) && #[trigger] boosts(b) ==> a == b,
{
    let k = (count + (BOOST_INTERVAL - 1 - count as int % BOOST_INTERVAL as int)) as u64;
    assert(boosts(k));
}

/// A boost puts every task at the highest priority with a fresh allotment.
pub proof fn lemma_boost_levels_all(s: MlfqShared, i: int, s2: MlfqShared, k: int)
    requires
        boosts(s.dispatch_count),
        accounted(s, i, s2),
        0 <= k < NPROC,
    ensures
        s2.queue_level@[k] == 0,
        s2.ticks_at_level@[k] == 0,
{
}

/// While a task at the highest priority waits, only tasks at the highest
/// priority are chosen, and each of them leaves that level with its turn.
pub proof fn lemma_top_level_drains(
    m: Mlfq,
    s: MlfqShared,
    states: Seq<ProcState>,
    pick: usize,
    q: int,
    s2: MlfqShared,
)
    requires
        m.wf(),
        s.wf(),
        picks_least(level_keys(s.queue_level@, states), m.scan_offset as int, Some(pick)),
        0 <= q < NPROC,
        states[q] == ProcState::RUNNABLE,
        s.queue_level@[q] == 0,
        !boosts(s.dispatch_count),
        accounted(s, pick as int, s2),
    ensures
        s.queue_level@[pick as int] == 0,
        s2.queue_level@[pick as int] == 1,
        forall|k: int|
            0 <= k < NPROC && k != pick ==> #[trigger] s2.queue_level@[k] == s.queue_level@[k],
{
    lemma_highest_priority_runs(m, s, states, Some(pick), q);
    assert(!exhausted(s.queue_level@[pick as int], s.ticks_at_level@[pick as int]));
}

/// No two CPUs start their scans at the same slot.
pub proof fn lemma_cpus_start_apart(a: usize, b: usize)
    requires
        a < NPROC,
        b < NPROC,
        a != b,
    ensures
        start_slot(a) != start_slot(b),
        start_slot(a) < NPROC,
{
}

/// A process that enters starts at the highest priority, in whatever slot: it
/// has its whole allotment there, and no task that has been moved down runs
/// before it.
pub proof fn lemma_newcomer_starts_at_top(
    m: Mlfq,
    s: MlfqShared,
    i: usize,
    s2: MlfqShared,
    states: Seq<ProcState>,
    pick: Option<usize>,
)
    requires
        m.wf(),
        i < NPROC,
        entered(s, i as int, s2),
        states[i as int] == ProcState::RUNNABLE,
        picks_least(level_keys(s2.queue_level@, states), m.scan_offset as int, pick),
    ensures
        s2.queue_level@[i as int] == 0,
        s2.ticks_at_level@[i as int] == 0,
        pick is Some,
        pick->0 < NPROC,
        s2.queue_level@[pick->0 as int] == 0,
{
    let keys = level_keys(s2.queue_level@, states);
    assert(keys[i as int] is Some);
    assert(turn(m.scan_offset as int, i as int) < NPROC);
    if pick is Some {
        assert(precedes(keys, m.scan_offset as int, pick->0 as int, i as int));
    }
}

} // verus!
