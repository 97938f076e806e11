//! Laws of priorities, time slices and queue levels.

use crate::laws::selection::{lemma_o1_swaps_for_expired_only, o1_scanned};
use crate::process::{ProcState, NPROC};
use crate::scheduler::drl::{Drl, DrlShared};
use crate::scheduler::fairness::o1::{is_pass, O1Pass};
use crate::scheduler::mlfq::{self, start_slot, Mlfq, MlfqShared};
use crate::scheduler::o1::{
    self, priority_keys, priority_of, slot_swapped, swap_attempted, timeslice_of, O1Shared, O1Step,
    O1,
};
use crate::scheduler::round_robin::visited;
use crate::scheduler::Scheduler;
use vstd::prelude::*;

verus! {

/// What a turn costs under MLFQ. At the top level one turn moves a task down, at
/// the middle level two do, and at the bottom it stays, its turns counted. A
/// task that moves down starts to count anew. The other slots keep their
/// entries.
pub proof fn lemma_mlfq_turn_is_charged(s: MlfqShared, i: int, s2: MlfqShared, k: int)
    requires
        0 <= i < NPROC,
        0 <= k < NPROC,
        k != i,
        s.ticks_at_level@[i] < u64::MAX,
        mlfq::turn_charged(s, i, s2),
    ensures
        s.queue_level@[i] == 0 ==> s2.queue_level@[i] == 1 && s2.ticks_at_level@[i] == 0,
        s.queue_level@[i] == 1 && s.ticks_at_level@[i] == 0 ==> s2.queue_level@[i] == 1
            && s2.ticks_at_level@[i] == 1,
        s.queue_level@[i] == 1 && s.ticks_at_level@[i] >= 1 ==> s2.queue_level@[i] == 2
            && s2.ticks_at_level@[i] == 0,
        s.queue_level@[i] >= 2 ==> s2.queue_level@[i] == s.queue_level@[i] && s2.ticks_at_level@[i]
            == s.ticks_at_level@[i] + 1,
        s2.queue_level@[k] == s.queue_level@[k],
        s2.ticks_at_level@[k] == s.ticks_at_level@[k],
{
    assert(mlfq::TIME_ALLOTMENT@[0] == 1);
    assert(mlfq::TIME_ALLOTMENT@[1] == 2);
}

/// Every hundredth dispatch, and no other, moves all tasks to the top. In
/// between, a turn is charged to the task that had it and to no other.
pub proof fn lemma_mlfq_boosts_every_hundredth(s: MlfqShared, i: int, s2: MlfqShared, k: int)
    requires
        0 <= i < NPROC,
        0 <= k < NPROC,
        s.ticks_at_level@[i] < u64::MAX,
        mlfq::accounted(s, i, s2),
    ensures
        s2.dispatch_count == s.dispatch_count + 1,
        s2.dispatch_count % 100 == 0 ==> s2.queue_level@[k] == 0 && s2.ticks_at_level@[k] == 0,
        s2.dispatch_count % 100 != 0 && k != i ==> s2.queue_level@[k] == s.queue_level@[k]
            && s2.ticks_at_level@[k] == s.ticks_at_level@[k],
        s2.dispatch_count % 100 != 0 ==> s2.queue_level@[i] >= s.queue_level@[i],
        s2.dispatch_count % 100 != 0 && s.queue_level@[i] == 0 ==> s2.queue_level@[i] == 1,
        s2.dispatch_count % 100 != 0 && s2.queue_level@[i] == s.queue_level@[i]
            ==> s2.ticks_at_level@[i] == s.ticks_at_level@[i] + 1,
{
    assert(mlfq::TIME_ALLOTMENT@[0] == 1);
    assert(mlfq::TIME_ALLOTMENT@[1] == 2);
}

/// A process that takes a slot starts at the top, whatever the slot held, and
/// moves nobody else.
pub proof fn lemma_mlfq_newcomer_starts_at_top(s: MlfqShared, i: int, s2: MlfqShared, k: int)
    requires
        0 <= i < NPROC,
        0 <= k < NPROC,
        k != i,
        mlfq::entered(s, i, s2),
    ensures
        s2.queue_level@[i] == 0,
        s2.ticks_at_level@[i] == 0,
        s2.queue_level@[k] == s.queue_level@[k],
        s2.ticks_at_level@[k] == s.ticks_at_level@[k],
        s2.dispatch_count == s.dispatch_count,
{
}

/// The CPUs start as far apart in the process table as their numbers are, the
/// first at the first slot.
pub proof fn lemma_mlfq_cpus_start_apart(a: usize, b: usize)
    ensures
        start_slot(0) == 0,
        start_slot(a) - start_slot(b) == a - b,
{
}

/// A sweep of round robin goes on with the next slot, and with the first one
/// after the last.
pub proof fn lemma_sweep_goes_round(first: int, n: nat)
    requires
        0 <= first < 64,
    ensures
        0 <= visited(first, n) < 64,
        visited(first, n) < 63 ==> visited(first, n + 1) == visited(first, n) + 1,
        visited(first, n) == 63 ==> visited(first, n + 1) == 0,
        visited(first, 0) == first,
{
}

/// Each unit of sleep average is worth one step of priority, up to five, from
/// priority 20 on.
pub proof fn lemma_o1_priority_earned(sleep_avg: u64)
    ensures
        sleep_avg <= 5 ==> priority_of(sleep_avg) + sleep_avg == 20,
        sleep_avg >= 5 ==> priority_of(sleep_avg) == 15,
{
}

/// A time slice is one turn and that part of five more that the priority is of
/// the way from the worst, 39, to the best, 0, rounded down.
pub proof fn lemma_o1_slice_earned(prio: u8)
    ensures
        1 <= timeslice_of(prio) <= 6,
        prio <= 39 ==> (timeslice_of(prio) - 1) * 39 <= 5 * (39 - prio) < timeslice_of(prio) * 39,
        prio >= 39 ==> timeslice_of(prio) == 1,
{
}

/// What a swap of the sets does to a slot. A task that used up its slice loses
/// one unit of sleep average if it has any; one that did not gains one, up to
/// five. Its priority and its slice are those that the new average earns, and
/// it is active.
pub proof fn lemma_o1_swap_rewards_sleep(
    pre: O1Shared,
    seen: u64,
    success: bool,
    post: O1Shared,
    i: int,
)
    requires
        pre.swap_fits(),
        swap_attempted(pre, seen, success, post),
        0 <= i < NPROC,
    ensures
        success <==> pre.epoch == seen,
        !success ==> post == pre,
        success ==> {
            &&& post.epoch == pre.epoch + 1
            &&& pre.is_expired@[i] && pre.sleep_avg@[i] > 0 ==> post.sleep_avg@[i]
                == pre.sleep_avg@[i] - 1
            &&& pre.is_expired@[i] && pre.sleep_avg@[i] == 0 ==> post.sleep_avg@[i] == 0
            &&& !pre.is_expired@[i] && pre.sleep_avg@[i] < 5 ==> post.sleep_avg@[i]
                == pre.sleep_avg@[i] + 1
            &&& !pre.is_expired@[i] && pre.sleep_avg@[i] >= 5 ==> post.sleep_avg@[i] == 5
            &&& post.sleep_avg@[i] <= 5 ==> post.dyn_priority@[i] + post.sleep_avg@[i] == 20
            &&& post.dyn_priority@[i] <= 39 ==> (post.timeslice@[i] - 1) * 39 <= 5 * (39
                - post.dyn_priority@[i]) < post.timeslice@[i] * 39
            &&& !post.is_expired@[i]
        },
{
    if success {
        assert(slot_swapped(pre, post, i));
        lemma_o1_slice_earned(post.dyn_priority@[i]);
    }
}

/// What a turn under O(1) does. A task without a slice gets one when it is
/// switched in, by its priority; one with a slice keeps it. Each turn uses one
/// unit, and the last one makes the task expire. Nothing else changes.
pub proof fn lemma_o1_turn_uses_slice(
    s: O1Shared,
    i: int,
    s2: O1Shared,
    s3: O1Shared,
    k: int,
)
    requires
        0 <= i < NPROC,
        0 <= k < NPROC,
        k != i,
        s.dyn_priority@[i] <= 39,
        o1::begun(s, i, s2),
        o1::charged(s2, i, s3),
    ensures
        s.timeslice@[i] > 0 ==> s2.timeslice@[i] == s.timeslice@[i],
        s.timeslice@[i] == 0 ==> (s2.timeslice@[i] - 1) * 39 <= 5 * (39 - s.dyn_priority@[i])
            < s2.timeslice@[i] * 39,
        s2.is_expired@ == s.is_expired@,
        s3.timeslice@[i] == s2.timeslice@[i] - 1,
        s3.timeslice@[i] > 0 ==> s3.is_expired@[i] == s.is_expired@[i],
        s3.timeslice@[i] == 0 ==> s3.is_expired@[i],
        s3.timeslice@[k] == s.timeslice@[k],
        s3.is_expired@[k] == s.is_expired@[k],
        s3.sleep_avg@ == s.sleep_avg@,
        s3.dyn_priority@ == s.dyn_priority@,
        s3.epoch == s.epoch,
{
    lemma_o1_slice_earned(s.dyn_priority@[i]);
}

/// A process that takes a slot is active, at the base priority, without a
/// history and without a slice, and moves nobody else.
pub proof fn lemma_o1_newcomer_has_no_history(s: O1Shared, i: int, s2: O1Shared, k: int)
    requires
        0 <= i < NPROC,
        0 <= k < NPROC,
        k != i,
        o1::entered(s, i, s2),
    ensures
        s2.sleep_avg@[i] == 0,
        s2.dyn_priority@[i] == 20,
        s2.timeslice@[i] == 0,
        !s2.is_expired@[i],
        s2.sleep_avg@[k] == s.sleep_avg@[k],
        s2.dyn_priority@[k] == s.dyn_priority@[k],
        s2.timeslice@[k] == s.timeslice@[k],
        s2.is_expired@[k] == s.is_expired@[k],
        s2.epoch == s.epoch,
{
}

/// A pass swaps the sets only if some runnable task has expired. Where there is
/// none, the epoch and all that a swap would set stay the same, and where no
/// active task is runnable either, everything does.
pub proof fn lemma_o1_no_swap_without_expired(p: O1Pass)
    requires
        is_pass(p),
    ensures
        p.after.epoch != p.found.epoch ==> exists|i: int|
            0 <= i < NPROC && #[trigger] p.states[i] == ProcState::RUNNABLE
                && p.found.is_expired@[i],
        p.after.epoch != p.found.epoch ==> p.after.epoch == p.found.epoch + 1,
        (forall|i: int|
            0 <= i < NPROC && #[trigger] p.states[i] == ProcState::RUNNABLE
                ==> !p.found.is_expired@[i]) ==> p.after.epoch == p.found.epoch
            && p.after.sleep_avg@ == p.found.sleep_avg@ && p.after.dyn_priority@
            == p.found.dyn_priority@,
        (forall|i: int| 0 <= i < NPROC ==> #[trigger] p.states[i] != ProcState::RUNNABLE)
            ==> p.after == p.found,
{
    assert(o1_scanned(p.cpu, p.found, p.states, p.scan));
    lemma_o1_swaps_for_expired_only(p.cpu, p.found, p.states, p.scan);
    if p.scan.next_step() is Dispatch {
        let i = p.scan.next_step()->Dispatch_0 as int;
        assert(priority_keys(p.found, p.states)[i] is Some);
        assert(p.states[i] == ProcState::RUNNABLE);
    }
}

/// Nothing is refused while the counters are away from their limits.
pub proof fn lemma_turns_are_not_refused(
    m: Mlfq,
    s: MlfqShared,
    o: O1,
    t: O1Shared,
    d: Drl,
    u: DrlShared,
    choice: usize,
)
    requires
        choice < NPROC,
        s.ticks_at_level@[choice as int] < u64::MAX,
        s.dispatch_count < u64::MAX,
        d.wf(),
        d.epoch_dispatches <= 0x7fff_ffff_ffff_ffff,
        t.epoch < u64::MAX,
        forall|i: int| 0 <= i < NPROC ==> #[trigger] t.sleep_avg@[i] <= 5,
    ensures
        t.swap_fits(),
        d.reward_fits(),
        m.scan_offset < 64 ==> m.wf(),
        o.scan_offset < 64 ==> o.wf(),
        m.begin_ok(s, choice),
        m.finish_ok(s, choice),
        o.begin_ok(t, choice),
        o.finish_ok(t, choice),
        d.begin_ok(u, choice),
        d.finish_ok(u, choice),
{
}

} // verus!
