//! Round robin: every runnable process gets a turn, in slot order.

use crate::process::{ProcState, NPROC};
use crate::scheduler::Scheduler;
use vstd::prelude::*;

verus! {

/// Visits the slots of the process table one after the other and runs each
/// process that it finds runnable.
#[derive(Clone, Copy, Debug)]
pub struct RoundRobin;

impl Default for RoundRobin {
    fn default() -> (r: Self)
        ensures
            r == RoundRobin,
    {
        RoundRobin
    }
}

/// The slot that a sweep visits `n` steps after slot `first`.
pub open spec fn visited(first: int, n: nat) -> int {
    (first + n) % (NPROC as int)
}

impl RoundRobin {
    /// The slot to visit after `slot`.
    pub fn next_slot(&self, slot: usize) -> (r: usize)
        requires
            slot < NPROC,
        ensures
            r < NPROC,
            r == visited(slot as int, 1),
    {
        (slot + 1) % NPROC
    }
}

impl Scheduler for RoundRobin {
    type Shared = ();

    type Choice = usize;

    open spec fn begin_ok(self, shared: (), choice: usize) -> bool {
        true
    }

    open spec fn finish_ok(self, shared: (), choice: usize) -> bool {
        true
    }

    fn can_begin(&self, shared: &(), choice: &usize) -> (b: bool) {
        true
    }

    fn begin(&mut self, shared: &mut (), choice: &usize, state: ProcState) -> (run: bool)
        ensures
            run == (state == ProcState::RUNNABLE),
            *final(self) == *old(self),
    {
        state == ProcState::RUNNABLE
    }

    fn can_finish(&self, shared: &(), choice: &usize) -> (b: bool) {
        true
    }

    fn finish(&mut self, shared: &mut (), choice: &usize)
        ensures
            *final(self) == *old(self),
    {
    }
}

/// Stepping `n` times and then once more visits the next slot, so a sweep is
/// what repeated calls of `next_slot` trace.
pub proof fn lemma_sweep_steps(first: int, n: nat)
    requires
        0 <= first < NPROC,
    ensures
        visited(visited(first, n), 1) == visited(first, n + 1),
        visited(first, 0) == first,
{
}

/// Any `NPROC` visits in a row reach every slot exactly once: none is starved
/// and none gets a second turn before all others had theirs.
pub proof fn lemma_sweep_visits_every_slot_once(first: int, slot: int)
    requires
        0 <= first < NPROC,
        0 <= slot < NPROC,
    ensures
        exists|n: nat| n < NPROC && #[trigger] visited(first, n) == slot,
        forall|m: nat, n: nat|
            m < NPROC && n < NPROC && #[trigger] visited(first, m) == slot
                && #[trigger] visited(first, n) == slot ==> m == n,
{
    let n = ((slot - first) % (NPROC as int)) as nat;
    assert(visited(first, n) == slot);
}

} // verus!
