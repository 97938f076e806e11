//! The schedulers and what they have in common.

pub mod cfs;
pub mod drl;
pub mod eevdf;
pub mod fairness;
pub mod hybrid_drl;
pub mod mlfq;
pub mod network;
pub mod o1;
pub mod round_robin;
pub mod scan;
pub mod vtime;

use crate::process::ProcState;
use vstd::prelude::*;

verus! {

/// One CPU's part in a scheduling policy, from the moment it has locked the
/// process that it chose.
///
/// A scan of the process table leads to a `Choice`. Between the scan and the
/// lock another CPU may have taken the process, so `begin` looks at its state
/// once more and says whether to switch to it. When the process hands the CPU
/// back, `finish` does the accounting.
pub trait Scheduler: Sized {
    /// The tables that all CPUs share.
    type Shared;

    /// What the scan of the process table led to.
    type Choice;

    /// `begin` may be called: the choice names a slot and no counter that it
    /// moves is at its limit.
    spec fn begin_ok(self, shared: Self::Shared, choice: Self::Choice) -> bool;

    /// `finish` may be called, in the same sense.
    spec fn finish_ok(self, shared: Self::Shared, choice: Self::Choice) -> bool;

    fn can_begin(&self, shared: &Self::Shared, choice: &Self::Choice) -> (b: bool)
        ensures
            b == self.begin_ok(*shared, *choice),
    ;

    /// Decides whether the locked process, now in `state`, is switched in, and
    /// prepares its accounting if it is.
    fn begin(
        &mut self,
        shared: &mut Self::Shared,
        choice: &Self::Choice,
        state: ProcState,
    ) -> (run: bool)
        requires
            old(self).begin_ok(*old(shared), *choice),
        ensures
            run ==> state == ProcState::RUNNABLE,
            !run ==> *final(self) == *old(self) && *final(shared) == *old(shared),
    ;

    fn can_finish(&self, shared: &Self::Shared, choice: &Self::Choice) -> (b: bool)
        ensures
            b == self.finish_ok(*shared, *choice),
    ;

    /// Accounts for the turn that the process has just had.
    fn finish(&mut self, shared: &mut Self::Shared, choice: &Self::Choice)
        requires
            old(self).finish_ok(*old(shared), *choice),
    ;
}

} // verus!
