//! The process table as the schedulers see it.

use vstd::prelude::*;

verus! {

/// Number of slots in the process table.
pub const NPROC: usize = 64;

/// The life cycle of a process slot.
#[derive(Clone, Copy, Debug, PartialEq, Eq, Structural)]
pub enum ProcState {
    UNUSED,
    USED,
    SLEEPING,
    RUNNABLE,
    RUNNING,
    ZOMBIE,
}

/// A task takes part in the competition for the CPU when it waits for one or
/// holds one.
pub open spec fn is_active(state: ProcState) -> bool {
    state == ProcState::RUNNABLE || state == ProcState::RUNNING
}

} // verus!
