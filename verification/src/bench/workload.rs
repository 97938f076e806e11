//! What the children of a workload do.

use vstd::prelude::*;

verus! {

/// How long a bursty worker sleeps before burst `cycle`: every fourth sleep is
/// a longer one.
pub fn bursty_sleep(cycle: usize, child: usize) -> (ticks: usize)
    requires
        cycle + child <= usize::MAX,
    ensures
        ticks == (if (cycle + child) % 4 == 0 {
            3int
        } else {
            1
        }),
{
    if (cycle + child) % 4 == 0 {
        3
    } else {
        1
    }
}

/// How much a bursty worker computes in burst `cycle`: every fifth burst is
/// long enough to abuse a preference for interactive tasks.
pub fn bursty_work(cycle: usize, child: usize) -> (iterations: usize)
    requires
        cycle + child <= usize::MAX,
    ensures
        iterations == (if (cycle + child) % 5 == 0 {
            250_000int
        } else if (cycle + child) % 5 <= 2 {
            30_000
        } else {
            80_000
        }),
{
    match (cycle + child) % 5 {
        0 => 250_000,
        1 | 2 => 30_000,
        _ => 80_000,
    }
}

/// How long an ambiguous worker of the mixed workload sleeps before `cycle`.
pub fn ambiguous_sleep(cycle: usize, child: usize) -> (ticks: usize)
    requires
        cycle + child <= usize::MAX,
    ensures
        ticks == (if (cycle + child) % 3 == 0 {
            1int
        } else {
            2
        }),
{
    if (cycle + child) % 3 == 0 {
        1
    } else {
        2
    }
}

/// How much an ambiguous worker of the mixed workload computes in `cycle`.
pub fn ambiguous_work(cycle: usize, child: usize) -> (iterations: usize)
    requires
        cycle + child <= usize::MAX,
    ensures
        iterations == (if (cycle + child) % 5 == 0 {
            300_000int
        } else {
            45_000
        }),
{
    if (cycle + child) % 5 == 0 {
        300_000
    } else {
        45_000
    }
}

/// Whether a worker that changes its behaviour every `phase_len` ticks sleeps
/// and wakes at time `now`, or computes.
pub fn in_sleep_phase(start: usize, now: usize, phase_len: usize) -> (b: bool)
    requires
        start <= now,
        phase_len > 0,
    ensures
        b == (((now - start) / phase_len as int) % 2 == 0),
{
    ((now - start) / phase_len) % 2 == 0
}

/// How much a worker that changes its behaviour computes at a time: little
/// between sleeps, much otherwise.
pub fn flip_work(in_sleep: bool) -> (iterations: usize)
    ensures
        iterations == (if in_sleep {
            30_000int
        } else {
            250_000
        }),
{
    if in_sleep {
        30_000
    } else {
        250_000
    }
}

} // verus!
