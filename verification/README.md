# octox scheduling policies

Verified scheduling policies of a small SMP kernel with a process table of
fixed size, and the arithmetic of the benchmark programs that compare them.

- `src/scheduler/` holds the policies: round robin, MLFQ, O(1), CFS, EEVDF, a
  learning scheduler and a hybrid of EEVDF and learning. A policy works on plain
  tables that all CPUs share. `select` and `scan` choose from a scan of the
  process table, and the trait `Scheduler` covers the dispatch: `begin` before
  the switch to the process, `finish` after it.
- `src/scheduler/scan.rs` says what it means for a scan to pick the least key in
  scan order; `src/scheduler/vtime.rs` is virtual time; `src/scheduler/network.rs`
  is the fixed-point network of the learners.
- `src/scheduler/fairness/` states what the policies promise over any number of
  passes: how far apart the turns of two tasks can get, that deadlines stay
  ahead and the floor never falls, and that nobody starves.
- `src/bench/` holds what the benchmark children do, measure and pack into their
  exit status, and what their parents report.
- `src/arith.rs`, `src/prng.rs` and `src/process.rs` are shared.
- `app/` runs the policies on a machine and the programs on a system, both
  behind traits.
- `tests/` runs the library on concrete values.

Counters that the policies move are kept in range by `can_begin`, `can_finish`
and `can_swap`, and the sums of the reports by `can_split` and its like, which
callers outside the verified code ask first. When a process takes a slot, the
kernel tells the policies that keep something about the slot (`enter`).
