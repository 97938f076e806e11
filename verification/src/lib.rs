//! Process scheduling for a small multi-core kernel with a fixed process table.
//!
//! Each scheduler is a set of decisions on plain values: what to run next given
//! what a scan of the process table saw, what to write down before the chosen
//! process is switched in, and what to charge it when it comes back. Locks,
//! interrupts and the context switch belong to the kernel that drives the loop.
//!
//! `bench` holds the arithmetic of the workloads that measure the schedulers:
//! delays, percentiles, the packing of results into exit statuses, and the
//! figures that a parent reports about its children.
//!
//! `laws` says what all this is for, in proof functions that hold of every
//! input: how two calls relate, what a result has to satisfy, and what a parent
//! reads back of what a child wrote.

pub mod arith;
pub mod bench;
pub mod laws;
pub mod prng;
pub mod process;
pub mod scheduler;
