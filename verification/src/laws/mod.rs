//! What the operations of this crate are for, as laws.
//!
//! The contracts say what each operation computes. The laws here say what that
//! has to achieve: how two calls relate, what a result has to satisfy, what
//! comes back of what went in. They speak of table entries, states, weights and
//! reported figures themselves.

pub mod arith;
pub mod learning;
pub mod measures;
pub mod network;
pub mod operations;
pub mod parents;
pub mod priorities;
pub mod reports;
pub mod selection;
pub mod virtual_time;
pub mod workloads;

