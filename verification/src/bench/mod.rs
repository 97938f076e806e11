//! The arithmetic of the scheduler workloads.

pub mod child;
pub mod delays;
pub mod parent;
pub mod report;
pub mod status;
pub mod workload;
