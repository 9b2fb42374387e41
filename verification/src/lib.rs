//! The decisions of the k7s desktop application: what it logs, how it starts,
//! what it does when it is asked to terminate, and how its live checks judge
//! a cluster.

pub mod history;
pub mod launch;
pub mod log_filter;
pub mod nodes;
pub mod probe;
pub mod process;
pub mod sigterm;
pub mod slicing;
