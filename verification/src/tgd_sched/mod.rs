//! The CPU scheduler: it gives processes a nice value.
pub mod account;
pub mod model;
pub mod promises;
pub mod restart;
pub mod scan;
pub mod sched;
