//! The GPU scheduler: it learns which processes use the GPU.
pub mod account;
pub mod cycle;
pub mod promises;
pub mod restart;
pub mod scan;
pub mod smi;
pub mod state;
pub mod table;
