//! NelTex: the decisions of a CPU scheduler and of a GPU scheduler.
pub mod class;
pub mod clock;
pub mod learned;
pub mod ntvidia;
pub mod order;
pub mod procfs;
pub mod promises;
pub mod scalar;
pub mod score;
pub mod text;
pub mod tgd_sched;
