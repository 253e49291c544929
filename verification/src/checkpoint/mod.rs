//! Checkpoints: saving and restoring the state of a graph run.

pub mod types;
pub mod memory;
