//! The superstep execution engine.

pub mod channel_ops;
pub mod engine;
pub mod run;
