//! The state graph engine.

pub mod edge;
pub mod send;
pub mod command;
pub mod task;
pub mod types;
pub mod pregel;
pub mod compiled;
pub mod builder;
pub mod state_schema;
pub mod node;
pub mod subgraph;
