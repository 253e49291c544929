//! Tasks: one execution of a node within a step.
//!
//! A PULL task runs a node on the graph state; a PUSH task, started by a
//! `Send`, runs it on the state with the `Send`'s arguments laid over it.

use vstd::prelude::*;
use crate::ids::new_id;
use crate::json::JsonValue;

verus! {

/// The kind of a task.
#[derive(Debug)]
pub enum TaskType {
    /// Runs on the graph state.
    Pull,
    /// Runs on the graph state overlaid with these arguments.
    Push(JsonValue),
}

/// One node execution.
#[derive(Debug)]
pub struct Task {
    pub id: String,
    pub node_name: String,
    pub task_type: TaskType,
}

impl Task {
    /// A PULL task of `node_name`, with a fresh random id.
    pub fn pull(node_name: &str) -> (r: Self)
        ensures
            r.node_name@ == node_name@,
            r.task_type is Pull,
    {
        Task { id: new_id(), node_name: String::from_str(node_name), task_type: TaskType::Pull }
    }

    /// A PUSH task of `node_name` with `args`, with a fresh random id.
    pub fn push(node_name: &str, args: JsonValue) -> (r: Self)
        ensures
            r.node_name@ == node_name@,
            r.task_type == TaskType::Push(args),
    {
        Task { id: new_id(), node_name: String::from_str(node_name), task_type: TaskType::Push(args) }
    }
}

} // verus!
