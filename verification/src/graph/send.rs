//! Fan-out directives.
//!
//! A router or a node may return several `Send`s; each one starts a task of its
//! target node with `args` mixed into that task's input.

use vstd::prelude::*;
use crate::json::JsonValue;

verus! {

/// Runs `node` as a separate task whose input is the state with `args` laid over it.
#[derive(Debug)]
pub struct Send {
    /// The node to run.
    pub node: String,
    /// The task's own input.
    pub args: JsonValue,
}

impl Send {
    /// A directive to run `node` with `args`.
    pub fn new(node: String, args: JsonValue) -> (r: Self)
        ensures
            r.node == node,
            r.args == args,
    {
        Send { node, args }
    }
}

} // verus!
