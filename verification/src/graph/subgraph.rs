//! Subgraphs run as nodes of an enclosing graph.

use vstd::prelude::*;
use crate::graph::command::{CommandGraph, NodeOutput};
use crate::graph::types::GraphResult;

verus! {

/// What a subgraph's result means to the enclosing graph: a completed subgraph
/// writes its values; a paused one writes them and hands the pause up to the
/// enclosing graph.
pub fn subgraph_output(result: GraphResult) -> (r: NodeOutput)
    ensures
        match result {
            GraphResult::Done { values, .. } => r == NodeOutput::Update(values),
            GraphResult::Interrupted { values, .. } =>
                r == (NodeOutput::Command { update: Some(values), goto: None, graph: Some(CommandGraph::Parent) }),
        },
{
    match result {
        GraphResult::Done { values, .. } => NodeOutput::Update(values),
        GraphResult::Interrupted { values, .. } =>
            NodeOutput::Command { update: Some(values), goto: None, graph: Some(CommandGraph::Parent) },
    }
}

} // verus!
