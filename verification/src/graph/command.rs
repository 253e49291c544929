//! Node outputs and routing commands.
//!
//! A node returns either a plain state update, or a command that carries an
//! optional update together with where to go next.

use vstd::prelude::*;
use crate::channels::base::ChannelValues;
use crate::graph::send::Send as GraphSend;

verus! {

/// Where a command sends the graph next.
#[derive(Debug)]
pub enum GotoTarget {
    /// One node.
    Node(String),
    /// One task per directive, run in parallel.
    Sends(Vec<GraphSend>),
}

/// The graph a command acts on.
#[derive(Debug, Clone, Copy, PartialEq, Eq, Structural)]
pub enum CommandGraph {
    /// The graph the node belongs to.
    Current,
    /// The enclosing graph (from within a subgraph).
    Parent,
}

/// What a node returns.
#[derive(Debug)]
pub enum NodeOutput {
    /// A plain update of channel values; the edges decide where to go.
    Update(ChannelValues),
    /// An update with its own routing.
    Command {
        update: Option<ChannelValues>,
        /// Where to go next, bypassing the node's edge.
        goto: Option<GotoTarget>,
        /// Which graph the command is for.
        graph: Option<CommandGraph>,
    },
}

impl NodeOutput {
    /// A plain update.
    pub fn update(values: ChannelValues) -> (r: Self)
        ensures
            r == NodeOutput::Update(values),
    {
        NodeOutput::Update(values)
    }

    /// A command that goes to one node.
    pub fn command(update: Option<ChannelValues>, goto: String) -> (r: Self)
        ensures
            r == (NodeOutput::Command { update, goto: Some(GotoTarget::Node(goto)), graph: None }),
    {
        NodeOutput::Command { update, goto: Some(GotoTarget::Node(goto)), graph: None }
    }

    /// A command that fans out.
    pub fn command_with_sends(update: Option<ChannelValues>, sends: Vec<GraphSend>) -> (r: Self)
        ensures
            r == (NodeOutput::Command { update, goto: Some(GotoTarget::Sends(sends)), graph: None }),
    {
        NodeOutput::Command { update, goto: Some(GotoTarget::Sends(sends)), graph: None }
    }

    /// The update the output carries, whichever kind it is.
    pub open spec fn updates_of(self) -> Option<ChannelValues> {
        match self {
            NodeOutput::Update(v) => Some(v),
            NodeOutput::Command { update, .. } => update,
        }
    }

    /// The routing target, if the output is a command with one.
    pub open spec fn target_of(self) -> Option<GotoTarget> {
        match self {
            NodeOutput::Update(_) => None,
            NodeOutput::Command { goto, .. } => goto,
        }
    }

    /// The update the output carries, whichever kind it is.
    pub fn take_updates(&self) -> (r: Option<&ChannelValues>)
        ensures
            match r {
                Some(v) => self.updates_of() == Some(*v),
                None => self.updates_of() is None,
            },
    {
        match self {
            NodeOutput::Update(v) => Some(v),
            NodeOutput::Command { update, .. } => match update {
                Some(u) => Some(u),
                None => None,
            },
        }
    }

    /// The routing target of a command.
    pub fn goto_target(&self) -> (r: Option<&GotoTarget>)
        ensures
            match r {
                Some(t) => self.target_of() == Some(*t),
                None => self.target_of() is None,
            },
    {
        match self {
            NodeOutput::Update(_) => None,
            NodeOutput::Command { goto, .. } => match goto {
                Some(g) => Some(g),
                None => None,
            },
        }
    }

    /// The node a command goes to, when its target is a single node.
    pub fn goto(&self) -> (r: Option<&String>)
        ensures
            match r {
                Some(n) => self.target_of() == Some(GotoTarget::Node(*n)),
                None => !(self.target_of() matches Some(GotoTarget::Node(_))),
            },
    {
        match self {
            NodeOutput::Update(_) => None,
            NodeOutput::Command { goto, .. } => match goto {
                Some(GotoTarget::Node(name)) => Some(name),
                _ => None,
            },
        }
    }

    /// The graph a command is for.
    pub fn graph(&self) -> (r: Option<CommandGraph>)
        ensures
            r == match self {
                NodeOutput::Update(_) => None,
                NodeOutput::Command { graph, .. } => *graph,
            },
    {
        match self {
            NodeOutput::Update(_) => None,
            NodeOutput::Command { graph, .. } => *graph,
        }
    }
}

} // verus!
