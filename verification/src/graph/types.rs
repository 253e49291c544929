//! Results, interrupt reasons, resume commands and other records of graph runs.

use vstd::prelude::*;
use crate::channels::base::ChannelValues;
use crate::checkpoint::types::CheckpointTuple;
use crate::json::JsonValue;

verus! {

/// How a run ended.
#[derive(Debug)]
pub enum GraphResult {
    /// The run completed: the final values and the last checkpoint id.
    Done { values: ChannelValues, checkpoint_id: String },
    /// The run paused: the values so far, the checkpoint to resume from, the
    /// node to resume at, and why it paused.
    Interrupted {
        values: ChannelValues,
        checkpoint_id: String,
        resume_node: String,
        reason: InterruptReason,
    },
}

/// Why a run paused.
#[derive(Debug)]
pub enum InterruptReason {
    /// The caller cancelled.
    UserCancelled,
    /// The run reached a node listed to pause before.
    InterruptBefore(String),
    /// The run finished a node listed to pause after.
    InterruptAfter(String),
    /// A node interrupted itself and handed out this value.
    NodeInterrupt { value: JsonValue },
}

/// What a resume carries: a value for the interrupted node, and updates to apply
/// to the state first.
#[derive(Debug)]
pub struct Command {
    pub resume: Option<JsonValue>,
    pub update: Option<ChannelValues>,
}

/// When checkpoints are written.
#[derive(Debug, Clone, Copy, PartialEq, Eq, Structural)]
pub enum Durability {
    /// After every step, before the next one starts (the default).
    Sync,
    /// After every step, without waiting for the write.
    Async,
    /// Once, when the run completes.
    Exit,
}

/// A join: the target runs once every source has completed.
#[derive(Debug)]
pub struct JoinEdge {
    pub sources: Vec<String>,
    pub target: String,
    /// The barrier channel that tracks the sources.
    pub channel_name: String,
}

/// The view of a join.
pub struct JoinView {
    pub sources: Seq<Seq<char>>,
    pub target: Seq<char>,
    pub channel_name: Seq<char>,
}

impl View for JoinEdge {
    type V = JoinView;

    open spec fn view(&self) -> JoinView {
        JoinView {
            sources: self.sources@.map_values(|s: String| s@),
            target: self.target@,
            channel_name: self.channel_name@,
        }
    }
}

/// The views of a sequence of joins.
pub open spec fn joins_view(s: Seq<JoinEdge>) -> Seq<JoinView> {
    s.map_values(|j: JoinEdge| j@)
}

/// The state of a thread at one checkpoint: channel values and the nodes that
/// would run next.
#[derive(Debug)]
pub struct StateSnapshot {
    pub values: ChannelValues,
    pub next: Vec<String>,
    pub checkpoint: CheckpointTuple,
    pub created_at: String,
}

impl Default for Durability {
    fn default() -> (r: Self)
        ensures
            r == Durability::Sync,
    {
        Durability::Sync
    }
}

impl Default for Command {
    fn default() -> (r: Self)
        ensures
            r.resume is None,
            r.update is None,
    {
        Command { resume: None, update: None }
    }
}

} // verus!
