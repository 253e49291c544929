//! A state-graph runtime for AI agents.
//!
//! Graphs are built from nodes, edges and channels, compiled, and run in
//! supersteps. Channels decide how writes combine; checkpoints save a run so it
//! can be paused and resumed; stream events report a run to its client.

pub mod agent;
pub mod channels;
pub mod checkpoint;
pub mod graph;
mod ids;
pub mod json;
pub mod strmap;
pub mod text;

pub use crate::agent::error::{AgentError, InterruptData};
pub use crate::agent::interaction::{
    ActionType, InteractionOption, InteractionRequest, InteractionResponse, ResponseAction,
};
pub use crate::agent::message::{LlmStreamItem, Message, ToolCall, ToolDefinition};
pub use crate::agent::stream::{MessageType, StreamEvent, StreamMode, StreamModeSet};
pub use crate::channels::barrier::NamedBarrierValue;
pub use crate::channels::base::{AnyChannel, ChannelValues, ChannelVersions};
pub use crate::channels::binop::BinaryOperatorAggregate;
pub use crate::channels::channel::Channel;
pub use crate::channels::dynamic_barrier::DynamicBarrierValue;
pub use crate::channels::ephemeral::EphemeralValue;
pub use crate::channels::last_value::LastValue;
pub use crate::channels::topic::Topic;
pub use crate::checkpoint::memory::MemorySaver;
pub use crate::checkpoint::types::{
    Checkpoint, CheckpointMetadata, CheckpointSource, CheckpointTuple, PendingWrite,
};
pub use crate::graph::builder::StateGraph;
pub use crate::graph::command::{CommandGraph, GotoTarget, NodeOutput};
pub use crate::graph::compiled::CompiledGraph;
pub use crate::graph::edge::{Edge, RouteDecision, END, START};
pub use crate::graph::send::Send;
pub use crate::graph::state_schema::State;
pub use crate::graph::types::{Command, Durability, GraphResult, InterruptReason, StateSnapshot};
pub use crate::json::{overwrite, JsonValue, OVERWRITE_KEY};
pub use crate::strmap::StrMap;
