//! Errors of the agent runtime.
//!
//! Errors are grouped by their source: LLM calls, configuration, tools, sessions,
//! graph execution and node interrupts.

use vstd::prelude::*;
use crate::json::JsonValue;
use crate::text::{decimal, u64_text, concat};

verus! {

/// What a node hands out when it interrupts itself.
#[derive(Debug)]
pub struct InterruptData {
    /// The position of this interrupt among the node's interrupts (a node may
    /// interrupt several times).
    pub index: usize,
    /// The value shown to the caller.
    pub value: JsonValue,
    /// The node that interrupted.
    pub node_name: String,
}

/// The errors of the runtime.
#[derive(Debug)]
pub enum AgentError {
    Llm(String),
    Config(String),
    Tool(String),
    Session(String),
    GraphError(String),
    Interrupt(InterruptData),
    RecursionLimit { limit: usize, step: usize },
    InvalidUpdate { channel: String, reason: String },
    UnreachableNode(String),
    /// A node ran longer than its limit, given in whole milliseconds.
    NodeTimeout { node: String, duration_ms: u64 },
    Other(String),
}

/// Whether a retry policy may run a node again after this error: LLM errors and
/// unclassified errors may be retried, every other kind may not.
pub open spec fn retryable(e: AgentError) -> bool {
    e is Llm || e is Other
}

/// The text of a duration of `ms` milliseconds as `Duration`'s `Debug` writes it.
pub open spec fn duration_text(ms: nat) -> Seq<char> {
    if ms == 0 {
        "0ns"@
    } else if ms < 1000 {
        decimal(ms) + "ms"@
    } else {
        let secs = ms / 1000;
        let rem = ms % 1000;
        if rem == 0 {
            decimal(secs) + "s"@
        } else if rem % 100 == 0 {
            decimal(secs) + "."@ + decimal(rem / 100) + "s"@
        } else if rem % 10 == 0 {
            decimal(secs) + "."@ + (if rem < 100 { "0"@ } else { Seq::empty() }) + decimal(rem / 10) + "s"@
        } else {
            decimal(secs) + "."@ + (if rem < 10 { "00"@ } else if rem < 100 { "0"@ } else { Seq::empty() })
                + decimal(rem) + "s"@
        }
    }
}

/// The message of an error.
pub open spec fn error_text(e: AgentError) -> Seq<char> {
    match e {
        AgentError::Llm(s) => "LLM error: "@ + s@,
        AgentError::Config(s) => "Configuration error: "@ + s@,
        AgentError::Tool(s) => "Tool error: "@ + s@,
        AgentError::Session(s) => "Session error: "@ + s@,
        AgentError::GraphError(s) => "Graph error: "@ + s@,
        AgentError::Interrupt(d) => "Node interrupted at index "@ + decimal(d.index as nat),
        AgentError::RecursionLimit { limit, step } =>
            "Recursion limit exceeded: reached step "@ + decimal(step as nat) + " (limit "@ + decimal(limit as nat) + ")"@,
        AgentError::InvalidUpdate { channel, reason } =>
            "Invalid update on channel '"@ + channel@ + "': "@ + reason@,
        AgentError::UnreachableNode(s) => "Unreachable node: '"@ + s@ + "' has no outgoing edge"@,
        AgentError::NodeTimeout { node, duration_ms } =>
            "Node '"@ + node@ + "' timed out after "@ + duration_text(duration_ms as nat),
        AgentError::Other(s) => s@,
    }
}

/// The text of a duration given in milliseconds.
pub fn duration_ms_text(ms: u64) -> (s: String)
    ensures
        s@ == duration_text(ms as nat),
{
    if ms == 0 {
        String::from_str("0ns")
    } else if ms < 1000 {
        let mut s = u64_text(ms);
        s.append("ms");
        s
    } else {
        let secs = ms / 1000;
        let rem = ms % 1000;
        let mut s = u64_text(secs);
        if rem == 0 {
            s.append("s");
        } else if rem % 100 == 0 {
            s.append(".");
            s.append(u64_text(rem / 100).as_str());
            s.append("s");
        } else if rem % 10 == 0 {
            s.append(".");
            if rem < 100 {
                s.append("0");
            }
            s.append(u64_text(rem / 10).as_str());
            s.append("s");
        } else {
            s.append(".");
            if rem < 10 {
                s.append("00");
            } else if rem < 100 {
                s.append("0");
            }
            s.append(u64_text(rem).as_str());
            s.append("s");
        }
        proof {
            assert(s@ =~= duration_text(ms as nat));
        }
        s
    }
}

impl AgentError {
    /// Whether a retry policy may run the node again after this error.
    pub fn is_retryable(&self) -> (r: bool)
        ensures
            r == retryable(*self),
    {
        match self {
            AgentError::Llm(_) | AgentError::Other(_) => true,
            _ => false,
        }
    }

    /// The error message.
    pub fn display(&self) -> (r: String)
        ensures
            r@ == error_text(*self),
    {
        match self {
            AgentError::Llm(s) => concat("LLM error: ", s.as_str()),
            AgentError::Config(s) => concat("Configuration error: ", s.as_str()),
            AgentError::Tool(s) => concat("Tool error: ", s.as_str()),
            AgentError::Session(s) => concat("Session error: ", s.as_str()),
            AgentError::GraphError(s) => concat("Graph error: ", s.as_str()),
            AgentError::Interrupt(d) => {
                let n = u64_text(d.index as u64);
                concat("Node interrupted at index ", n.as_str())
            },
            AgentError::RecursionLimit { limit, step } => {
                let mut r = concat("Recursion limit exceeded: reached step ", u64_text(*step as u64).as_str());
                r.append(" (limit ");
                r.append(u64_text(*limit as u64).as_str());
                r.append(")");
                r
            },
            AgentError::InvalidUpdate { channel, reason } => {
                let mut r = concat("Invalid update on channel '", channel.as_str());
                r.append("': ");
                r.append(reason.as_str());
                r
            },
            AgentError::UnreachableNode(s) => {
                let mut r = concat("Unreachable node: '", s.as_str());
                r.append("' has no outgoing edge");
                r
            },
            AgentError::NodeTimeout { node, duration_ms } => {
                let mut r = concat("Node '", node.as_str());
                r.append("' timed out after ");
                r.append(duration_ms_text(*duration_ms).as_str());
                r
            },
            AgentError::Other(s) => s.clone(),
        }
    }
}

/// The outcome of the `i`-th interrupt of a node that was started with
/// `resume_values`: the resume value at that position when there is one, and
/// otherwise an `Interrupt` error that carries `value` out to the caller.
pub open spec fn interrupt_outcome(
    index: nat,
    resume_values: Seq<JsonValue>,
    value: JsonValue,
    node_name: Seq<char>,
    r: Result<JsonValue, AgentError>,
) -> bool {
    if index < resume_values.len() {
        r matches Ok(v) && v@ == resume_values[index as int]@
    } else {
        r matches Err(AgentError::Interrupt(d)) && d.index == index && d.value == value && d.node_name@ == node_name
    }
}

/// Decides a node's `interrupt()` call: the `index`-th interrupt returns the
/// resume value recorded for it, or interrupts the node when none was recorded.
pub fn resolve_interrupt(index: usize, resume_values: &Vec<JsonValue>, value: JsonValue, node_name: &String)
    -> (r: Result<JsonValue, AgentError>)
    ensures
        interrupt_outcome(index as nat, resume_values@, value, node_name@, r),
{
    if index < resume_values.len() {
        Ok(resume_values[index].copy())
    } else {
        Err(AgentError::Interrupt(InterruptData { index, value, node_name: node_name.clone() }))
    }
}

} // verus!
