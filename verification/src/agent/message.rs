//! Conversation messages, by role: system, user, assistant and tool.

use vstd::prelude::*;
use crate::json::JsonValue;

verus! {

/// A request from the model to call a tool.
#[derive(Debug)]
pub struct ToolCall {
    pub id: String,
    pub name: String,
    /// The arguments, as JSON.
    pub arguments: JsonValue,
}

/// A message of a conversation.
#[derive(Debug)]
pub enum Message {
    System { content: String },
    User { content: String },
    Assistant {
        content: Option<String>,
        tool_calls: Vec<ToolCall>,
        /// The model's reasoning, where it shows it.
        reasoning: Option<String>,
    },
    Tool { tool_call_id: String, content: String },
}

impl Message {
    /// A system message.
    pub fn system(content: String) -> (r: Message)
        ensures
            r matches Message::System { content: c } && c == content,
    {
        Message::System { content }
    }

    /// A user message.
    pub fn user(content: String) -> (r: Message)
        ensures
            r matches Message::User { content: c } && c == content,
    {
        Message::User { content }
    }

    /// An assistant message with text and nothing else.
    pub fn assistant(content: String) -> (r: Message)
        ensures
            r matches Message::Assistant { content: c, tool_calls, reasoning }
                && c == Some(content) && tool_calls@.len() == 0 && reasoning is None,
    {
        Message::Assistant { content: Some(content), tool_calls: Vec::new(), reasoning: None }
    }

    /// An assistant message that calls tools.
    pub fn assistant_with_tool_calls(content: Option<String>, tool_calls: Vec<ToolCall>) -> (r: Message)
        ensures
            r matches Message::Assistant { content: c, tool_calls: t, reasoning }
                && c == content && t == tool_calls && reasoning is None,
    {
        Message::Assistant { content, tool_calls, reasoning: None }
    }

    /// The result of a tool call.
    pub fn tool_result(tool_call_id: String, content: String) -> (r: Message)
        ensures
            r matches Message::Tool { tool_call_id: i, content: c } && i == tool_call_id && c == content,
    {
        Message::Tool { tool_call_id, content }
    }
}

/// A tool the model may call: its name, what it does, and the JSON Schema of its
/// parameters.
#[derive(Debug)]
pub struct ToolDefinition {
    pub name: String,
    pub description: String,
    pub parameters: JsonValue,
}

/// One item of a streamed model reply.
#[derive(Debug)]
pub enum LlmStreamItem {
    /// A piece of text.
    TextDelta(String),
    /// A complete tool call.
    ToolCall(ToolCall),
    /// A piece of the model's reasoning.
    ReasoningDelta(String),
    /// The end of the reply.
    Done,
}

} // verus!
