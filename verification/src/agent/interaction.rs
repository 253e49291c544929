//! Requests for outside interaction and their answers.
//!
//! A node asks the outside world (a person, another agent, a system) to act;
//! who answers is an opaque operator id that the layers above interpret.

use vstd::prelude::*;
use crate::json::JsonValue;

verus! {

/// A request a node makes to the outside world.
#[derive(Debug)]
pub struct InteractionRequest {
    pub id: String,
    pub node: String,
    pub action_type: ActionType,
    pub description: String,
    pub options: Option<Vec<InteractionOption>>,
    pub metadata: Option<JsonValue>,
}

/// One choice of a selection request.
#[derive(Debug)]
pub struct InteractionOption {
    pub id: String,
    pub label: String,
    pub description: Option<String>,
}

/// The kind of action requested.
#[derive(Debug)]
pub enum ActionType {
    Confirm,
    Select,
    Input,
    Review,
    Approve,
    Custom(String),
}

/// The answer to a request.
#[derive(Debug)]
pub struct InteractionResponse {
    pub request_id: String,
    /// Who answered; its format is left to the layers above.
    pub operator_id: Option<String>,
    pub action: ResponseAction,
}

/// What the answer does.
#[derive(Debug)]
pub enum ResponseAction {
    Accept,
    Reject { reason: Option<String> },
    Select { selected: Vec<String> },
    Input { value: JsonValue },
}

} // verus!
