//! The ephemeral channel: holds the last write of a step and is never stored in
//! checkpoints.

use vstd::prelude::*;
use crate::agent::error::AgentError;
use crate::channels::base::{AnyChannel, copy_opt, take_last};
use crate::channels::last_value::last_write;
use crate::json::{JsonValue, JsonView, opt_view, seq_view};

verus! {

/// Holds the most recent write, is not persisted, and starts empty after a restore.
pub struct EphemeralValue {
    value: Option<JsonValue>,
}

impl EphemeralValue {
    /// The value held.
    pub closed spec fn model(&self) -> Option<JsonView> {
        opt_view(self.value)
    }

    /// An empty channel.
    pub fn new() -> (r: Self)
        ensures
            r.model() is None,
    {
        EphemeralValue { value: None }
    }

    /// Takes the value out and leaves the channel empty.
    pub fn consume(&mut self) -> (r: Option<JsonValue>)
        ensures
            opt_view(r) == old(self).model(),
            final(self).model() is None,
    {
        let r = self.value.take();
        r
    }
}

impl AnyChannel for EphemeralValue {
    open spec fn current(&self) -> Option<JsonView> {
        self.model()
    }

    open spec fn saved(&self) -> Option<JsonView> {
        None
    }

    open spec fn persists(&self) -> bool {
        false
    }

    open spec fn can_update(&self) -> bool {
        true
    }

    open spec fn restores(&self, value: Option<JsonView>, r: Self) -> bool {
        r.model() is None
    }

    open spec fn applies(&self, values: Seq<JsonView>, r: Self, out: Result<bool, AgentError>) -> bool {
        &&& r.model() == last_write(self.model(), values)
        &&& out == Ok::<bool, AgentError>(values.len() > 0)
    }

    fn from_checkpoint(&self, value: Option<JsonValue>) -> (r: Self) {
        EphemeralValue { value: None }
    }

    fn update(&mut self, values: Vec<JsonValue>) -> (r: Result<bool, AgentError>) {
        match take_last(values) {
            Some(v) => {
                self.value = Some(v);
                Ok(true)
            },
            None => Ok(false),
        }
    }

    fn get(&self) -> (r: Option<JsonValue>) {
        copy_opt(&self.value)
    }

    fn checkpoint(&self) -> (r: Option<JsonValue>) {
        None
    }

    fn is_persistent(&self) -> (r: bool) {
        false
    }
}

impl Default for EphemeralValue {
    fn default() -> (r: Self)
        ensures
            r.model() is None,
    {
        EphemeralValue::new()
    }
}

} // verus!
