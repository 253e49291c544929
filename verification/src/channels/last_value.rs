//! The last-value channel: every write replaces the previous value.

use vstd::prelude::*;
use crate::agent::error::AgentError;
use crate::channels::base::{AnyChannel, copy_opt, take_last};
use crate::json::{JsonValue, JsonView, opt_view, seq_view};

verus! {

/// The value after a batch of writes to a last-value channel: the last write, or
/// the old value when the batch is empty.
pub open spec fn last_write(old: Option<JsonView>, values: Seq<JsonView>) -> Option<JsonView> {
    if values.len() == 0 { old } else { Some(values.last()) }
}

/// Holds only the most recent write.
pub struct LastValue {
    value: Option<JsonValue>,
}

impl LastValue {
    /// The value held.
    pub closed spec fn model(&self) -> Option<JsonView> {
        opt_view(self.value)
    }

    /// An empty channel.
    pub fn new() -> (r: Self)
        ensures
            r.model() is None,
    {
        LastValue { value: None }
    }
}

impl AnyChannel for LastValue {
    open spec fn current(&self) -> Option<JsonView> {
        self.model()
    }

    open spec fn saved(&self) -> Option<JsonView> {
        self.model()
    }

    open spec fn persists(&self) -> bool {
        true
    }

    open spec fn can_update(&self) -> bool {
        true
    }

    open spec fn restores(&self, value: Option<JsonView>, r: Self) -> bool {
        r.model() == value
    }

    open spec fn applies(&self, values: Seq<JsonView>, r: Self, out: Result<bool, AgentError>) -> bool {
        &&& r.model() == last_write(self.model(), values)
        &&& out == Ok::<bool, AgentError>(values.len() > 0)
    }

    fn from_checkpoint(&self, value: Option<JsonValue>) -> (r: Self) {
        LastValue { value }
    }

    fn update(&mut self, values: Vec<JsonValue>) -> (r: Result<bool, AgentError>) {
        let n = values.len();
        match take_last(values) {
            Some(v) => {
                self.value = Some(v);
                Ok(true)
            },
            None => Ok(false),
        }
    }

    fn get(&self) -> (r: Option<JsonValue>) {
        copy_opt(&self.value)
    }

    fn checkpoint(&self) -> (r: Option<JsonValue>) {
        copy_opt(&self.value)
    }

    fn is_persistent(&self) -> (r: bool) {
        true
    }
}

impl Default for LastValue {
    fn default() -> (r: Self)
        ensures
            r.model() is None,
    {
        LastValue::new()
    }
}

} // verus!
