//! The topic channel: collects every write of a step in order; not persisted.

use vstd::prelude::*;
use crate::agent::error::AgentError;
use crate::channels::base::AnyChannel;
use crate::json::{JsonValue, JsonView, lemma_view_seq, json_view_seq, seq_view};

verus! {

/// The value a topic shows: nothing when empty, otherwise an array of the
/// collected values in the order they were written.
pub open spec fn topic_value(items: Seq<JsonView>) -> Option<JsonView> {
    if items.len() == 0 { None } else { Some(JsonView::Array(items)) }
}

/// Appends every write to a queue.
pub struct Topic {
    values: Vec<JsonValue>,
}

impl Topic {
    /// The queued values.
    pub closed spec fn model(&self) -> Seq<JsonView> {
        seq_view(self.values@)
    }

    /// An empty topic.
    pub fn new() -> (r: Self)
        ensures
            r.model() == Seq::<JsonView>::empty(),
    {
        let r = Topic { values: Vec::new() };
        assert(r.model() =~= Seq::<JsonView>::empty());
        r
    }

    /// Takes every queued value out, in order, and leaves the topic empty.
    pub fn drain(&mut self) -> (r: Vec<JsonValue>)
        ensures
            seq_view(r@) == old(self).model(),
            final(self).model() == Seq::<JsonView>::empty(),
    {
        let mut out: Vec<JsonValue> = Vec::new();
        std::mem::swap(&mut out, &mut self.values);
        assert(seq_view(self.values@) =~= Seq::<JsonView>::empty());
        out
    }
}

impl AnyChannel for Topic {
    open spec fn current(&self) -> Option<JsonView> {
        topic_value(self.model())
    }

    open spec fn saved(&self) -> Option<JsonView> {
        None
    }

    open spec fn persists(&self) -> bool {
        false
    }

    open spec fn can_update(&self) -> bool {
        true
    }

    open spec fn restores(&self, value: Option<JsonView>, r: Self) -> bool {
        r.model() == Seq::<JsonView>::empty()
    }

    open spec fn applies(&self, values: Seq<JsonView>, r: Self, out: Result<bool, AgentError>) -> bool {
        &&& r.model() == self.model() + values
        &&& out == Ok::<bool, AgentError>(values.len() > 0)
    }

    fn from_checkpoint(&self, value: Option<JsonValue>) -> (r: Self) {
        Topic::new()
    }

    fn update(&mut self, values: Vec<JsonValue>) -> (r: Result<bool, AgentError>) {
        if values.len() == 0 {
            assert(self.model() + seq_view(values@) =~= self.model());
            return Ok(false);
        }
        let ghost before = self.model();
        let ghost added = seq_view(values@);
        let mut values = values;
        self.values.append(&mut values);
        assert(self.model() =~= before + added);
        Ok(true)
    }

    fn get(&self) -> (r: Option<JsonValue>) {
        if self.values.len() == 0 {
            None
        } else {
            let mut out: Vec<JsonValue> = Vec::new();
            let mut i: usize = 0;
            while i < self.values.len()
                invariant
                    i <= self.values.len(),
                    out.len() == i,
                    forall|j: int| 0 <= j < i ==> #[trigger] out@[j]@ == self.values@[j]@,
                decreases self.values.len() - i,
            {
                out.push(self.values[i].copy());
                i = i + 1;
            }
            proof {
                lemma_view_seq(out@);
                assert forall|k: int| 0 <= k < out.len() implies json_view_seq(out@)[k] == self.model()[k] by {
                    assert(out@[k]@ == self.values@[k]@);
                }
                assert(json_view_seq(out@) =~= self.model());
            }
            Some(JsonValue::Array(out))
        }
    }

    fn checkpoint(&self) -> (r: Option<JsonValue>) {
        None
    }

    fn is_persistent(&self) -> (r: bool) {
        false
    }
}

impl Default for Topic {
    fn default() -> (r: Self)
        ensures
            r.model() == Seq::<JsonView>::empty(),
    {
        Topic::new()
    }
}

} // verus!
