//! The interrupt bookkeeping of a node's execution.
//!
//! A node may pause itself several times; when the run is resumed, the values
//! handed back answer its pauses in order.

use vstd::prelude::*;
use crate::agent::error::{AgentError, interrupt_outcome, resolve_interrupt};
use crate::json::JsonValue;

verus! {

/// The interrupts of one node execution: how many it made so far, the values a
/// resume handed back, and the node's name.
pub struct Interrupts {
    count: usize,
    resume_values: Vec<JsonValue>,
    node_name: String,
}

impl Interrupts {
    /// How many interrupts were made.
    pub closed spec fn made(&self) -> nat {
        self.count as nat
    }

    /// The values a resume handed back.
    pub closed spec fn resumed(&self) -> Seq<JsonValue> {
        self.resume_values@
    }

    /// The node's name.
    pub closed spec fn node(&self) -> Seq<char> {
        self.node_name@
    }

    /// The bookkeeping of a fresh execution of `node_name` with the resume values
    /// of its run.
    pub fn new(node_name: String, resume_values: Vec<JsonValue>) -> (r: Interrupts)
        ensures
            r.made() == 0,
            r.resumed() == resume_values@,
            r.node() == node_name@,
    {
        Interrupts { count: 0, resume_values, node_name }
    }

    /// How many interrupts were made.
    pub fn count(&self) -> (r: usize)
        ensures
            r == self.made(),
    {
        self.count
    }

    /// The same execution started afresh: no interrupt made yet, the same
    /// resume values and node.
    pub fn restart(&self) -> (r: Interrupts)
        ensures
            r.made() == 0,
            crate::json::seq_view(r.resumed()) == crate::json::seq_view(self.resumed()),
            r.node() == self.node(),
    {
        Interrupts { count: 0, resume_values: crate::checkpoint::types::copy_values(&self.resume_values), node_name: self.node_name.clone() }
    }

    /// The node's name.
    pub fn node_name(&self) -> (r: &String)
        ensures
            r@ == self.node(),
    {
        &self.node_name
    }

    /// A pause of the node: its `i`-th call (from 0) returns the `i`-th resume
    /// value when there is one, and otherwise pauses the run, carrying `value`
    /// out to the caller.
    pub fn interrupt(&mut self, value: JsonValue) -> (r: Result<JsonValue, AgentError>)
        requires
            old(self).made() < usize::MAX,
        ensures
            final(self).made() == old(self).made() + 1,
            final(self).resumed() == old(self).resumed(),
            final(self).node() == old(self).node(),
            interrupt_outcome(old(self).made(), old(self).resumed(), value, old(self).node(), r),
    {
        let index = self.count;
        self.count = self.count + 1;
        resolve_interrupt(index, &self.resume_values, value, &self.node_name)
    }
}

/// Whether a retry policy runs a failed node again: the error must be one that
/// may be retried, and the attempts so far must be fewer than allowed.
pub fn should_retry(error: &AgentError, attempts: u32, max_attempts: u32) -> (r: bool)
    ensures
        r == (crate::agent::error::retryable(*error) && attempts < max_attempts),
{
    error.is_retryable() && attempts < max_attempts
}

/// The pause before a retry with jitter: the interval plus a random share of it
/// (`random` is a random number).
pub fn jittered(interval_ms: u64, random: u64) -> (r: u64)
    requires
        interval_ms <= u64::MAX / 2,
    ensures
        r == interval_ms + random % (if interval_ms > 1 { interval_ms } else { 1 }),
{
    let m = if interval_ms > 1 { interval_ms } else { 1 };
    interval_ms + random % m
}

} // verus!
