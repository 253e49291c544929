//! The channel interface.
//!
//! A channel holds one named piece of graph state and decides how several writes
//! to it combine. Values are dynamic JSON; nodes convert them to typed data at
//! their boundary.

use vstd::prelude::*;
use crate::agent::error::AgentError;
use crate::json::{JsonValue, JsonView, opt_view, seq_view};
use crate::strmap::StrMap;

verus! {

/// The version counter of a channel.
pub type ChannelVersion = u64;

/// The current value of each channel, by channel name.
pub type ChannelValues = StrMap<JsonValue>;

/// The version of each channel, by channel name.
pub type ChannelVersions = StrMap<u64>;

/// The interface every channel offers.
pub trait AnyChannel: Sized {
    /// What `get` returns.
    spec fn current(&self) -> Option<JsonView>;

    /// What `checkpoint` returns.
    spec fn saved(&self) -> Option<JsonView>;

    /// What `is_persistent` returns.
    spec fn persists(&self) -> bool;

    /// Whether `update` may be called: it holds whenever the channel's own
    /// functions accept every input.
    spec fn can_update(&self) -> bool;

    /// `r` is what `from_checkpoint(value)` may return.
    spec fn restores(&self, value: Option<JsonView>, r: Self) -> bool;

    /// `r` is the channel after `update(values)` returned `out`.
    spec fn applies(&self, values: Seq<JsonView>, r: Self, out: Result<bool, AgentError>) -> bool;

    /// A channel of the same kind holding the checkpointed `value` (`None` means a
    /// fresh start).
    fn from_checkpoint(&self, value: Option<JsonValue>) -> (r: Self)
        ensures
            self.restores(opt_view(value), r),
            self.can_update() ==> r.can_update(),
    ;

    /// Applies a batch of writes and says whether the value changed.
    fn update(&mut self, values: Vec<JsonValue>) -> (r: Result<bool, AgentError>)
        requires
            old(self).can_update(),
        ensures
            old(self).applies(seq_view(values@), *final(self), r),
            final(self).can_update(),
    ;

    /// The current value, `None` when the channel is empty.
    fn get(&self) -> (r: Option<JsonValue>)
        ensures
            opt_view(r) == self.current(),
    ;

    /// The value to store in a checkpoint.
    fn checkpoint(&self) -> (r: Option<JsonValue>)
        ensures
            opt_view(r) == self.saved(),
    ;

    /// Whether the channel is stored in checkpoints.
    fn is_persistent(&self) -> (r: bool)
        ensures
            r == self.persists(),
    ;
}

/// Copies an optional value.
pub fn copy_opt(o: &Option<JsonValue>) -> (r: Option<JsonValue>)
    ensures
        opt_view(r) == opt_view(*o),
{
    match o {
        Some(v) => Some(v.copy()),
        None => None,
    }
}

/// Takes the last element of a batch of writes.
pub fn take_last(values: Vec<JsonValue>) -> (r: Option<JsonValue>)
    ensures
        values.len() == 0 ==> r is None,
        values.len() > 0 ==> (r matches Some(v) && v@ == seq_view(values@).last()),
{
    let mut values = values;
    values.pop()
}

} // verus!
