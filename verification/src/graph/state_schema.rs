//! Typed state schemas.
//!
//! A type that implements `State` names the channels of a graph (one per field)
//! and converts between itself and the dynamic channel values.

use vstd::prelude::*;
use crate::agent::error::AgentError;
use crate::channels::base::ChannelValues;
use crate::channels::channel::Channel;
use crate::json::JsonValue;
use crate::strmap::StrMap;

verus! {

/// A typed view of a graph's state, for users to implement.
///
/// Each field maps to a named channel: a plain field to a `LastValue`, a field
/// with a reducer to a `BinaryOperatorAggregate`, a scratch field to an
/// `EphemeralValue`.
pub trait State: Sized {
    /// The reducer functions the state's accumulating channels use.
    type Reducer: Fn(JsonValue, JsonValue) -> Result<JsonValue, String> + Copy;

    /// The channel of each field, by field name.
    fn channels() -> StrMap<Channel<Self::Reducer>>;

    /// The state held by the given channel values.
    fn from_channel_values(values: &ChannelValues) -> Result<Self, AgentError>;

    /// The channel values of this state.
    fn to_channel_values(&self) -> ChannelValues;

    /// The field names, in declaration order.
    fn keys() -> Vec<&'static str>;
}

} // verus!
