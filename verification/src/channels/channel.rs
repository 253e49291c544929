//! Any of the library's channels, as one type the graph can hold by name.

use vstd::prelude::*;
use crate::agent::error::AgentError;
use crate::channels::base::AnyChannel;
use crate::channels::barrier::NamedBarrierValue;
use crate::channels::binop::BinaryOperatorAggregate;
use crate::channels::dynamic_barrier::DynamicBarrierValue;
use crate::channels::ephemeral::EphemeralValue;
use crate::channels::last_value::LastValue;
use crate::channels::topic::Topic;
use crate::json::{JsonValue, JsonView};

verus! {

/// One channel of any kind. `F` is the type of the reducers of the graph's
/// reducer channels.
pub enum Channel<F> {
    LastValue(LastValue),
    BinaryOperatorAggregate(BinaryOperatorAggregate<F>),
    EphemeralValue(EphemeralValue),
    Topic(Topic),
    NamedBarrierValue(NamedBarrierValue),
    DynamicBarrierValue(DynamicBarrierValue),
}

impl<F> View for Channel<F> {
    type V = Channel<F>;

    open spec fn view(&self) -> Channel<F> {
        *self
    }
}

impl<F: Fn(JsonValue, JsonValue) -> Result<JsonValue, String> + Copy> AnyChannel for Channel<F> {
    open spec fn current(&self) -> Option<JsonView> {
        match self {
            Channel::LastValue(c) => c.current(),
            Channel::BinaryOperatorAggregate(c) => c.current(),
            Channel::EphemeralValue(c) => c.current(),
            Channel::Topic(c) => c.current(),
            Channel::NamedBarrierValue(c) => c.current(),
            Channel::DynamicBarrierValue(c) => c.current(),
        }
    }

    open spec fn saved(&self) -> Option<JsonView> {
        match self {
            Channel::LastValue(c) => c.saved(),
            Channel::BinaryOperatorAggregate(c) => c.saved(),
            Channel::EphemeralValue(c) => c.saved(),
            Channel::Topic(c) => c.saved(),
            Channel::NamedBarrierValue(c) => c.saved(),
            Channel::DynamicBarrierValue(c) => c.saved(),
        }
    }

    open spec fn persists(&self) -> bool {
        match self {
            Channel::LastValue(c) => c.persists(),
            Channel::BinaryOperatorAggregate(c) => c.persists(),
            Channel::EphemeralValue(c) => c.persists(),
            Channel::Topic(c) => c.persists(),
            Channel::NamedBarrierValue(c) => c.persists(),
            Channel::DynamicBarrierValue(c) => c.persists(),
        }
    }

    open spec fn can_update(&self) -> bool {
        match self {
            Channel::LastValue(c) => c.can_update(),
            Channel::BinaryOperatorAggregate(c) => c.can_update(),
            Channel::EphemeralValue(c) => c.can_update(),
            Channel::Topic(c) => c.can_update(),
            Channel::NamedBarrierValue(c) => c.can_update(),
            Channel::DynamicBarrierValue(c) => c.can_update(),
        }
    }

    open spec fn restores(&self, value: Option<JsonView>, r: Self) -> bool {
        match (self, r) {
            (Channel::LastValue(c), Channel::LastValue(d)) => c.restores(value, d),
            (Channel::BinaryOperatorAggregate(c), Channel::BinaryOperatorAggregate(d)) => c.restores(value, d),
            (Channel::EphemeralValue(c), Channel::EphemeralValue(d)) => c.restores(value, d),
            (Channel::Topic(c), Channel::Topic(d)) => c.restores(value, d),
            (Channel::NamedBarrierValue(c), Channel::NamedBarrierValue(d)) => c.restores(value, d),
            (Channel::DynamicBarrierValue(c), Channel::DynamicBarrierValue(d)) => c.restores(value, d),
            _ => false,
        }
    }

    open spec fn applies(&self, values: Seq<JsonView>, r: Self, out: Result<bool, AgentError>) -> bool {
        match (self, r) {
            (Channel::LastValue(c), Channel::LastValue(d)) => c.applies(values, d, out),
            (Channel::BinaryOperatorAggregate(c), Channel::BinaryOperatorAggregate(d)) => c.applies(values, d, out),
            (Channel::EphemeralValue(c), Channel::EphemeralValue(d)) => c.applies(values, d, out),
            (Channel::Topic(c), Channel::Topic(d)) => c.applies(values, d, out),
            (Channel::NamedBarrierValue(c), Channel::NamedBarrierValue(d)) => c.applies(values, d, out),
            (Channel::DynamicBarrierValue(c), Channel::DynamicBarrierValue(d)) => c.applies(values, d, out),
            _ => false,
        }
    }

    fn from_checkpoint(&self, value: Option<JsonValue>) -> (r: Self) {
        match self {
            Channel::LastValue(c) => Channel::LastValue(c.from_checkpoint(value)),
            Channel::BinaryOperatorAggregate(c) => Channel::BinaryOperatorAggregate(c.from_checkpoint(value)),
            Channel::EphemeralValue(c) => Channel::EphemeralValue(c.from_checkpoint(value)),
            Channel::Topic(c) => Channel::Topic(c.from_checkpoint(value)),
            Channel::NamedBarrierValue(c) => Channel::NamedBarrierValue(c.from_checkpoint(value)),
            Channel::DynamicBarrierValue(c) => Channel::DynamicBarrierValue(c.from_checkpoint(value)),
        }
    }

    fn update(&mut self, values: Vec<JsonValue>) -> (r: Result<bool, AgentError>) {
        match self {
            Channel::LastValue(c) => c.update(values),
            Channel::BinaryOperatorAggregate(c) => c.update(values),
            Channel::EphemeralValue(c) => c.update(values),
            Channel::Topic(c) => c.update(values),
            Channel::NamedBarrierValue(c) => c.update(values),
            Channel::DynamicBarrierValue(c) => c.update(values),
        }
    }

    fn get(&self) -> (r: Option<JsonValue>) {
        match self {
            Channel::LastValue(c) => c.get(),
            Channel::BinaryOperatorAggregate(c) => c.get(),
            Channel::EphemeralValue(c) => c.get(),
            Channel::Topic(c) => c.get(),
            Channel::NamedBarrierValue(c) => c.get(),
            Channel::DynamicBarrierValue(c) => c.get(),
        }
    }

    fn checkpoint(&self) -> (r: Option<JsonValue>) {
        match self {
            Channel::LastValue(c) => c.checkpoint(),
            Channel::BinaryOperatorAggregate(c) => c.checkpoint(),
            Channel::EphemeralValue(c) => c.checkpoint(),
            Channel::Topic(c) => c.checkpoint(),
            Channel::NamedBarrierValue(c) => c.checkpoint(),
            Channel::DynamicBarrierValue(c) => c.checkpoint(),
        }
    }

    fn is_persistent(&self) -> (r: bool) {
        match self {
            Channel::LastValue(c) => c.is_persistent(),
            Channel::BinaryOperatorAggregate(c) => c.is_persistent(),
            Channel::EphemeralValue(c) => c.is_persistent(),
            Channel::Topic(c) => c.is_persistent(),
            Channel::NamedBarrierValue(c) => c.is_persistent(),
            Channel::DynamicBarrierValue(c) => c.is_persistent(),
        }
    }
}

} // verus!
