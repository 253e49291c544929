//! State channels.
//!
//! A channel is a named slot of graph state with its own rule for combining
//! writes: overwrite (`LastValue`), reduce (`BinaryOperatorAggregate`), hold for
//! one step only (`EphemeralValue`), queue (`Topic`) or wait for a set of
//! sources (`NamedBarrierValue`, `DynamicBarrierValue`).

pub mod base;
pub mod last_value;
pub mod ephemeral;
pub mod topic;
pub mod barrier;
pub mod dynamic_barrier;
pub mod binop;
pub mod channel;
pub mod laws;
