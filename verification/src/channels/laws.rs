//! What holds of every channel, and of each kind.

use vstd::prelude::*;
use crate::agent::error::AgentError;
use crate::channels::base::AnyChannel;
use crate::channels::binop::{binop_step, overwrite_of};
use crate::channels::channel::Channel;
use crate::channels::dynamic_barrier::{DynState, dyn_step};
use crate::channels::last_value::LastValue;
use crate::json::{JsonValue, JsonView, strs_of};

verus! {

/// A persistent channel restored from its own checkpoint value holds the value
/// it held.
pub proof fn lemma_checkpoint_roundtrip<F: Fn(JsonValue, JsonValue) -> Result<JsonValue, String> + Copy>(
    c: Channel<F>,
    r: Channel<F>,
)
    requires
        c.persists(),
        c.restores(c.saved(), r),
    ensures
        r.current() == c.current(),
{
}

/// A channel that is not persistent restores empty from its checkpoint.
pub proof fn lemma_transient_restores_empty<F: Fn(JsonValue, JsonValue) -> Result<JsonValue, String> + Copy>(
    c: Channel<F>,
    r: Channel<F>,
)
    requires
        !c.persists(),
        c.restores(c.saved(), r),
    ensures
        r.current() is None,
        r.saved() is None,
{
    match (c, r) {
        (Channel::NamedBarrierValue(a), Channel::NamedBarrierValue(b)) => {
            assert(b.seen().len() == 0);
        },
        _ => {},
    }
}

/// A batch written to a last-value channel leaves its last write (nothing
/// changes for an empty batch), and the channel reports a change exactly when
/// the batch is not empty.
pub proof fn lemma_last_write_wins(c: LastValue, values: Seq<JsonView>, r: LastValue, out: Result<bool, AgentError>)
    requires
        c.applies(values, r, out),
    ensures
        values.len() > 0 ==> r.current() == Some(values.last()),
        values.len() == 0 ==> r.current() == c.current(),
        out == Ok::<bool, AgentError>(values.len() > 0),
{
}

/// An overwrite marker sets the aggregate's value to the marked value, whatever
/// it held and whatever its reducer does.
pub proof fn lemma_overwrite_bypasses_reducer<F: Fn(JsonValue, JsonValue) -> Result<JsonValue, String>>(
    f: F,
    cur: Option<JsonView>,
    v: JsonView,
    next: Option<JsonView>,
)
    requires
        overwrite_of(v) is Some,
    ensures
        binop_step(f, cur, v, next) <==> next == overwrite_of(v),
{
}

/// Before a dynamic barrier is primed, plain source reports are ignored; a
/// wait-for write primes it afresh.
pub proof fn lemma_dynamic_barrier_priming(st: DynState, v: JsonView)
    ensures
        st.0 is None && !(v.get(crate::channels::dynamic_barrier::WAIT_FOR_KEY@) matches Some(JsonView::Array(_)))
            ==> dyn_step(st, v) == st,
        v.get(crate::channels::dynamic_barrier::WAIT_FOR_KEY@) matches Some(JsonView::Array(items))
            ==> dyn_step(st, v) == (Some(strs_of(items)), Set::<Seq<char>>::empty(), true),
{
}

} // verus!
