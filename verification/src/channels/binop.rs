//! The reducer channel: each write is combined with the current value by a
//! user-supplied function instead of replacing it.
//!
//! The typical use is a `messages` channel where every node's new messages are
//! appended to the list. A write of the form `{"__overwrite__": v}` bypasses the
//! reducer and sets the value to `v`.

use vstd::prelude::*;
use crate::agent::error::AgentError;
use crate::channels::base::{AnyChannel, copy_opt};
use crate::json::{JsonValue, JsonView, OVERWRITE_KEY, opt_view, seq_view};

verus! {

/// The value an overwrite marker carries, if `v` is one.
pub open spec fn overwrite_of(v: JsonView) -> Option<JsonView> {
    v.get(OVERWRITE_KEY@)
}

/// `f` may turn (`x`, `y`) into `z`.
pub open spec fn reduces_to<F: Fn(JsonValue, JsonValue) -> Result<JsonValue, String>>(
    f: F,
    x: JsonView,
    y: JsonView,
    z: JsonView,
) -> bool {
    exists|a: JsonValue, b: JsonValue, r: JsonValue|
        a@ == x && b@ == y && r@ == z && #[trigger] call_ensures(f, (a, b), Ok::<JsonValue, String>(r))
}

/// `f` may fail on (`x`, `y`) with the message `m`.
pub open spec fn reduce_fails<F: Fn(JsonValue, JsonValue) -> Result<JsonValue, String>>(
    f: F,
    x: JsonView,
    y: JsonView,
    m: Seq<char>,
) -> bool {
    exists|a: JsonValue, b: JsonValue, e: String|
        a@ == x && b@ == y && e@ == m && #[trigger] call_ensures(f, (a, b), Err::<JsonValue, String>(e))
}

/// The reducer `f` accepts every pair of values.
pub open spec fn total_reducer<F: Fn(JsonValue, JsonValue) -> Result<JsonValue, String>>(f: F) -> bool {
    forall|a: JsonValue, b: JsonValue| call_requires(f, (a, b))
}

/// One write: an overwrite marker sets its value; the first write into an empty
/// channel is stored as it is; every other write is reduced into the value.
pub open spec fn binop_step<F: Fn(JsonValue, JsonValue) -> Result<JsonValue, String>>(
    f: F,
    cur: Option<JsonView>,
    v: JsonView,
    next: Option<JsonView>,
) -> bool {
    match overwrite_of(v) {
        Some(a) => next == Some(a),
        None => match cur {
            None => next == Some(v),
            Some(x) => next matches Some(z) && reduces_to(f, x, v, z),
        },
    }
}

/// `trace` lists the values a channel passes through while it takes the writes
/// `vals` in order: `trace[i + 1]` follows from `trace[i]` and `vals[i]`.
pub open spec fn binop_trace<F: Fn(JsonValue, JsonValue) -> Result<JsonValue, String>>(
    f: F,
    vals: Seq<JsonView>,
    trace: Seq<Option<JsonView>>,
) -> bool {
    &&& trace.len() == vals.len() + 1
    &&& forall|i: int| 0 <= i < vals.len() ==> #[trigger] binop_step(f, trace[i], vals[i], trace[i + 1])
}

/// A batch of writes taken in order may lead from `start` to `end`.
pub open spec fn binop_chain<F: Fn(JsonValue, JsonValue) -> Result<JsonValue, String>>(
    f: F,
    start: Option<JsonView>,
    vals: Seq<JsonView>,
    end: Option<JsonView>,
) -> bool {
    exists|trace: Seq<Option<JsonView>>|
        #[trigger] binop_trace(f, vals, trace) && trace[0] == start && trace.last() == end
}

/// The write at position `i` of `values` went to the reducer from `mid`, and
/// the reducer failed with the message `m`.
pub open spec fn failing_write<F: Fn(JsonValue, JsonValue) -> Result<JsonValue, String>>(
    f: F,
    mid: Option<JsonView>,
    values: Seq<JsonView>,
    i: int,
    m: Seq<char>,
) -> bool {
    &&& overwrite_of(values[i]) is None
    &&& mid matches Some(x) && reduce_fails(f, x, values[i], m)
}

/// Combines writes with a reducer. Reducers are `Copy` (a function, a function
/// pointer, or a closure over copyable data), so a channel restored from a
/// checkpoint holds the very reducer it was built with.
pub struct BinaryOperatorAggregate<F> {
    value: Option<JsonValue>,
    reducer: F,
}

impl<F: Fn(JsonValue, JsonValue) -> Result<JsonValue, String> + Copy> BinaryOperatorAggregate<F> {
    /// The value held.
    pub closed spec fn model(&self) -> Option<JsonView> {
        opt_view(self.value)
    }

    /// The reducer.
    pub closed spec fn reducer(&self) -> F {
        self.reducer
    }

    /// An empty channel that combines writes with `reducer`.
    pub fn new(reducer: F) -> (r: Self)
        ensures
            r.model() is None,
            r.reducer() == reducer,
    {
        BinaryOperatorAggregate { value: None, reducer }
    }
}

impl<F: Fn(JsonValue, JsonValue) -> Result<JsonValue, String> + Copy> AnyChannel for BinaryOperatorAggregate<F> {
    open spec fn current(&self) -> Option<JsonView> {
        self.model()
    }

    open spec fn saved(&self) -> Option<JsonView> {
        self.model()
    }

    open spec fn persists(&self) -> bool {
        true
    }

    open spec fn can_update(&self) -> bool {
        total_reducer(self.reducer())
    }

    open spec fn restores(&self, value: Option<JsonView>, r: Self) -> bool {
        &&& r.model() == value
        &&& r.reducer() == self.reducer()
    }

    open spec fn applies(&self, values: Seq<JsonView>, r: Self, out: Result<bool, AgentError>) -> bool {
        &&& r.reducer() == self.reducer()
        &&& match out {
            Ok(changed) => changed == (values.len() > 0) && binop_chain(self.reducer(), self.model(), values, r.model()),
            Err(e) => exists|i: int, mid: Option<JsonView>, m: Seq<char>|
                0 <= i < values.len()
                && binop_chain(self.reducer(), self.model(), values.take(i), mid)
                && #[trigger] failing_write(self.reducer(), mid, values, i, m)
                && r.model() == mid
                && (e matches AgentError::Other(t) && t@ == m),
        }
    }

    fn from_checkpoint(&self, value: Option<JsonValue>) -> (r: Self) {
        BinaryOperatorAggregate { value, reducer: self.reducer }
    }

    fn update(&mut self, values: Vec<JsonValue>) -> (r: Result<bool, AgentError>) {
        let ghost vs = seq_view(values@);
        let ghost start = self.model();
        if values.len() == 0 {
            assert(binop_trace(self.reducer(), vs, seq![start]));
            return Ok(false);
        }
        let mut i: usize = 0;
        let ghost mut trace: Seq<Option<JsonView>> = seq![start];
        assert(binop_trace(self.reducer(), vs.take(0), trace));
        while i < values.len()
            invariant
                i <= values.len(),
                vs == seq_view(values@),
                start == old(self).model(),
                self.reducer() == old(self).reducer(),
                total_reducer(self.reducer()),
                binop_trace(self.reducer(), vs.take(i as int), trace),
                trace[0] == start,
                trace.last() == self.model(),
            decreases values.len() - i,
        {
            let ghost prev = self.model();
            proof {
                assert(vs.take(i + 1).drop_last() == vs.take(i as int));
                assert(vs.take(i + 1).last() == values@[i as int]@);
            }
            match values[i].get(OVERWRITE_KEY) {
                Some(actual) => {
                    self.value = Some(actual.copy());
                },
                None => {
                    match &self.value {
                        Some(existing) => {
                            let a = existing.copy();
                            let b = values[i].copy();
                            match (self.reducer)(a, b) {
                                Ok(r) => {
                                    self.value = Some(r);
                                },
                                Err(e) => {
                                    proof {
                                        assert(binop_chain(self.reducer(), start, vs.take(i as int), prev));
                                        assert(failing_write(self.reducer(), prev, vs, i as int, e@));
                                    }
                                    return Err(AgentError::Other(e));
                                },
                            }
                        },
                        None => {
                            self.value = Some(values[i].copy());
                        },
                    }
                },
            }
            proof {
                assert(binop_step(self.reducer(), prev, vs[i as int], self.model()));
                let t2 = trace.push(self.model());
                assert forall|j: int| 0 <= j < i + 1 implies #[trigger] binop_step(self.reducer(), t2[j], vs.take(i + 1)[j], t2[j + 1]) by {
                    if j < i {
                        assert(vs.take(i + 1)[j] == vs.take(i as int)[j]);
                        assert(binop_step(self.reducer(), trace[j], vs.take(i as int)[j], trace[j + 1]));
                    }
                }
                trace = t2;
            }
            i = i + 1;
        }
        assert(vs.take(values.len() as int) == vs);
        assert(binop_trace(self.reducer(), vs, trace));
        Ok(true)
    }

    fn get(&self) -> (r: Option<JsonValue>) {
        copy_opt(&self.value)
    }

    fn checkpoint(&self) -> (r: Option<JsonValue>) {
        copy_opt(&self.value)
    }

    fn is_persistent(&self) -> (r: bool) {
        true
    }
}

} // verus!
