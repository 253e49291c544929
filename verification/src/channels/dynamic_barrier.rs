//! The dynamic barrier: like the named barrier, but the set of sources it waits
//! for is set at run time by a `{"__wait_for__": [names...]}` write.
//!
//! It starts unprimed; a wait-for write primes it with a target set (and forgets
//! what it had seen); plain string writes then report sources. Once every target
//! was seen, `get` returns `true`.

use vstd::prelude::*;
use crate::agent::error::AgentError;
use crate::channels::base::AnyChannel;
use crate::channels::barrier::{barrier_value, string_set};
use crate::json::{JsonValue, JsonView, seq_view, strs_of, lemma_view_seq_map};
use crate::strmap::StrMap;

verus! {

/// Marker key of a wait-for write.
pub const WAIT_FOR_KEY: &'static str = "__wait_for__";

/// The state a dynamic barrier's writes act on: the target set (none before
/// priming), the sources seen, and whether anything changed.
pub type DynState = (Option<Set<Seq<char>>>, Set<Seq<char>>, bool);

/// The effect of one write.
pub open spec fn dyn_step(st: DynState, v: JsonView) -> DynState {
    match v.get(WAIT_FOR_KEY@) {
        Some(JsonView::Array(items)) => (Some(strs_of(items)), Set::empty(), true),
        _ => match (v.str_of(), st.0) {
            (Some(n), Some(ns)) => if ns.contains(n) && !st.1.contains(n) {
                (st.0, st.1.insert(n), true)
            } else {
                st
            },
            _ => st,
        },
    }
}

/// The effect of a batch of writes, applied in order.
pub open spec fn dyn_fold(st: DynState, values: Seq<JsonView>) -> DynState
    decreases values.len(),
{
    if values.len() == 0 {
        st
    } else {
        dyn_step(dyn_fold(st, values.drop_last()), values.last())
    }
}

/// The state restored from a checkpoint value of the form
/// `[names_or_null, seen_array]`; anything else restores an unprimed barrier.
pub open spec fn dyn_restored(value: Option<JsonView>) -> (Option<Set<Seq<char>>>, Set<Seq<char>>) {
    match value {
        Some(JsonView::Array(arr)) => if arr.len() == 2 {
            (
                match arr[0] {
                    JsonView::Array(a) => Some(strs_of(a)),
                    _ => None,
                },
                match arr[1] {
                    JsonView::Array(a) => strs_of(a),
                    _ => Set::empty(),
                },
            )
        } else {
            (None, Set::empty())
        },
        _ => (None, Set::empty()),
    }
}

/// The barrier is open when it is primed with a non-empty target set and has
/// seen at least as many sources as there are targets.
pub open spec fn dyn_open(names: Option<Set<Seq<char>>>, seen: Set<Seq<char>>) -> bool {
    match names {
        Some(ns) => ns.len() > 0 && seen.len() >= ns.len(),
        None => false,
    }
}

/// Waits for a set of sources fixed at run time.
pub struct DynamicBarrierValue {
    names: Option<StrMap<()>>,
    seen: StrMap<()>,
}

impl DynamicBarrierValue {
    /// The target set, `None` before priming.
    pub closed spec fn names(&self) -> Option<Set<Seq<char>>> {
        match self.names {
            Some(m) => Some(m@.dom()),
            None => None,
        }
    }

    /// The sources seen since the last priming.
    pub closed spec fn seen(&self) -> Set<Seq<char>> {
        self.seen@.dom()
    }

    /// An unprimed barrier.
    pub fn new() -> (r: Self)
        ensures
            r.names() is None,
            r.seen() == Set::<Seq<char>>::empty(),
    {
        DynamicBarrierValue { names: None, seen: StrMap::new() }
    }
}

impl AnyChannel for DynamicBarrierValue {
    open spec fn current(&self) -> Option<JsonView> {
        barrier_value(dyn_open(self.names(), self.seen()))
    }

    open spec fn saved(&self) -> Option<JsonView> {
        None
    }

    open spec fn persists(&self) -> bool {
        false
    }

    open spec fn can_update(&self) -> bool {
        true
    }

    open spec fn restores(&self, value: Option<JsonView>, r: Self) -> bool {
        (r.names(), r.seen()) == dyn_restored(value)
    }

    open spec fn applies(&self, values: Seq<JsonView>, r: Self, out: Result<bool, AgentError>) -> bool {
        let after = dyn_fold((self.names(), self.seen(), false), values);
        &&& r.names() == after.0
        &&& r.seen() == after.1
        &&& out == Ok::<bool, AgentError>(after.2)
    }

    fn from_checkpoint(&self, value: Option<JsonValue>) -> (r: Self) {
        let mut ch = DynamicBarrierValue::new();
        match value {
            Some(JsonValue::Array(arr)) => {
                proof {
                    lemma_view_seq_map(arr@);
                }
                if arr.len() == 2 {
                    match &arr[0] {
                        JsonValue::Array(a) => {
                            proof {
                                lemma_view_seq_map(a@);
                            }
                            ch.names = Some(string_set(a));
                        },
                        _ => {},
                    }
                    match &arr[1] {
                        JsonValue::Array(a) => {
                            proof {
                                lemma_view_seq_map(a@);
                            }
                            ch.seen = string_set(a);
                        },
                        _ => {},
                    }
                }
            },
            _ => {},
        }
        ch
    }

    fn update(&mut self, values: Vec<JsonValue>) -> (r: Result<bool, AgentError>) {
        let ghost vs = seq_view(values@);
        let ghost st0: DynState = (self.names(), self.seen(), false);
        let mut changed = false;
        let mut i: usize = 0;
        assert(vs.take(0) =~= Seq::<JsonView>::empty());
        while i < values.len()
            invariant
                i <= values.len(),
                vs == seq_view(values@),
                st0 == (old(self).names(), old(self).seen(), false),
                (self.names(), self.seen(), changed) == dyn_fold(st0, vs.take(i as int)),
            decreases values.len() - i,
        {
            proof {
                assert(vs.take(i + 1).drop_last() == vs.take(i as int));
                assert(vs.take(i + 1).last() == values@[i as int]@);
            }
            let v = &values[i];
            let mut primed = false;
            match v.get(WAIT_FOR_KEY) {
                Some(JsonValue::Array(items)) => {
                    proof {
                        lemma_view_seq_map(items@);
                    }
                    self.names = Some(string_set(items));
                    self.seen = StrMap::new();
                    changed = true;
                    primed = true;
                },
                _ => {},
            }
            if !primed {
                match v.as_str() {
                    Some(name) => {
                        match &self.names {
                            Some(ns) => {
                                if ns.contains_key(name.as_str()) && !self.seen.contains_key(name.as_str()) {
                                    self.seen.insert(name.clone(), ());
                                    changed = true;
                                }
                            },
                            None => {},
                        }
                    },
                    None => {},
                }
            }
            proof {
                assert((self.names(), self.seen(), changed) == dyn_fold(st0, vs.take(i + 1)));
            }
            i = i + 1;
        }
        assert(vs.take(values.len() as int) == vs);
        Ok(changed)
    }

    fn get(&self) -> (r: Option<JsonValue>) {
        match &self.names {
            Some(ns) => {
                if ns.len() > 0 && self.seen.len() >= ns.len() {
                    Some(JsonValue::Bool(true))
                } else {
                    None
                }
            },
            None => None,
        }
    }

    fn checkpoint(&self) -> (r: Option<JsonValue>) {
        None
    }

    fn is_persistent(&self) -> (r: bool) {
        false
    }
}

impl Default for DynamicBarrierValue {
    fn default() -> (r: Self)
        ensures
            r.names() is None,
            r.seen() == Set::<Seq<char>>::empty(),
    {
        DynamicBarrierValue::new()
    }
}

} // verus!
