//! The named barrier: a synchronisation point that opens once every one of a
//! fixed set of sources has reported.
//!
//! `add_edge_join([A, B], C)` uses one to run `C` only after both `A` and `B`
//! completed.

use vstd::prelude::*;
use crate::agent::error::AgentError;
use crate::channels::base::AnyChannel;
use crate::json::{JsonValue, JsonView, seq_view, strs_of, lemma_strs_of_push};
use crate::strmap::StrMap;

verus! {

/// The value a barrier shows: `true` once its target set is non-empty and fully
/// seen, nothing before.
pub open spec fn barrier_value(open: bool) -> Option<JsonView> {
    if open { Some(JsonView::Bool(true)) } else { None }
}

/// The set of texts of a slice of string slices.
pub open spec fn names_of(names: Seq<&str>) -> Set<Seq<char>> {
    Set::new(|s: Seq<char>| exists|i: int| 0 <= i < names.len() && #[trigger] names[i]@ == s)
}

/// A copy of a name set.
pub fn copy_set(s: &StrMap<()>) -> (r: StrMap<()>)
    ensures
        r@.dom() == s@.dom(),
        r@ == s@,
{
    let mut r: StrMap<()> = StrMap::new();
    let n = s.len();
    let mut i: usize = 0;
    while i < n
        invariant
            i <= n,
            n == s.keys_seq().len(),
            s.keys_seq().no_duplicates(),
            forall|k: Seq<char>| #[trigger] s@.contains_key(k) <==> s.keys_seq().contains(k),
            r@.dom() == s.keys_seq().take(i as int).to_set(),
        decreases n - i,
    {
        let k = s.key_at(i).clone();
        r.insert(k, ());
        proof {
            let t0 = s.keys_seq().take(i as int);
            let t1 = s.keys_seq().take(i + 1);
            assert(t1 == t0.push(s.keys_seq()[i as int]));
            assert forall|x: Seq<char>| t1.contains(x) <==> t0.to_set().insert(s.keys_seq()[i as int]).contains(x) by {
                if t1.contains(x) {
                    let j = choose|j: int| 0 <= j < t1.len() && t1[j] == x;
                    if j < i {
                        assert(t0[j] == x);
                    }
                }
                if t0.contains(x) {
                    let j = choose|j: int| 0 <= j < t0.len() && t0[j] == x;
                    assert(t1[j] == x);
                }
                if x == s.keys_seq()[i as int] {
                    assert(t1[i as int] == x);
                }
            }
            assert(r@.dom() =~= t1.to_set());
        }
        i = i + 1;
    }
    assert(s.keys_seq().take(n as int) == s.keys_seq());
    assert(r@.dom() =~= s@.dom());
    assert(r@ =~= s@);
    r
}

/// The set of the strings among `items`.
pub fn string_set(items: &Vec<JsonValue>) -> (r: StrMap<()>)
    ensures
        r@.dom() == strs_of(seq_view(items@)),
{
    let mut r: StrMap<()> = StrMap::new();
    let mut i: usize = 0;
    assert(seq_view(items@).take(0) =~= Seq::<JsonView>::empty());
    assert(strs_of(Seq::<JsonView>::empty()) =~= Set::<Seq<char>>::empty());
    while i < items.len()
        invariant
            i <= items.len(),
            r@.dom() == strs_of(seq_view(items@).take(i as int)),
        decreases items.len() - i,
    {
        proof {
            assert(seq_view(items@).take(i + 1) == seq_view(items@).take(i as int).push(items@[i as int]@));
            lemma_strs_of_push(seq_view(items@).take(i as int), items@[i as int]@);
        }
        match items[i].as_str() {
            Some(name) => {
                r.insert(name.clone(), ());
                assert(r@.dom() =~= strs_of(seq_view(items@).take(i + 1)));
            },
            None => {},
        }
        i = i + 1;
    }
    assert(seq_view(items@).take(items.len() as int) == seq_view(items@));
    r
}

/// The seen set after a batch of writes: every written string that is one of
/// the barrier's names is added.
pub open spec fn barrier_seen_after(names: Set<Seq<char>>, seen: Set<Seq<char>>, values: Seq<JsonView>) -> Set<Seq<char>> {
    seen.union(names.intersect(strs_of(values)))
}

/// Waits for a fixed set of sources.
pub struct NamedBarrierValue {
    names: StrMap<()>,
    seen: StrMap<()>,
}

impl NamedBarrierValue {
    /// The names the barrier waits for.
    pub closed spec fn names(&self) -> Set<Seq<char>> {
        self.names@.dom()
    }

    /// The names reported so far.
    pub closed spec fn seen(&self) -> Set<Seq<char>> {
        self.seen@.dom()
    }

    /// Whether the barrier is open: its names are not empty and all were seen.
    pub open spec fn is_open(&self) -> bool {
        self.names().len() > 0 && self.seen().len() == self.names().len()
    }

    /// The sets of a barrier are finite and it has only seen its own names.
    pub closed spec fn wf(&self) -> bool {
        &&& self.names@.dom().finite()
        &&& self.seen@.dom().finite()
        &&& self.seen@.dom().subset_of(self.names@.dom())
    }

    /// A barrier that waits for every name in `names` and has seen none.
    pub fn new(names: &[&str]) -> (r: Self)
        ensures
            r.names() == names_of(names@),
            r.seen() == Set::<Seq<char>>::empty(),
            r.wf(),
    {
        let mut set: StrMap<()> = StrMap::new();
        let mut i: usize = 0;
        while i < names.len()
            invariant
                i <= names.len(),
                set@.dom() == names_of(names@.take(i as int)),
            decreases names.len() - i,
        {
            let s = String::from_str(names[i]);
            set.insert(s, ());
            proof {
                let t = names@.take(i + 1);
                assert forall|k: Seq<char>| names_of(t).contains(k) <==> set@.dom().contains(k) by {
                    if names_of(t).contains(k) {
                        let j = choose|j: int| 0 <= j < t.len() && #[trigger] t[j]@ == k;
                        if j < i {
                            assert(names@.take(i as int)[j] == t[j]);
                        }
                    }
                    if names_of(names@.take(i as int)).contains(k) {
                        let j = choose|j: int| 0 <= j < i && #[trigger] names@.take(i as int)[j]@ == k;
                        assert(t[j] == names@.take(i as int)[j]);
                    }
                    if k == names@[i as int]@ {
                        assert(t[i as int] == names@[i as int]);
                    }
                }
                assert(set@.dom() =~= names_of(t));
            }
            i = i + 1;
        }
        assert(names@.take(names.len() as int) == names@);
        let seen: StrMap<()> = StrMap::new();
        let _ = set.len();
        let _ = seen.len();
        NamedBarrierValue { names: set, seen }
    }
}

impl AnyChannel for NamedBarrierValue {
    open spec fn current(&self) -> Option<JsonView> {
        barrier_value(self.is_open())
    }

    open spec fn saved(&self) -> Option<JsonView> {
        None
    }

    open spec fn persists(&self) -> bool {
        false
    }

    open spec fn can_update(&self) -> bool {
        self.wf()
    }

    open spec fn restores(&self, value: Option<JsonView>, r: Self) -> bool {
        &&& r.names() == self.names()
        &&& r.seen() == Set::<Seq<char>>::empty()
    }

    open spec fn applies(&self, values: Seq<JsonView>, r: Self, out: Result<bool, AgentError>) -> bool {
        let after = barrier_seen_after(self.names(), self.seen(), values);
        &&& r.names() == self.names()
        &&& r.seen() == after
        &&& out == Ok::<bool, AgentError>(after != self.seen())
    }

    fn from_checkpoint(&self, value: Option<JsonValue>) -> (r: Self) {
        let names = copy_set(&self.names);
        let seen: StrMap<()> = StrMap::new();
        let _ = names.len();
        let _ = seen.len();
        NamedBarrierValue { names, seen }
    }

    fn update(&mut self, values: Vec<JsonValue>) -> (r: Result<bool, AgentError>) {
        let ghost seen0 = self.seen();
        let ghost vs = seq_view(values@);
        let mut changed = false;
        let mut i: usize = 0;
        assert(vs.take(0) =~= Seq::<JsonView>::empty());
        assert(strs_of(Seq::<JsonView>::empty()) =~= Set::<Seq<char>>::empty());
        assert(barrier_seen_after(self.names(), seen0, vs.take(0)) =~= seen0);
        while i < values.len()
            invariant
                i <= values.len(),
                vs == seq_view(values@),
                self.wf(),
                self.names() == old(self).names(),
                seen0 == old(self).seen(),
                self.seen() == barrier_seen_after(self.names(), seen0, vs.take(i as int)),
                changed == (self.seen() != seen0),
            decreases values.len() - i,
        {
            proof {
                assert(vs.take(i + 1) == vs.take(i as int).push(values@[i as int]@));
                lemma_strs_of_push(vs.take(i as int), values@[i as int]@);
            }
            let ghost prev = self.seen();
            match values[i].as_str() {
                Some(name) => {
                    if self.names.contains_key(name.as_str()) && !self.seen.contains_key(name.as_str()) {
                        self.seen.insert(name.clone(), ());
                        changed = true;
                        proof {
                            assert(self.seen() =~= barrier_seen_after(self.names(), seen0, vs.take(i + 1)));
                            assert(!seen0.contains(name@));
                            assert(self.seen().contains(name@));
                        }
                    } else {
                        assert(self.seen() =~= barrier_seen_after(self.names(), seen0, vs.take(i + 1)));
                    }
                },
                None => {
                    assert(self.seen() =~= barrier_seen_after(self.names(), seen0, vs.take(i + 1)));
                },
            }
            let _ = self.seen.len();
            i = i + 1;
        }
        assert(vs.take(values.len() as int) == vs);
        Ok(changed)
    }

    fn get(&self) -> (r: Option<JsonValue>) {
        if self.names.len() > 0 && self.seen.len() == self.names.len() {
            Some(JsonValue::Bool(true))
        } else {
            None
        }
    }

    fn checkpoint(&self) -> (r: Option<JsonValue>) {
        None
    }

    fn is_persistent(&self) -> (r: bool) {
        false
    }
}

/// A named barrier opens exactly when every one of its (non-empty set of) names
/// was reported, now or before; other writes are ignored.
pub proof fn lemma_barrier_opens_when_all_seen(c: NamedBarrierValue, values: Seq<JsonView>, r: NamedBarrierValue, out: Result<bool, AgentError>)
    requires
        c.wf(),
        c.applies(values, r, out),
    ensures
        r.is_open() <==> (c.names().len() > 0 && c.names().subset_of(c.seen().union(strs_of(values)))),
        r.seen().subset_of(c.names()),
{
    let after = r.seen();
    assert(after == c.seen().union(c.names().intersect(strs_of(values))));
    assert(after.subset_of(c.names()));
    assert(c.names().finite());
    if c.names().subset_of(c.seen().union(strs_of(values))) {
        assert(after =~= c.names());
    }
    if r.is_open() {
        vstd::set_lib::lemma_subset_equality(after, c.names());
    }
}

/// A barrier restored from a checkpoint waits afresh for all its names: it
/// opens exactly when writes name every one of its (non-empty set of) names.
pub proof fn lemma_restored_barrier_reopens(
    c: NamedBarrierValue,
    value: Option<JsonView>,
    r: NamedBarrierValue,
    values: Seq<JsonView>,
    r2: NamedBarrierValue,
    out: Result<bool, AgentError>,
)
    requires
        c.wf(),
        c.restores(value, r),
        r.applies(values, r2, out),
    ensures
        r2.is_open() <==> (c.names().len() > 0 && c.names().subset_of(strs_of(values))),
{
    assert(r.wf());
    lemma_barrier_opens_when_all_seen(r, values, r2, out);
    assert(r.seen().union(strs_of(values)) =~= strs_of(values));
}

/// Writing a name the barrier already saw changes nothing.
pub proof fn lemma_barrier_repeat_no_change(c: NamedBarrierValue, name: Seq<char>, r: NamedBarrierValue, out: Result<bool, AgentError>)
    requires
        c.wf(),
        c.seen().contains(name),
        c.applies(seq![JsonView::Str(name)], r, out),
    ensures
        r.seen() == c.seen(),
        out == Ok::<bool, AgentError>(false),
{
    assert(strs_of(seq![JsonView::Str(name)]) =~= set![name]) by {
        let one = seq![JsonView::Str(name)];
        assert(one[0] == JsonView::Str(name));
        assert(one[0].str_of() == Some(name));
        assert forall|x: Seq<char>| strs_of(one).contains(x) implies x == name by {
            let i = choose|i: int| 0 <= i < one.len() && #[trigger] one[i].str_of() == Some(x);
            assert(i == 0);
        }
    }
    assert(r.seen() =~= c.seen());
}

} // verus!
