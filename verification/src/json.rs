//! Dynamic values carried by channels.
//!
//! `JsonValue` holds the JSON data that flows through the graph: node inputs and
//! outputs, channel contents and checkpoint payloads. The engine only inspects a
//! few shapes of it (strings, arrays, objects and their keys); numbers are carried
//! through unchanged.

use vstd::prelude::*;

verus! {

/// Marker key: an update of the form `{"__overwrite__": v}` written to a reducer
/// channel replaces the channel value with `v` instead of going through the reducer.
pub const OVERWRITE_KEY: &'static str = "__overwrite__";

/// A JSON value. Integers that fit an `i64` are held exactly; every other number
/// is held by its decimal text.
#[derive(Debug, PartialEq)]
pub enum JsonValue {
    Null,
    Bool(bool),
    Int(i64),
    Number(String),
    Str(String),
    Array(Vec<JsonValue>),
    Object(Vec<(String, JsonValue)>),
}

/// The mathematical form of a `JsonValue`: the same tree with sequences in place
/// of vectors and strings.
pub enum JsonView {
    Null,
    Bool(bool),
    Int(i64),
    Number(Seq<char>),
    Str(Seq<char>),
    Array(Seq<JsonView>),
    Object(Seq<(Seq<char>, JsonView)>),
}

/// The view of a value.
pub open spec fn json_view(v: JsonValue) -> JsonView
    decreases v,
{
    match v {
        JsonValue::Null => JsonView::Null,
        JsonValue::Bool(b) => JsonView::Bool(b),
        JsonValue::Int(i) => JsonView::Int(i),
        JsonValue::Number(s) => JsonView::Number(s@),
        JsonValue::Str(s) => JsonView::Str(s@),
        JsonValue::Array(items) => JsonView::Array(json_view_seq(items@)),
        JsonValue::Object(entries) => JsonView::Object(json_view_entries(entries@)),
    }
}

/// The views of a sequence of values, element by element.
pub open spec fn json_view_seq(s: Seq<JsonValue>) -> Seq<JsonView>
    decreases s,
{
    if s.len() == 0 {
        Seq::empty()
    } else {
        seq![json_view(s[0])] + json_view_seq(s.subrange(1, s.len() as int))
    }
}

/// The views of a sequence of object entries, entry by entry.
pub open spec fn json_view_entries(s: Seq<(String, JsonValue)>) -> Seq<(Seq<char>, JsonView)>
    decreases s,
{
    if s.len() == 0 {
        Seq::empty()
    } else {
        seq![(s[0].0@, json_view(s[0].1))] + json_view_entries(s.subrange(1, s.len() as int))
    }
}

impl View for JsonValue {
    type V = JsonView;

    open spec fn view(&self) -> JsonView {
        json_view(*self)
    }
}

impl DeepView for JsonValue {
    type V = JsonView;

    open spec fn deep_view(&self) -> JsonView {
        json_view(*self)
    }
}

/// The views of the values in an optional value.
pub open spec fn opt_view(o: Option<JsonValue>) -> Option<JsonView> {
    match o {
        Some(v) => Some(v@),
        None => None,
    }
}

/// The views of a sequence of values.
pub open spec fn seq_view(s: Seq<JsonValue>) -> Seq<JsonView> {
    s.map_values(|v: JsonValue| v@)
}

/// The value stored under `key` in a list of object entries: the first entry whose
/// key matches.
pub open spec fn entries_get(entries: Seq<(Seq<char>, JsonView)>, key: Seq<char>) -> Option<JsonView>
    decreases entries.len(),
{
    if entries.len() == 0 {
        None
    } else if entries[0].0 == key {
        Some(entries[0].1)
    } else {
        entries_get(entries.drop_first(), key)
    }
}

impl JsonView {
    /// The string held by a `Str` value.
    pub open spec fn str_of(self) -> Option<Seq<char>> {
        match self {
            JsonView::Str(s) => Some(s),
            _ => None,
        }
    }

    /// The value under `key` when this is an object holding that key.
    pub open spec fn get(self, key: Seq<char>) -> Option<JsonView> {
        match self {
            JsonView::Object(entries) => entries_get(entries, key),
            _ => None,
        }
    }
}

/// The view of a sequence of values has one view per element, in order.
pub proof fn lemma_view_seq(s: Seq<JsonValue>)
    ensures
        json_view_seq(s).len() == s.len(),
        forall|i: int| 0 <= i < s.len() ==> #[trigger] json_view_seq(s)[i] == json_view(s[i]),
    decreases s.len(),
{
    if s.len() > 0 {
        let rest = s.subrange(1, s.len() as int);
        lemma_view_seq(rest);
        assert forall|i: int| 0 <= i < s.len() implies #[trigger] json_view_seq(s)[i] == json_view(s[i]) by {
            if i > 0 {
                assert(rest[i - 1] == s[i]);
            }
        }
    }
}

/// The view of a sequence of entries has one view per entry, in order.
pub proof fn lemma_view_entries(s: Seq<(String, JsonValue)>)
    ensures
        json_view_entries(s).len() == s.len(),
        forall|i: int| 0 <= i < s.len() ==> #[trigger] json_view_entries(s)[i] == (s[i].0@, json_view(s[i].1)),
    decreases s.len(),
{
    if s.len() > 0 {
        let rest = s.subrange(1, s.len() as int);
        lemma_view_entries(rest);
        assert forall|i: int| 0 <= i < s.len() implies #[trigger] json_view_entries(s)[i] == (s[i].0@, json_view(s[i].1)) by {
            if i > 0 {
                assert(rest[i - 1] == s[i]);
            }
        }
    }
}

/// `json_view_seq` and `seq_view` agree.
pub proof fn lemma_view_seq_map(s: Seq<JsonValue>)
    ensures
        json_view_seq(s) == seq_view(s),
{
    lemma_view_seq(s);
    assert(json_view_seq(s) =~= seq_view(s));
}

/// The set of strings among a sequence of values.
pub open spec fn strs_of(a: Seq<JsonView>) -> Set<Seq<char>> {
    Set::new(|s: Seq<char>| exists|i: int| 0 <= i < a.len() && #[trigger] a[i].str_of() == Some(s))
}

/// Extending a sequence by one value adds that value's string, if it is one.
pub proof fn lemma_strs_of_push(a: Seq<JsonView>, v: JsonView)
    ensures
        strs_of(a.push(v)) == match v.str_of() {
            Some(s) => strs_of(a).insert(s),
            None => strs_of(a),
        },
{
    let b = a.push(v);
    assert forall|s: Seq<char>| strs_of(b).contains(s) <==> (match v.str_of() {
        Some(t) => strs_of(a).insert(t),
        None => strs_of(a),
    }).contains(s) by {
        if strs_of(b).contains(s) {
            let i = choose|i: int| 0 <= i < b.len() && #[trigger] b[i].str_of() == Some(s);
            if i < a.len() {
                assert(a[i] == b[i]);
            }
        }
        if strs_of(a).contains(s) {
            let i = choose|i: int| 0 <= i < a.len() && #[trigger] a[i].str_of() == Some(s);
            assert(b[i] == a[i]);
        }
        if v.str_of() == Some(s) {
            assert(b[a.len() as int] == v);
        }
    }
    assert(strs_of(b) =~= match v.str_of() {
        Some(t) => strs_of(a).insert(t),
        None => strs_of(a),
    });
}

impl JsonValue {
    /// A copy of this value.
    #[verifier::loop_isolation(false)]
    pub fn copy(&self) -> (r: JsonValue)
        ensures
            r@ == self@,
        decreases self,
    {
        match self {
            JsonValue::Null => JsonValue::Null,
            JsonValue::Bool(b) => JsonValue::Bool(*b),
            JsonValue::Int(i) => JsonValue::Int(*i),
            JsonValue::Number(s) => JsonValue::Number(s.clone()),
            JsonValue::Str(s) => JsonValue::Str(s.clone()),
            JsonValue::Array(items) => {
                let mut out: Vec<JsonValue> = Vec::new();
                let mut i: usize = 0;
                while i < items.len()
                    invariant
                        i <= items.len(),
                        out.len() == i,
                        forall|j: int| 0 <= j < i ==> #[trigger] out@[j]@ == items@[j]@,
                    decreases items.len() - i,
                {
                    assert(decreases_to!(*self => self->Array_0));
                    let c = items[i].copy();
                    out.push(c);
                    i = i + 1;
                }
                proof {
                    lemma_view_seq(out@);
                    lemma_view_seq(items@);
                    assert forall|k: int| 0 <= k < out.len() implies json_view_seq(out@)[k] == json_view_seq(items@)[k] by {
                        assert(out@[k]@ == items@[k]@);
                    }
                    assert(json_view_seq(out@) =~= json_view_seq(items@));
                }
                JsonValue::Array(out)
            },
            JsonValue::Object(entries) => {
                let mut out: Vec<(String, JsonValue)> = Vec::new();
                let mut i: usize = 0;
                while i < entries.len()
                    invariant
                        i <= entries.len(),
                        out.len() == i,
                        forall|j: int| 0 <= j < i ==> #[trigger] out@[j].0@ == entries@[j].0@ && out@[j].1@ == entries@[j].1@,
                    decreases entries.len() - i,
                {
                    assert(decreases_to!(*self => self->Object_0));
                    let k = entries[i].0.clone();
                    let c = entries[i].1.copy();
                    out.push((k, c));
                    i = i + 1;
                }
                proof {
                    lemma_view_entries(out@);
                    lemma_view_entries(entries@);
                    assert(json_view_entries(out@) =~= json_view_entries(entries@));
                }
                JsonValue::Object(out)
            },
        }
    }

    /// The string held by a `Str` value, `None` for every other value.
    pub fn as_str(&self) -> (r: Option<&String>)
        ensures
            match r {
                Some(s) => self@.str_of() == Some(s@),
                None => self@.str_of() is None,
            },
    {
        match self {
            JsonValue::Str(s) => Some(s),
            _ => None,
        }
    }

    /// The value under `key` when this is an object holding that key.
    #[verifier::loop_isolation(false)]
    pub fn get(&self, key: &str) -> (r: Option<&JsonValue>)
        ensures
            match r {
                Some(v) => self@.get(key@) == Some(v@),
                None => self@.get(key@) is None,
            },
    {
        match self {
            JsonValue::Object(entries) => {
                let ghost ev = json_view_entries(entries@);
                proof {
                    lemma_view_entries(entries@);
                }
                let mut i: usize = 0;
                assert(ev.skip(0) =~= ev);
                while i < entries.len()
                    invariant
                        i <= entries.len(),
                        ev == json_view_entries(entries@),
                        ev.len() == entries.len(),
                        forall|j: int| 0 <= j < entries.len() ==> #[trigger] ev[j] == (entries@[j].0@, json_view(entries@[j].1)),
                        entries_get(ev, key@) == entries_get(ev.skip(i as int), key@),
                    decreases entries.len() - i,
                {
                    assert(ev.skip(i as int).drop_first() =~= ev.skip(i + 1));
                    assert(ev.skip(i as int)[0] == ev[i as int]);
                    if str_eq(entries[i].0.as_str(), key) {
                        return Some(&entries[i].1);
                    }
                    i = i + 1;
                }
                None
            },
            _ => None,
        }
    }
}

/// Character-wise string equality.
pub fn str_eq(a: &str, b: &str) -> (r: bool)
    ensures
        r == (a@ == b@),
{
    let la = a.unicode_len();
    let lb = b.unicode_len();
    if la != lb {
        return false;
    }
    let mut i: usize = 0;
    while i < la
        invariant
            la == a@.len(),
            lb == b@.len(),
            la == lb,
            i <= la,
            forall|j: int| 0 <= j < i ==> a@[j] == b@[j],
        decreases la - i,
    {
        if a.get_char(i) != b.get_char(i) {
            return false;
        }
        i = i + 1;
    }
    assert(a@ =~= b@);
    true
}

/// Builds the overwrite marker `{"__overwrite__": value}`.
pub fn overwrite(value: JsonValue) -> (r: JsonValue)
    ensures
        r matches JsonValue::Object(e) && e@.len() == 1 && e@[0].0@ == OVERWRITE_KEY@ && e@[0].1 == value,
{
    JsonValue::Object(vec![(String::from_str(OVERWRITE_KEY), value)])
}

} // verus!
