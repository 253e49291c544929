//! A map keyed by strings that remembers the order in which keys were first inserted.
//!
//! Channel values, channel versions and the checkpoint store are all string-keyed
//! maps. `StrMap` holds its keys and values in two parallel vectors; its view is a
//! `Map` from key text to the view of the value, and `keys_seq` gives the order in
//! which the keys are held.

use vstd::prelude::*;
use crate::json::str_eq;

verus! {

/// Values that can be copied with a proof that the copy has the same view.
pub trait Duplicate: View + Sized {
    fn duplicate(&self) -> (r: Self)
        ensures
            r@ == self@,
    ;
}

impl Duplicate for u64 {
    fn duplicate(&self) -> (r: Self) {
        *self
    }
}

impl Duplicate for () {
    fn duplicate(&self) -> (r: Self) {
        ()
    }
}

impl Duplicate for String {
    fn duplicate(&self) -> (r: Self) {
        self.clone()
    }
}

impl Duplicate for crate::json::JsonValue {
    fn duplicate(&self) -> (r: Self) {
        self.copy()
    }
}

/// A string-keyed map with insertion-ordered keys.
#[derive(Debug)]
pub struct StrMap<V> {
    keys: Vec<String>,
    vals: Vec<V>,
}

impl<V: View> View for StrMap<V> {
    type V = Map<Seq<char>, V::V>;

    closed spec fn view(&self) -> Map<Seq<char>, V::V> {
        Map::new(
            |k: Seq<char>| self.key_views().contains(k),
            |k: Seq<char>| self.vals@[self.key_views().index_of(k)]@,
        )
    }
}

impl<V> StrMap<V> {
    spec fn key_views(&self) -> Seq<Seq<char>> {
        self.keys@.map_values(|k: String| k@)
    }

    #[verifier::type_invariant]
    spec fn inv(&self) -> bool {
        &&& self.keys.len() == self.vals.len()
        &&& self.key_views().no_duplicates()
    }
}

impl<V: View> StrMap<V> {

    /// The keys, as text, in the order the map holds them.
    pub closed spec fn keys_seq(&self) -> Seq<Seq<char>> {
        self.key_views()
    }

    /// The view of the value held at position `i` of `keys_seq`.
    pub closed spec fn value_view_at(&self, i: int) -> V::V {
        self.vals@[i]@
    }

    /// The order of keys and the map agree: each key is held once, the map's keys
    /// are exactly those in `keys_seq`, and position `i` holds the value of key `i`.
    proof fn lemma_shape(&self)
        requires
            self.inv(),
        ensures
            self.keys_seq().no_duplicates(),
            forall|k: Seq<char>| #[trigger] self@.contains_key(k) <==> self.keys_seq().contains(k),
            forall|i: int| 0 <= i < self.keys_seq().len() ==> #[trigger] self@[self.keys_seq()[i]] == self.value_view_at(i),
            self@.dom().finite(),
            self@.dom().len() == self.keys_seq().len(),
    {
        let ks = self.key_views();
        assert forall|i: int| 0 <= i < ks.len() implies #[trigger] self@[ks[i]] == self.value_view_at(i) by {
            assert(ks.contains(ks[i]));
            let j = ks.index_of(ks[i]);
            assert(ks[j] == ks[i]);
            assert(j == i);
        }
        assert(self@.dom() =~= ks.to_set());
        ks.unique_seq_to_set();
    }

    /// An empty map.
    pub fn new() -> (r: Self)
        ensures
            r@ == Map::<Seq<char>, V::V>::empty(),
            r.keys_seq() == Seq::<Seq<char>>::empty(),
    {
        let r = StrMap { keys: Vec::new(), vals: Vec::new() };
        assert(r.key_views() =~= Seq::<Seq<char>>::empty());
        assert(r@ =~= Map::<Seq<char>, V::V>::empty());
        r
    }

    /// The number of keys.
    pub fn len(&self) -> (r: usize)
        ensures
            r == self.keys_seq().len(),
            r == self@.dom().len(),
            self.keys_seq().no_duplicates(),
            forall|k: Seq<char>| #[trigger] self@.contains_key(k) <==> self.keys_seq().contains(k),
            forall|i: int| 0 <= i < self.keys_seq().len() ==> #[trigger] self@[self.keys_seq()[i]] == self.value_view_at(i),
            self@.dom().finite(),
    {
        proof {
            use_type_invariant(self);
            self.lemma_shape();
        }
        self.keys.len()
    }

    /// The position of `key` in `keys_seq`, if the map holds it.
    pub fn index_of(&self, key: &str) -> (r: Option<usize>)
        ensures
            match r {
                Some(i) => i < self.keys_seq().len() && self.keys_seq()[i as int] == key@,
                None => !self@.contains_key(key@),
            },
            r is Some <==> self@.contains_key(key@),
    {
        proof {
            use_type_invariant(self);
        }
        let mut i: usize = 0;
        while i < self.keys.len()
            invariant
                i <= self.keys.len(),
                self.keys.len() == self.vals.len(),
                forall|j: int| 0 <= j < i ==> self.key_views()[j] != key@,
            decreases self.keys.len() - i,
        {
            if str_eq(self.keys[i].as_str(), key) {
                assert(self.key_views()[i as int] == key@);
                return Some(i);
            }
            i = i + 1;
        }
        None
    }

    /// The value of `key`, if the map holds it.
    pub fn get(&self, key: &str) -> (r: Option<&V>)
        ensures
            match r {
                Some(v) => self@.contains_key(key@) && self@[key@] == v@,
                None => !self@.contains_key(key@),
            },
    {
        proof {
            use_type_invariant(self);
            self.lemma_shape();
        }
        match self.index_of(key) {
            Some(i) => Some(&self.vals[i]),
            None => None,
        }
    }

    /// Whether the map holds `key`.
    pub fn contains_key(&self, key: &str) -> (r: bool)
        ensures
            r == self@.contains_key(key@),
    {
        self.index_of(key).is_some()
    }

    /// The key held at position `i`.
    pub fn key_at(&self, i: usize) -> (r: &String)
        requires
            i < self.keys_seq().len(),
        ensures
            r@ == self.keys_seq()[i as int],
    {
        proof {
            use_type_invariant(self);
        }
        &self.keys[i]
    }

    /// The value held at position `i`.
    pub fn value_at(&self, i: usize) -> (r: &V)
        requires
            i < self.keys_seq().len(),
        ensures
            r@ == self.value_view_at(i as int),
            r@ == self@[self.keys_seq()[i as int]],
    {
        proof {
            use_type_invariant(self);
            self.lemma_shape();
        }
        &self.vals[i]
    }

    /// Puts `value` at position `i` and returns the value that was there.
    pub fn replace_at(&mut self, i: usize, value: V) -> (r: V)
        requires
            i < old(self).keys_seq().len(),
        ensures
            r@ == old(self).value_view_at(i as int),
            r@ == old(self)@[old(self).keys_seq()[i as int]],
            final(self)@ == old(self)@.insert(old(self).keys_seq()[i as int], value@),
            final(self).keys_seq() == old(self).keys_seq(),
            forall|j: int| 0 <= j < old(self).keys_seq().len() && j != i ==> #[trigger] final(self).value_view_at(j) == old(self).value_view_at(j),
            final(self).value_view_at(i as int) == value@,
    {
        proof {
            use_type_invariant(&*self);
            self.lemma_shape();
        }
        let ghost old_map = self@;
        let ghost old_keys = self.key_views();
        let ghost key = old_keys[i as int];
        let mut whole = StrMap { keys: Vec::new(), vals: Vec::new() };
        proof {
            assert(whole.key_views() =~= Seq::<Seq<char>>::empty());
        }
        std::mem::swap(&mut whole, self);
        let StrMap { keys, mut vals } = whole;
        let r = vals.remove(i);
        vals.insert(i, value);
        let ghost nk = keys@.map_values(|k: String| k@);
        assert(nk == old_keys);
        *self = StrMap { keys, vals };
        proof {
            assert(self.key_views() == old_keys);
            assert forall|k: Seq<char>| #[trigger] self@.contains_key(k) == old_map.insert(key, value@).contains_key(k) by {
                if k == key {
                    assert(old_keys[i as int] == k);
                }
            }
            assert forall|k: Seq<char>| self@.contains_key(k) implies #[trigger] self@[k] == old_map.insert(key, value@)[k] by {
                let j = old_keys.index_of(k);
                if k == key {
                    assert(old_keys[i as int] == k);
                    assert(j == i);
                } else {
                    assert(old_keys[j] == k);
                    assert(j != i);
                    assert(self.vals@[j] == old(self).vals@[j]);
                }
            }
            assert(self@ =~= old_map.insert(key, value@));
            assert(old_map[key] == old(self).vals@[i as int]@) by {
                assert(old_keys.contains(key));
                let j = old_keys.index_of(key);
                assert(old_keys[j] == key);
            }
        }
        r
    }

    /// Sets `key` to `value`. A new key goes to the end of `keys_seq`; an existing
    /// key keeps its position.
    pub fn insert(&mut self, key: String, value: V)
        ensures
            final(self)@ == old(self)@.insert(key@, value@),
            old(self)@.contains_key(key@) ==> final(self).keys_seq() == old(self).keys_seq(),
            !old(self)@.contains_key(key@) ==> final(self).keys_seq() == old(self).keys_seq().push(key@),
    {
        proof {
            use_type_invariant(&*self);
            self.lemma_shape();
        }
        let ghost old_map = self@;
        let ghost old_keys = self.key_views();
        match self.index_of(key.as_str()) {
            Some(i) => {
                let mut whole = StrMap { keys: Vec::new(), vals: Vec::new() };
                proof {
                    assert(whole.key_views() =~= Seq::<Seq<char>>::empty());
                }
                std::mem::swap(&mut whole, self);
                let StrMap { mut keys, mut vals } = whole;
                vals.remove(i);
                vals.insert(i, value);
                let ghost nk = keys@.map_values(|k: String| k@);
                assert(nk == old_keys);
                *self = StrMap { keys, vals };
                proof {
                    assert(self.key_views() == old_keys);
                    assert forall|k: Seq<char>| #[trigger] self@.contains_key(k) == old_map.insert(key@, value@).contains_key(k) by {}
                    assert forall|k: Seq<char>| self@.contains_key(k) implies #[trigger] self@[k] == old_map.insert(key@, value@)[k] by {
                        let j = old_keys.index_of(k);
                        if k == key@ {
                            assert(old_keys[i as int] == k);
                            assert(j == i);
                        } else {
                            assert(old_keys[j] == k);
                            assert(j != i);
                            assert(self.vals@[j] == old(self).vals@[j]);
                        }
                    }
                    assert(self@ =~= old_map.insert(key@, value@));
                }
            },
            None => {
                let mut whole = StrMap { keys: Vec::new(), vals: Vec::new() };
                proof {
                    assert(whole.key_views() =~= Seq::<Seq<char>>::empty());
                }
                std::mem::swap(&mut whole, self);
                let StrMap { mut keys, mut vals } = whole;
                keys.push(key);
                vals.push(value);
                let ghost nk = keys@.map_values(|k: String| k@);
                assert(nk =~= old_keys.push(key@));
                assert(nk.no_duplicates()) by {
                    assert forall|a: int, b: int| 0 <= a < nk.len() && 0 <= b < nk.len() && a != b implies nk[a] != nk[b] by {
                        if a < old_keys.len() && b < old_keys.len() {
                        } else if a == old_keys.len() {
                            assert(old_keys.contains(nk[b]) ==> old_map.contains_key(nk[b]));
                            assert(nk[b] == old_keys[b]);
                        } else {
                            assert(nk[a] == old_keys[a]);
                        }
                    }
                }
                *self = StrMap { keys, vals };
                proof {
                    assert forall|k: Seq<char>| #[trigger] self@.contains_key(k) == old_map.insert(key@, value@).contains_key(k) by {
                        if old_keys.contains(k) {
                            let j = old_keys.index_of(k);
                            assert(nk[j] == k);
                        }
                        if nk.contains(k) && k != key@ {
                            let j = nk.index_of(k);
                            assert(j < old_keys.len());
                            assert(old_keys[j] == k);
                        }
                        if k == key@ {
                            assert(nk[old_keys.len() as int] == k);
                        }
                    }
                    assert forall|k: Seq<char>| self@.contains_key(k) implies #[trigger] self@[k] == old_map.insert(key@, value@)[k] by {
                        let j = nk.index_of(k);
                        if k == key@ {
                            assert(nk[old_keys.len() as int] == k);
                            assert(j == old_keys.len());
                        } else {
                            assert(j < old_keys.len());
                            let j0 = old_keys.index_of(k);
                            assert(old_keys[j] == k);
                            assert(old_keys.contains(k));
                            assert(old_keys[j0] == k);
                            assert(j0 == j);
                        }
                    }
                    assert(self@ =~= old_map.insert(key@, value@));
                }
            },
        }
    }
}

impl<V: View> StrMap<V> {
    /// Removes `key` and returns its value, if the map held it. The other keys
    /// keep their order.
    pub fn remove(&mut self, key: &str) -> (r: Option<V>)
        ensures
            final(self)@ == old(self)@.remove(key@),
            match r {
                Some(v) => old(self)@.contains_key(key@) && v@ == old(self)@[key@],
                None => !old(self)@.contains_key(key@),
            },
    {
        proof {
            use_type_invariant(&*self);
            self.lemma_shape();
        }
        let ghost old_map = self@;
        let ghost old_keys = self.key_views();
        match self.index_of(key) {
            None => {
                assert(self@ =~= old_map.remove(key@));
                None
            },
            Some(i) => {
                let mut whole = StrMap { keys: Vec::new(), vals: Vec::new() };
                proof {
                    assert(whole.key_views() =~= Seq::<Seq<char>>::empty());
                }
                std::mem::swap(&mut whole, self);
                let StrMap { mut keys, mut vals } = whole;
                let ghost vals0 = vals@;
                keys.remove(i);
                let r = vals.remove(i);
                let ghost nk = keys@.map_values(|k: String| k@);
                proof {
                    assert(nk =~= old_keys.remove(i as int));
                    assert forall|a: int, b: int| 0 <= a < nk.len() && 0 <= b < nk.len() && a != b implies nk[a] != nk[b] by {
                        let a0 = if a < i { a } else { a + 1 };
                        let b0 = if b < i { b } else { b + 1 };
                        assert(nk[a] == old_keys[a0]);
                        assert(nk[b] == old_keys[b0]);
                    }
                }
                *self = StrMap { keys, vals };
                proof {
                    assert(self.key_views() == nk);
                    assert forall|k: Seq<char>| #[trigger] self@.contains_key(k) == old_map.remove(key@).contains_key(k) by {
                        if nk.contains(k) {
                            let j = nk.index_of(k);
                            let j0 = if j < i { j } else { j + 1 };
                            assert(old_keys[j0] == k);
                            assert(j0 != i);
                            assert(old_keys.contains(k));
                        }
                        if old_keys.contains(k) && k != key@ {
                            let j0 = old_keys.index_of(k);
                            assert(j0 != i);
                            let j = if j0 < i { j0 } else { j0 - 1 };
                            assert(nk[j] == k);
                        }
                    }
                    assert forall|k: Seq<char>| self@.contains_key(k) implies #[trigger] self@[k] == old_map.remove(key@)[k] by {
                        let j = nk.index_of(k);
                        let j0 = if j < i { j } else { j + 1 };
                        assert(old_keys[j0] == k);
                        assert(old_map[k] == old(self).value_view_at(j0));
                        assert(self.vals@[j] == vals0[j0]);
                    }
                    assert(self@ =~= old_map.remove(key@));
                    assert(r@ == old(self).value_view_at(i as int));
                }
                Some(r)
            },
        }
    }
}

impl<V: Duplicate> StrMap<V> {
    /// A copy of the map with the same keys in the same order.
    pub fn copy_map(&self) -> (r: Self)
        ensures
            r@ == self@,
            r.keys_seq() == self.keys_seq(),
    {
        proof {
            use_type_invariant(self);
        }
        let mut keys: Vec<String> = Vec::new();
        let mut vals: Vec<V> = Vec::new();
        let mut i: usize = 0;
        while i < self.keys.len()
            invariant
                i <= self.keys.len(),
                self.keys.len() == self.vals.len(),
                keys.len() == i,
                vals.len() == i,
                forall|j: int| 0 <= j < i ==> #[trigger] keys@[j]@ == self.keys@[j]@,
                forall|j: int| 0 <= j < i ==> #[trigger] vals@[j]@ == self.vals@[j]@,
            decreases self.keys.len() - i,
        {
            keys.push(self.keys[i].clone());
            vals.push(self.vals[i].duplicate());
            i = i + 1;
        }
        assert(keys@.map_values(|k: String| k@) =~= self.key_views());
        let r = StrMap { keys, vals };
        proof {
            assert(r.key_views() =~= self.key_views());
            assert forall|k: Seq<char>| #[trigger] r@.contains_key(k) == self@.contains_key(k) by {}
            assert forall|k: Seq<char>| r@.contains_key(k) implies #[trigger] r@[k] == self@[k] by {
                let j = self.key_views().index_of(k);
                assert(r.vals@[j]@ == self.vals@[j]@);
            }
            assert(r@ =~= self@);
        }
        r
    }
}

impl<V: Duplicate> Duplicate for StrMap<V> {
    fn duplicate(&self) -> (r: Self) {
        self.copy_map()
    }
}

} // verus!
