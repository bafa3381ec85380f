//! A small insertion-ordered map with exact `Map` semantics.
//!
//! The library keys its caches by record type (`TypeId`), by record id, and by
//! pairs of these. `KeyMap` stores the entries in a `Vec` with the invariant that
//! no key occurs twice, and exposes them as a mathematical `Map`.
use std::any::TypeId;
use vstd::prelude::*;

verus! {

/// Makes `std::any::TypeId` usable in signatures and fields; the type is
/// opaque here and compared only through the specification below.
#[verifier::external_type_specification]
#[verifier::external_body]
pub struct ExTypeId(TypeId);

/// `std::any::TypeId`'s `==`: the documentation defines a `TypeId` as a globally
/// unique identifier of a type, so two `TypeId`s compare equal exactly when they
/// are the same value. This is trusted, not proved.
pub assume_specification[ <TypeId as PartialEq>::eq ](a: &TypeId, b: &TypeId) -> (r: bool)
    ensures
        r == (*a == *b),
;

/// A map key with an executable equality that agrees with `==` in specs.
pub trait Key: Sized {
    fn same(&self, other: &Self) -> (r: bool)
        ensures
            r == (*self == *other),
    ;
}

impl Key for TypeId {
    fn same(&self, other: &Self) -> (r: bool) {
        *self == *other
    }
}

impl Key for i32 {
    fn same(&self, other: &Self) -> (r: bool) {
        *self == *other
    }
}

impl<A: Key, B: Key> Key for (A, B) {
    fn same(&self, other: &Self) -> (r: bool) {
        self.0.same(&other.0) && self.1.same(&other.1)
    }
}

/// Keys of `s` are pairwise distinct.
pub open spec fn keys_distinct<K, V>(s: Seq<(K, V)>) -> bool {
    forall|i: int, j: int| 0 <= i < j < s.len() ==> (#[trigger] s[i]).0 != (#[trigger] s[j]).0
}

/// The map whose entries are the pairs of `s`.
pub open spec fn seq_map<K, V>(s: Seq<(K, V)>) -> Map<K, V> {
    Map::new(
        |k: K| exists|i: int| 0 <= i < s.len() && s[i].0 == k,
        |k: K| s[choose|i: int| 0 <= i < s.len() && s[i].0 == k].1,
    )
}

pub proof fn lemma_seq_map_at<K, V>(s: Seq<(K, V)>, i: int)
    requires
        keys_distinct(s),
        0 <= i < s.len(),
    ensures
        seq_map(s).contains_key(s[i].0),
        seq_map(s)[s[i].0] == s[i].1,
{
    let k = s[i].0;
    assert(exists|j: int| 0 <= j < s.len() && s[j].0 == k);
    let j = choose|j: int| 0 <= j < s.len() && s[j].0 == k;
    if j < i {
        assert(s[j].0 != s[i].0);
    } else if i < j {
        assert(s[i].0 != s[j].0);
    }
}

pub proof fn lemma_seq_map_has<K, V>(s: Seq<(K, V)>, k: K)
    requires
        keys_distinct(s),
        seq_map(s).contains_key(k),
    ensures
        exists|i: int| 0 <= i < s.len() && s[i].0 == k && seq_map(s)[k] == s[i].1,
{
    let i = choose|i: int| 0 <= i < s.len() && s[i].0 == k;
    lemma_seq_map_at(s, i);
}

/// An insertion-ordered map whose keys are pairwise distinct.
pub struct KeyMap<K, V> {
    entries: Vec<(K, V)>,
}

impl<K, V> KeyMap<K, V> {
    #[verifier::type_invariant]
    closed spec fn inv(&self) -> bool {
        keys_distinct(self.entries@)
    }

    /// The entries, in insertion order.
    pub closed spec fn entries_view(&self) -> Seq<(K, V)> {
        self.entries@
    }
}

impl<K, V> View for KeyMap<K, V> {
    type V = Map<K, V>;

    closed spec fn view(&self) -> Map<K, V> {
        seq_map(self.entries@)
    }
}

impl<K: Key, V> KeyMap<K, V> {
    /// An empty map.
    pub fn new() -> (r: Self)
        ensures
            r@ == Map::<K, V>::empty(),
    {
        let r = KeyMap { entries: Vec::new() };
        assert(r@ =~= Map::<K, V>::empty());
        r
    }

    /// The entries in insertion order: exactly the map's key/value pairs, each
    /// key once.
    pub fn entries(&self) -> (r: &[(K, V)])
        ensures
            r@ == self.entries_view(),
            keys_distinct(r@),
            self@ == seq_map(r@),
    {
        proof {
            use_type_invariant(self);
        }
        self.entries.as_slice()
    }

    fn position(&self, k: &K) -> (r: Option<usize>)
        ensures
            r matches Some(i) ==> i < self.entries@.len() && self.entries@[i as int].0 == *k
                && self@.contains_key(*k) && self@[*k] == self.entries@[i as int].1,
            r is None ==> !self@.contains_key(*k),
    {
        proof {
            use_type_invariant(self);
        }
        let mut i: usize = 0;
        while i < self.entries.len()
            invariant
                i <= self.entries@.len(),
                keys_distinct(self.entries@),
                forall|j: int| 0 <= j < i ==> self.entries@[j].0 != *k,
            decreases self.entries@.len() - i,
        {
            if self.entries[i].0.same(k) {
                proof {
                    lemma_seq_map_at(self.entries@, i as int);
                }
                return Some(i);
            }
            i = i + 1;
        }
        None
    }

    /// The number of entries.
    pub fn len(&self) -> (r: usize)
        ensures
            r == self.entries_view().len(),
    {
        self.entries.len()
    }

    /// Whether the map has no entries.
    pub fn is_empty(&self) -> (r: bool)
        ensures
            r == (self@ == Map::<K, V>::empty()),
    {
        proof {
            use_type_invariant(self);
            if self.entries@.len() > 0 {
                lemma_seq_map_at(self.entries@, 0);
                assert(!(self@ =~= Map::<K, V>::empty()));
            } else {
                assert(self@ =~= Map::<K, V>::empty());
            }
        }
        self.entries.len() == 0
    }

    /// The value stored under `k`, if any.
    pub fn get(&self, k: &K) -> (r: Option<&V>)
        ensures
            r matches Some(v) ==> self@.contains_key(*k) && self@[*k] == *v,
            r is None ==> !self@.contains_key(*k),
    {
        match self.position(k) {
            Some(i) => Some(&self.entries[i].1),
            None => None,
        }
    }

    /// Whether `k` has a value.
    pub fn contains_key(&self, k: &K) -> (r: bool)
        ensures
            r == self@.contains_key(*k),
    {
        self.position(k).is_some()
    }

    /// Stores `v` under `k`, replacing any earlier value.
    pub fn insert(&mut self, k: K, v: V)
        ensures
            final(self)@ == old(self)@.insert(k, v),
    {
        proof {
            use_type_invariant(&*self);
        }
        let ghost old_entries = self.entries@;
        let ghost old_map = self@;
        let pos = self.position(&k);
        let mut entries = Vec::new();
        std::mem::swap(&mut entries, &mut self.entries);
        match pos {
            Some(i) => {
                entries.set(i, (k, v));
            },
            None => {
                entries.push((k, v));
            },
        }
        proof {
            assert forall|a: int, b: int|
                0 <= a < b < entries@.len() implies (#[trigger] entries@[a]).0
                != (#[trigger] entries@[b]).0 by {
                if b < old_entries.len() {
                    assert(old_entries[a].0 != old_entries[b].0);
                }
            }
            let m = seq_map(entries@);
            assert forall|key: K| #[trigger] m.contains_key(key) == old_map.insert(
                k,
                v,
            ).contains_key(key) by {
                if old_map.contains_key(key) {
                    lemma_seq_map_has(old_entries, key);
                    let j = choose|j: int|
                        0 <= j < old_entries.len() && old_entries[j].0 == key && old_map[key]
                            == old_entries[j].1;
                    assert(entries@[j].0 == key);
                }
                if m.contains_key(key) && key != k {
                    let j = choose|j: int| 0 <= j < entries@.len() && entries@[j].0 == key;
                    assert(old_entries[j].0 == key);
                }
                if key == k {
                    if let Some(i) = pos {
                        assert(entries@[i as int].0 == k);
                    } else {
                        assert(entries@[old_entries.len() as int].0 == k);
                    }
                }
            }
            assert forall|key: K| #[trigger] m.contains_key(key) implies m[key] == old_map.insert(
                k,
                v,
            )[key] by {
                lemma_seq_map_has(entries@, key);
                let j = choose|j: int|
                    0 <= j < entries@.len() && entries@[j].0 == key && m[key] == entries@[j].1;
                if key != k {
                    assert(old_entries[j].0 == key);
                    lemma_seq_map_at(old_entries, j);
                }
            }
            assert(m =~= old_map.insert(k, v));
        }
        self.entries = entries;
    }
}

pub proof fn lemma_seq_map_remove<K, V>(s: Seq<(K, V)>, i: int)
    requires
        keys_distinct(s),
        0 <= i < s.len(),
    ensures
        keys_distinct(s.remove(i)),
        seq_map(s.remove(i)) == seq_map(s).remove(s[i].0),
{
    let r = s.remove(i);
    assert forall|a: int, b: int| 0 <= a < b < r.len() implies (#[trigger] r[a]).0
        != (#[trigger] r[b]).0 by {
        let a2 = if a < i { a } else { a + 1 };
        let b2 = if b < i { b } else { b + 1 };
        assert(s[a2].0 != s[b2].0);
    }
    let m = seq_map(r);
    let om = seq_map(s).remove(s[i].0);
    assert forall|k: K| #[trigger] m.contains_key(k) == om.contains_key(k) by {
        if m.contains_key(k) {
            let j = choose|j: int| 0 <= j < r.len() && r[j].0 == k;
            let j2 = if j < i { j } else { j + 1 };
            assert(s[j2].0 == k);
            if j2 < i {
                assert(s[j2].0 != s[i].0);
            } else {
                assert(s[i].0 != s[j2].0);
            }
        }
        if om.contains_key(k) {
            let j = choose|j: int| 0 <= j < s.len() && s[j].0 == k;
            assert(j != i);
            let j2 = if j < i { j } else { j - 1 };
            assert(r[j2].0 == k);
        }
    }
    assert forall|k: K| #[trigger] m.contains_key(k) implies m[k] == om[k] by {
        lemma_seq_map_has(r, k);
        let j = choose|j: int| 0 <= j < r.len() && r[j].0 == k && m[k] == r[j].1;
        let j2 = if j < i { j } else { j + 1 };
        lemma_seq_map_at(s, j2);
    }
    assert(m =~= om);
}

impl<K: Key, V> KeyMap<K, V> {
    fn remove_at(&mut self, i: usize) -> (r: (K, V))
        requires
            i < old(self).entries_view().len(),
        ensures
            r == old(self).entries_view()[i as int],
            final(self)@ == old(self)@.remove(r.0),
            final(self).entries_view() == old(self).entries_view().remove(i as int),
    {
        proof {
            use_type_invariant(&*self);
            lemma_seq_map_remove(self.entries@, i as int);
        }
        let mut entries = Vec::new();
        std::mem::swap(&mut entries, &mut self.entries);
        let r = entries.remove(i);
        self.entries = entries;
        r
    }

    /// Removes the value stored under `k`, returning it.
    pub fn remove(&mut self, k: &K) -> (r: Option<V>)
        ensures
            final(self)@ == old(self)@.remove(*k),
            r matches Some(v) ==> old(self)@.contains_key(*k) && old(self)@[*k] == v,
            r is None ==> !old(self)@.contains_key(*k),
    {
        match self.position(k) {
            Some(i) => {
                let (_, v) = self.remove_at(i);
                Some(v)
            },
            None => {
                assert(self@.remove(*k) =~= self@);
                None
            },
        }
    }
}

impl<A: Key, B: Key, V> KeyMap<(A, B), V> {
    fn position_of_group(&self, a: &A) -> (r: Option<usize>)
        ensures
            r matches Some(i) ==> i < self.entries_view().len() && self.entries_view()[i as int].0.0
                == *a,
            r is None ==> forall|k: (A, B)| #[trigger] self@.contains_key(k) ==> k.0 != *a,
    {
        let mut i: usize = 0;
        while i < self.entries.len()
            invariant
                i <= self.entries@.len(),
                forall|j: int| 0 <= j < i ==> self.entries@[j].0.0 != *a,
            decreases self.entries@.len() - i,
        {
            if self.entries[i].0.0.same(a) {
                return Some(i);
            }
            i = i + 1;
        }
        None
    }

    /// Removes every entry whose key has `a` as its first component.
    pub fn remove_group(&mut self, a: &A)
        ensures
            forall|k: (A, B)| #[trigger]
                final(self)@.contains_key(k) == (old(self)@.contains_key(k) && k.0 != *a),
            forall|k: (A, B)| #[trigger]
                final(self)@.contains_key(k) ==> final(self)@[k] == old(self)@[k],
    {
        let ghost old_map = self@;
        loop
            invariant
                forall|k: (A, B)| #[trigger]
                    self@.contains_key(k) ==> old_map.contains_key(k) && self@[k] == old_map[k],
                forall|k: (A, B)|
                    #[trigger] old_map.contains_key(k) && k.0 != *a ==> self@.contains_key(k),
            ensures
                forall|k: (A, B)| #[trigger]
                    self@.contains_key(k) ==> old_map.contains_key(k) && self@[k] == old_map[k]
                        && k.0 != *a,
                forall|k: (A, B)|
                    #[trigger] old_map.contains_key(k) && k.0 != *a ==> self@.contains_key(k),
            decreases self.entries_view().len(),
        {
            match self.position_of_group(a) {
                Some(i) => {
                    let ghost before = self@;
                    self.remove_at(i);
                },
                None => break,
            }
        }
    }
}

} // verus!
