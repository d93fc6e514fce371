//! Tables with records as keys.
//!
//! A key is a record of integers. It is stored as the tuple of those integers, whose order is
//! the lexicographic one, so that every lookup is a lookup in an ordinary ordered map.

use std::collections::BTreeMap;
use vstd::prelude::*;

verus! {

/// A record of integers that can be a key.
pub trait TableKey: Sized + Copy {
    /// The integers of the record.
    type Parts: Ord;

    /// The integers of the record.
    spec fn parts(self) -> Self::Parts;

    /// The record with the given integers.
    spec fn of_parts(parts: Self::Parts) -> Self;

    /// The integers of the record.
    fn to_parts(&self) -> (parts: Self::Parts)
        ensures
            parts == self.parts(),
    ;

    /// A record and its integers determine each other.
    proof fn parts_bijective()
        ensures
            forall|key: Self| Self::of_parts(#[trigger] key.parts()) == key,
            forall|parts: Self::Parts| (#[trigger] Self::of_parts(parts)).parts() == parts,
    ;

    /// The integers are ordered as an ordered map expects of its keys.
    proof fn parts_ordered()
        ensures
            vstd::laws_cmp::obeys_cmp::<Self::Parts>(),
    ;
}

/// A map from records to values.
#[derive(Debug)]
pub struct Table<K: TableKey, V> {
    map: BTreeMap<K::Parts, V>,
}

impl<K: TableKey, V> View for Table<K, V> {
    type V = Map<K, V>;

    closed spec fn view(&self) -> Map<K, V> {
        Map::new(
            |key: K| self.map@.contains_key(key.parts()),
            |key: K| self.map@[key.parts()],
        )
    }
}

impl<K: TableKey, V> Table<K, V> {
    /// The table that holds nothing.
    pub fn new() -> (table: Self)
        ensures
            table@ == Map::<K, V>::empty(),
    {
        let table = Table { map: BTreeMap::new() };
        assert(table@ =~= Map::<K, V>::empty());
        table
    }

    /// Binds `key` to `value`, in place of what it was bound to.
    pub fn insert(&mut self, key: K, value: V)
        ensures
            final(self)@ == old(self)@.insert(key, value),
    {
        proof {
            K::parts_ordered();
            K::parts_bijective();
        }
        self.map.insert(key.to_parts(), value);
        assert(self@ =~= old(self)@.insert(key, value)) by {
            assert forall|k: K| k.parts() == key.parts() implies k == key by {
                assert(K::of_parts(k.parts()) == k);
            }
        }
    }

    /// What `key` is bound to.
    pub fn get(&self, key: &K) -> (value: Option<&V>)
        ensures
            match value {
                Some(v) => self@.contains_key(*key) && self@[*key] == *v,
                None => !self@.contains_key(*key),
            },
    {
        proof {
            K::parts_ordered();
        }
        self.map.get(&key.to_parts())
    }

    /// Whether `key` is bound.
    pub fn contains_key(&self, key: &K) -> (bound: bool)
        ensures
            bound == self@.contains_key(*key),
    {
        proof {
            K::parts_ordered();
        }
        self.map.contains_key(&key.to_parts())
    }

    /// Unbinds `key`, and hands out what it was bound to.
    pub fn remove(&mut self, key: &K) -> (value: Option<V>)
        ensures
            final(self)@ == old(self)@.remove(*key),
            match value {
                Some(v) => old(self)@.contains_key(*key) && old(self)@[*key] == v,
                None => !old(self)@.contains_key(*key),
            },
    {
        proof {
            K::parts_ordered();
            K::parts_bijective();
        }
        let value = self.map.remove(&key.to_parts());
        assert(self@ =~= old(self)@.remove(*key)) by {
            assert forall|k: K| k.parts() == key.parts() implies k == *key by {
                assert(K::of_parts(k.parts()) == k);
            }
        }
        value
    }

    /// The number of keys that are bound.
    pub fn len(&self) -> (n: usize)
        ensures
            self@.dom().finite(),
            n == self@.dom().len(),
    {
        proof {
            K::parts_ordered();
            self.lemma_size();
        }
        self.map.len()
    }

    proof fn lemma_size(&self)
        ensures
            self@.dom().finite(),
            self@.dom().len() == self.map@.dom().len(),
    {
        K::parts_bijective();
        let stored = self.map@.dom();
        let f = |parts: K::Parts| K::of_parts(parts);
        assert(stored.finite());
        assert(self@.dom() =~= stored.map(f)) by {
            assert forall|k: K| self@.dom().contains(k) implies stored.map(f).contains(k) by {
                assert(f(k.parts()) == k);
            }
            assert forall|k: K| stored.map(f).contains(k) implies self@.dom().contains(k) by {
                let p = choose|p: K::Parts| stored.contains(p) && k == f(p);
                assert(K::of_parts(p).parts() == p);
            }
        }
        assert(vstd::relations::injective_on(f, stored)) by {
            assert forall|p: K::Parts, q: K::Parts|
                stored.contains(p) && stored.contains(q) && #[trigger] f(p) == #[trigger] f(
                    q,
                ) implies p == q by {
                assert(K::of_parts(p).parts() == p);
                assert(K::of_parts(q).parts() == q);
            }
        }
        vstd::set_lib::lemma_map_size(stored, self@.dom(), f);
    }
}

} // verus!
