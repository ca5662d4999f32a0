//! `IdMap`: an insertion-ordered map keyed by identifier strings.

use crate::assoc::{del, has_key, lemma_del, lemma_found, lemma_put, lookup, pos, put, unique, Id};
use vstd::prelude::*;

verus! {

/// A map from identifier strings to values that remembers the order in which
/// its keys were first inserted. Its view is an association sequence; every
/// operation keeps the keys unique.
#[derive(Debug, Clone, PartialEq, Eq)]
pub struct IdMap<V> {
    entries: Vec<(String, V)>,
}

impl<V: View> View for IdMap<V> {
    type V = Seq<(Id, V::V)>;

    closed spec fn view(&self) -> Seq<(Id, V::V)> {
        Seq::new(self.entries@.len(), |i: int| (self.entries@[i].0@, self.entries@[i].1@))
    }
}

impl<V: View> IdMap<V> {
    /// An empty map.
    pub fn new() -> (m: Self)
        ensures
            m@ == Seq::<(Id, V::V)>::empty(),
    {
        let m = IdMap { entries: Vec::new() };
        assert(m@ =~= Seq::<(Id, V::V)>::empty());
        m
    }

    /// The number of entries.
    pub fn len(&self) -> (n: usize)
        ensures
            n == self@.len(),
    {
        self.entries.len()
    }

    /// Whether the map has no entries.
    pub fn is_empty(&self) -> (b: bool)
        ensures
            b == (self@.len() == 0),
    {
        self.entries.len() == 0
    }

    /// The first position of `key`, if the map holds it.
    pub fn find(&self, key: &String) -> (r: Option<usize>)
        ensures
            match r {
                Some(i) => i < self@.len() && self@[i as int].0 == key@ && forall|j: int|
                    0 <= j < i ==> (#[trigger] self@[j]).0 != key@,
                None => !has_key(self@, key@),
            },
            unique(self@) ==> r == (if has_key(self@, key@) {
                Some(pos(self@, key@) as usize)
            } else {
                None
            }),
    {
        let mut i: usize = 0;
        while i < self.entries.len()
            invariant
                i <= self.entries@.len(),
                self@.len() == self.entries@.len(),
                forall|j: int| 0 <= j < i ==> (#[trigger] self@[j]).0 != key@,
            decreases self.entries@.len() - i,
        {
            if self.entries[i].0 == *key {
                proof {
                    if unique(self@) {
                        lemma_found(self@, key@, i as int);
                    }
                }
                return Some(i);
            }
            i += 1;
        }
        None
    }

    /// Whether the map holds `key`.
    pub fn contains_key(&self, key: &String) -> (b: bool)
        ensures
            b == has_key(self@, key@),
    {
        self.find(key).is_some()
    }

    /// The value stored under `key`, if any.
    pub fn get(&self, key: &String) -> (r: Option<&V>)
        requires
            unique(self@),
        ensures
            match r {
                Some(v) => lookup(self@, key@) == Some(v@),
                None => lookup(self@, key@) is None,
            },
    {
        match self.find(key) {
            Some(i) => {
                proof {
                    lemma_found(self@, key@, i as int);
                }
                Some(&self.entries[i].1)
            },
            None => None,
        }
    }

    /// The key at position `i`.
    pub fn key_at(&self, i: usize) -> (k: &String)
        requires
            i < self@.len(),
        ensures
            k@ == self@[i as int].0,
    {
        &self.entries[i].0
    }

    /// The value at position `i`.
    pub fn value_at(&self, i: usize) -> (v: &V)
        requires
            i < self@.len(),
        ensures
            v@ == self@[i as int].1,
    {
        &self.entries[i].1
    }

    /// Binds `key` to `value`. An existing entry keeps its place and its old
    /// value is returned; a new entry goes to the end.
    pub fn insert(&mut self, key: String, value: V) -> (previous: Option<V>)
        requires
            unique(old(self)@),
        ensures
            final(self)@ == put(old(self)@, key@, value@),
            unique(final(self)@),
            match previous {
                Some(v) => lookup(old(self)@, key@) == Some(v@),
                None => !has_key(old(self)@, key@),
            },
    {
        proof {
            lemma_put(self@, key@, value@, key@);
        }
        match self.find(&key) {
            Some(i) => {
                proof {
                    lemma_found(self@, key@, i as int);
                }
                let (_, previous) = self.entries.remove(i);
                self.entries.insert(i, (key, value));
                assert(self@ =~= put(old(self)@, key@, value@));
                Some(previous)
            },
            None => {
                self.entries.push((key, value));
                assert(self@ =~= put(old(self)@, key@, value@));
                None
            },
        }
    }

    /// Removes the entry for `key` and returns its value, if there was one.
    /// The other entries keep their order.
    pub fn remove(&mut self, key: &String) -> (removed: Option<V>)
        requires
            unique(old(self)@),
        ensures
            final(self)@ == del(old(self)@, key@),
            unique(final(self)@),
            match removed {
                Some(v) => lookup(old(self)@, key@) == Some(v@),
                None => !has_key(old(self)@, key@),
            },
    {
        proof {
            lemma_del(self@, key@, key@);
        }
        match self.find(key) {
            Some(i) => {
                proof {
                    lemma_found(self@, key@, i as int);
                }
                let (_, removed) = self.entries.remove(i);
                assert(self@ =~= del(old(self)@, key@));
                Some(removed)
            },
            None => None,
        }
    }

    /// Replaces the value at position `i`, keeping the key, and returns the
    /// old value.
    pub fn replace_at(&mut self, i: usize, value: V) -> (previous: V)
        requires
            i < old(self)@.len(),
        ensures
            final(self)@ == old(self)@.update(i as int, (old(self)@[i as int].0, value@)),
            previous@ == old(self)@[i as int].1,
            unique(old(self)@) ==> unique(final(self)@),
    {
        let (key, previous) = self.entries.remove(i);
        self.entries.insert(i, (key, value));
        assert(self@ =~= old(self)@.update(i as int, (old(self)@[i as int].0, value@)));
        proof {
            if unique(old(self)@) {
                assert forall|a: int, b: int| 0 <= a < b < self@.len() implies (#[trigger] self@[a]).0
                    != (#[trigger] self@[b]).0 by {
                    assert(old(self)@[a].0 != old(self)@[b].0);
                }
            }
        }
        previous
    }

    /// Whether no key occurs twice. Maps made by the operations of this
    /// type always have unique keys; this checks one that came from elsewhere.
    pub fn keys_unique(&self) -> (b: bool)
        ensures
            b == unique(self@),
    {
        let mut j: usize = 0;
        while j < self.entries.len()
            invariant
                j <= self.entries@.len(),
                self@.len() == self.entries@.len(),
                forall|a: int, c: int|
                    0 <= a < c < j ==> (#[trigger] self@[a]).0 != (#[trigger] self@[c]).0,
            decreases self.entries@.len() - j,
        {
            let mut i: usize = 0;
            while i < j
                invariant
                    i <= j < self.entries@.len(),
                    self@.len() == self.entries@.len(),
                    forall|a: int| 0 <= a < i ==> (#[trigger] self@[a]).0 != self@[j as int].0,
                decreases j - i,
            {
                if self.entries[i].0 == self.entries[j].0 {
                    assert(self@[i as int].0 == self@[j as int].0);
                    return false;
                }
                i += 1;
            }
            j += 1;
        }
        true
    }

    /// Removes every entry.
    pub fn clear(&mut self)
        ensures
            final(self)@ == Seq::<(Id, V::V)>::empty(),
    {
        self.entries.clear();
        assert(self@ =~= Seq::<(Id, V::V)>::empty());
    }
}

impl<V: View + Copy> IdMap<V> {
    /// A copy of the map, entry by entry.
    pub fn duplicate(&self) -> (m: Self)
        ensures
            m@ == self@,
    {
        let mut entries: Vec<(String, V)> = Vec::new();
        let mut i: usize = 0;
        while i < self.entries.len()
            invariant
                i <= self.entries@.len(),
                entries@.len() == i,
                forall|j: int|
                    0 <= j < i ==> (#[trigger] entries@[j]).0@ == self.entries@[j].0@ && entries@[j].1
                        == self.entries@[j].1,
            decreases self.entries@.len() - i,
        {
            let key = self.entries[i].0.clone();
            let value = self.entries[i].1;
            entries.push((key, value));
            i += 1;
        }
        let m = IdMap { entries };
        assert(m@ =~= self@);
        m
    }
}

} // verus!
