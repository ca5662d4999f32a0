//! `TokenSet`: an insertion-ordered set of token identifiers.

use crate::assoc::Id;
use vstd::prelude::*;

verus! {

/// `s` with `x` added at the end, unless `s` already holds it.
pub open spec fn with_id(s: Seq<Id>, x: Id) -> Seq<Id> {
    if s.contains(x) {
        s
    } else {
        s.push(x)
    }
}

/// `s` without `x`; the other members keep their order.
pub open spec fn without_id(s: Seq<Id>, x: Id) -> Seq<Id> {
    if s.contains(x) {
        s.remove(s.index_of(x))
    } else {
        s
    }
}

/// Adding a member keeps the members distinct, and tells who is a member.
pub proof fn lemma_with_id(s: Seq<Id>, x: Id, y: Id)
    requires
        s.no_duplicates(),
    ensures
        with_id(s, x).no_duplicates(),
        with_id(s, x).contains(y) == (y == x || s.contains(y)),
{
    let t = with_id(s, x);
    if s.contains(x) {
    } else {
        assert(t[s.len() as int] == x);
        assert forall|i: int, j: int| 0 <= i < t.len() && 0 <= j < t.len() && i != j implies t[i]
            != t[j] by {
            if i < s.len() {
                assert(s.contains(t[i]));
            }
            if j < s.len() {
                assert(s.contains(t[j]));
            }
        }
        if s.contains(y) {
            let i = s.index_of(y);
            assert(t[i] == y);
        }
        if t.contains(y) && y != x {
            let i = t.index_of(y);
            assert(s[i] == y);
        }
    }
}

/// Removing a member keeps the members distinct, and tells who is a member.
pub proof fn lemma_without_id(s: Seq<Id>, x: Id, y: Id)
    requires
        s.no_duplicates(),
    ensures
        without_id(s, x).no_duplicates(),
        without_id(s, x).contains(y) == (y != x && s.contains(y)),
        s.contains(x) ==> without_id(s, x).len() == s.len() - 1,
{
    let t = without_id(s, x);
    if s.contains(x) {
        let at = s.index_of(x);
        assert(s[at] == x);
        assert forall|i: int| 0 <= i < t.len() implies #[trigger] t[i] == s[if i < at {
            i
        } else {
            i + 1
        }] by {}
        assert forall|i: int, j: int| 0 <= i < t.len() && 0 <= j < t.len() && i != j implies t[i]
            != t[j] by {
            let a = if i < at { i } else { i + 1 };
            let b = if j < at { j } else { j + 1 };
            assert(t[i] == s[a] && t[j] == s[b]);
        }
        if t.contains(y) {
            let i = t.index_of(y);
            let a = if i < at { i } else { i + 1 };
            assert(t[i] == s[a]);
            assert(s.contains(y));
            assert(a != at);
        }
        if s.contains(y) && y != x {
            let i = s.index_of(y);
            let a = if i < at { i } else { i - 1 };
            assert(t[a] == s[i]);
        }
    }
}

/// A set of token identifiers that remembers the order in which they were
/// added. Its view is the sequence of members; every operation keeps them
/// distinct.
#[derive(Debug, Clone, PartialEq, Eq)]
pub struct TokenSet {
    items: Vec<String>,
}

impl View for TokenSet {
    type V = Seq<Id>;

    closed spec fn view(&self) -> Seq<Id> {
        Seq::new(self.items@.len(), |i: int| self.items@[i]@)
    }
}

impl TokenSet {
    /// An empty set.
    pub fn new() -> (s: Self)
        ensures
            s@ == Seq::<Id>::empty(),
    {
        let s = TokenSet { items: Vec::new() };
        assert(s@ =~= Seq::<Id>::empty());
        s
    }

    /// The number of members.
    pub fn len(&self) -> (n: u64)
        ensures
            n == self@.len(),
            n <= usize::MAX,
    {
        self.items.len() as u64
    }

    /// Whether the set has no members.
    pub fn is_empty(&self) -> (b: bool)
        ensures
            b == (self@.len() == 0),
    {
        self.items.len() == 0
    }

    /// The first position of `id` among the members, if it is one.
    pub fn find(&self, id: &String) -> (r: Option<usize>)
        ensures
            match r {
                Some(i) => i < self@.len() && self@[i as int] == id@ && forall|j: int|
                    0 <= j < i ==> self@[j] != id@,
                None => !self@.contains(id@),
            },
    {
        let mut i: usize = 0;
        while i < self.items.len()
            invariant
                i <= self.items@.len(),
                self@.len() == self.items@.len(),
                forall|j: int| 0 <= j < i ==> self@[j] != id@,
            decreases self.items@.len() - i,
        {
            if self.items[i] == *id {
                return Some(i);
            }
            i += 1;
        }
        None
    }

    /// Whether `id` is a member.
    pub fn contains(&self, id: &String) -> (b: bool)
        ensures
            b == self@.contains(id@),
    {
        self.find(id).is_some()
    }

    /// The member at position `i`.
    pub fn get(&self, i: usize) -> (id: &String)
        requires
            i < self@.len(),
        ensures
            id@ == self@[i as int],
    {
        &self.items[i]
    }

    /// Whether no member occurs twice. Sets made by the operations of this
    /// type always have distinct members; this checks one that came from
    /// elsewhere.
    pub fn members_distinct(&self) -> (b: bool)
        ensures
            b == self@.no_duplicates(),
    {
        let mut j: usize = 0;
        while j < self.items.len()
            invariant
                j <= self.items@.len(),
                self@.len() == self.items@.len(),
                forall|a: int, c: int| 0 <= a < c < j ==> self@[a] != self@[c],
            decreases self.items@.len() - j,
        {
            let mut i: usize = 0;
            while i < j
                invariant
                    i <= j < self.items@.len(),
                    self@.len() == self.items@.len(),
                    forall|a: int| 0 <= a < i ==> self@[a] != self@[j as int],
                decreases j - i,
            {
                if self.items[i] == self.items[j] {
                    assert(self@[i as int] == self@[j as int]);
                    return false;
                }
                i += 1;
            }
            j += 1;
        }
        assert forall|a: int, c: int|
            0 <= a < self@.len() && 0 <= c < self@.len() && a != c implies self@[a] != self@[c] by {
            if a < c {
                assert(self@[a] != self@[c]);
            } else {
                assert(self@[c] != self@[a]);
            }
        }
        true
    }

    /// Adds `id` at the end unless it is already a member; says whether it
    /// was added.
    pub fn insert(&mut self, id: String) -> (added: bool)
        requires
            old(self)@.no_duplicates(),
        ensures
            final(self)@ == with_id(old(self)@, id@),
            final(self)@.no_duplicates(),
            added == !old(self)@.contains(id@),
    {
        proof {
            lemma_with_id(self@, id@, id@);
        }
        if self.contains(&id) {
            false
        } else {
            self.items.push(id);
            assert(self@ =~= with_id(old(self)@, id@));
            true
        }
    }

    /// Removes `id` if it is a member; says whether it was. The other
    /// members keep their order.
    pub fn remove(&mut self, id: &String) -> (removed: bool)
        requires
            old(self)@.no_duplicates(),
        ensures
            final(self)@ == without_id(old(self)@, id@),
            final(self)@.no_duplicates(),
            removed == old(self)@.contains(id@),
    {
        proof {
            lemma_without_id(self@, id@, id@);
        }
        match self.find(id) {
            Some(i) => {
                assert(self@.index_of(id@) == i) by {
                    let p = self@.index_of(id@);
                    assert(self@[p] == id@);
                }
                self.items.remove(i);
                assert(self@ =~= without_id(old(self)@, id@));
                true
            },
            None => false,
        }
    }
}

} // verus!
