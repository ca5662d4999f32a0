//! Association sequences: the mathematical model of every keyed collection
//! of the ledger. An association sequence is a sequence of key/value pairs
//! in insertion order; a well-formed one holds each key at most once.

use vstd::prelude::*;

verus! {

/// The mathematical value of an identifier: its characters.
pub type Id = Seq<char>;

/// The keys of `s`, in order.
pub open spec fn key_seq<W>(s: Seq<(Id, W)>) -> Seq<Id> {
    Seq::new(s.len(), |i: int| s[i].0)
}

/// Some entry of `s` has key `k`.
pub open spec fn has_key<W>(s: Seq<(Id, W)>, k: Id) -> bool {
    exists|i: int| 0 <= i < s.len() && (#[trigger] s[i]).0 == k
}

/// A position at which `s` holds key `k` (the only one when keys are unique).
pub open spec fn pos<W>(s: Seq<(Id, W)>, k: Id) -> int {
    choose|i: int| 0 <= i < s.len() && (#[trigger] s[i]).0 == k
}

/// The value stored under `k`, if any.
pub open spec fn lookup<W>(s: Seq<(Id, W)>, k: Id) -> Option<W> {
    if has_key(s, k) {
        Some(s[pos(s, k)].1)
    } else {
        None
    }
}

/// No key occurs twice.
pub open spec fn unique<W>(s: Seq<(Id, W)>) -> bool {
    forall|i: int, j: int|
        0 <= i < j < s.len() ==> (#[trigger] s[i]).0 != (#[trigger] s[j]).0
}

/// `s` with `k` bound to `w`: an existing entry keeps its place, a new one
/// goes to the end.
pub open spec fn put<W>(s: Seq<(Id, W)>, k: Id, w: W) -> Seq<(Id, W)> {
    if has_key(s, k) {
        s.update(pos(s, k), (k, w))
    } else {
        s.push((k, w))
    }
}

/// `s` without the entry for `k`; the other entries keep their order.
pub open spec fn del<W>(s: Seq<(Id, W)>, k: Id) -> Seq<(Id, W)> {
    if has_key(s, k) {
        s.remove(pos(s, k))
    } else {
        s
    }
}

/// With unique keys, an entry found at `i` is the one `pos` and `lookup` name.
pub proof fn lemma_found<W>(s: Seq<(Id, W)>, k: Id, i: int)
    requires
        unique(s),
        0 <= i < s.len(),
        s[i].0 == k,
    ensures
        has_key(s, k),
        pos(s, k) == i,
        lookup(s, k) == Some(s[i].1),
{
    let p = pos(s, k);
    assert(0 <= p < s.len() && s[p].0 == k);
    if p < i {
        assert(s[p].0 != s[i].0);
    } else if i < p {
        assert(s[i].0 != s[p].0);
    }
}

/// Binding a key keeps the keys unique and changes the lookup of that key only.
pub proof fn lemma_put<W>(s: Seq<(Id, W)>, k: Id, w: W, other: Id)
    requires
        unique(s),
    ensures
        unique(put(s, k, w)),
        has_key(put(s, k, w), k),
        lookup(put(s, k, w), k) == Some(w),
        other != k ==> has_key(put(s, k, w), other) == has_key(s, other),
        other != k ==> lookup(put(s, k, w), other) == lookup(s, other),
{
    let t = put(s, k, w);
    let at = if has_key(s, k) { pos(s, k) } else { s.len() as int };
    assert(0 <= at < t.len() && t[at] == (k, w));
    assert forall|i: int| 0 <= i < t.len() && i != at implies #[trigger] t[i] == s[i] by {}
    assert forall|i: int, j: int| 0 <= i < j < t.len() implies (#[trigger] t[i]).0 != (
    #[trigger] t[j]).0 by {
        if i == at {
            if has_key(s, k) {
                assert(s[at].0 != s[j].0);
            } else {
                assert(s[j].0 != k);
            }
        } else if j == at {
            if has_key(s, k) {
                assert(s[i].0 != s[at].0);
            } else {
                assert(s[i].0 != k);
            }
        } else {
            assert(s[i].0 != s[j].0);
        }
    }
    lemma_found(t, k, at);
    if other != k {
        if has_key(s, other) {
            let q = pos(s, other);
            assert(t[q] == s[q]);
            lemma_found(s, other, q);
            lemma_found(t, other, q);
        }
        if has_key(t, other) {
            let q = pos(t, other);
            assert(t[q] == s[q]);
            lemma_found(s, other, q);
        }
    }
}

/// Removing a key keeps the keys unique and changes the lookup of that key only.
pub proof fn lemma_del<W>(s: Seq<(Id, W)>, k: Id, other: Id)
    requires
        unique(s),
    ensures
        unique(del(s, k)),
        !has_key(del(s, k), k),
        lookup(del(s, k), k) is None,
        other != k ==> has_key(del(s, k), other) == has_key(s, other),
        other != k ==> lookup(del(s, k), other) == lookup(s, other),
{
    let t = del(s, k);
    if has_key(s, k) {
        let at = pos(s, k);
        lemma_found(s, k, at);
        assert forall|i: int| 0 <= i < t.len() implies #[trigger] t[i] == s[if i < at {
            i
        } else {
            i + 1
        }] by {}
        assert forall|i: int, j: int| 0 <= i < j < t.len() implies (#[trigger] t[i]).0 != (
        #[trigger] t[j]).0 by {
            let a = if i < at { i } else { i + 1 };
            let b = if j < at { j } else { j + 1 };
            assert(s[a].0 != s[b].0);
        }
        if has_key(t, k) {
            let q = pos(t, k);
            let a = if q < at { q } else { q + 1 };
            assert(t[q] == s[a]);
            if a < at {
                assert(s[a].0 != s[at].0);
            } else {
                assert(s[at].0 != s[a].0);
            }
        }
        if other != k {
            if has_key(s, other) {
                let q = pos(s, other);
                lemma_found(s, other, q);
                let a = if q < at { q } else { q - 1 };
                assert(t[a] == s[q]);
                lemma_found(t, other, a);
            }
            if has_key(t, other) {
                let q = pos(t, other);
                let a = if q < at { q } else { q + 1 };
                assert(t[q] == s[a]);
                lemma_found(s, other, a);
                lemma_found(t, other, q);
            }
        }
    }
}

/// Two association sequences with the same keys in the same order.
pub open spec fn same_keys<A, B>(a: Seq<(Id, A)>, b: Seq<(Id, B)>) -> bool {
    &&& a.len() == b.len()
    &&& forall|i: int| 0 <= i < a.len() ==> (#[trigger] a[i]).0 == b[i].0
}

/// Sequences with the same keys hold the same keys, at the same places.
pub proof fn lemma_same_keys<A, B>(a: Seq<(Id, A)>, b: Seq<(Id, B)>, k: Id)
    requires
        same_keys(a, b),
    ensures
        has_key(a, k) == has_key(b, k),
        unique(a) == unique(b),
        unique(a) && has_key(a, k) ==> pos(a, k) == pos(b, k),
{
    if has_key(a, k) {
        let i = pos(a, k);
        assert(b[i].0 == a[i].0);
    }
    if has_key(b, k) {
        let i = pos(b, k);
        assert(b[i].0 == a[i].0);
    }
    if unique(a) {
        assert forall|i: int, j: int| 0 <= i < j < b.len() implies (#[trigger] b[i]).0 != (
        #[trigger] b[j]).0 by {
            assert(a[i].0 != a[j].0);
        }
        if has_key(a, k) {
            let i = pos(a, k);
            assert(b[i].0 == a[i].0);
            lemma_found(b, k, i);
        }
    }
    if unique(b) {
        assert forall|i: int, j: int| 0 <= i < j < a.len() implies (#[trigger] a[i]).0 != (
        #[trigger] a[j]).0 by {
            assert(b[i].0 != b[j].0);
            assert(a[i].0 == b[i].0 && a[j].0 == b[j].0);
        }
    }
}

} // verus!
