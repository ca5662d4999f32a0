//! Decimal numerals and the identifiers of an artwork's shares.

use crate::assoc::Id;
use vstd::prelude::*;
use vstd::string::StringExecFns;

verus! {

/// The character that writes the digit `d`.
pub open spec fn digit_char(d: nat) -> char {
    if d == 0 {
        '0'
    } else if d == 1 {
        '1'
    } else if d == 2 {
        '2'
    } else if d == 3 {
        '3'
    } else if d == 4 {
        '4'
    } else if d == 5 {
        '5'
    } else if d == 6 {
        '6'
    } else if d == 7 {
        '7'
    } else if d == 8 {
        '8'
    } else {
        '9'
    }
}

/// The decimal numeral of `n`, without leading zeros.
pub open spec fn decimal(n: nat) -> Seq<char>
    decreases n,
{
    if n < 10 {
        seq![digit_char(n)]
    } else {
        decimal(n / 10).push(digit_char(n % 10))
    }
}

/// The character that parts an artwork's identifier from a share's numeral.
pub open spec fn separator() -> char {
    '#'
}

/// The identifier of share number `index` of the artwork `art`: the
/// artwork's identifier, the separator, and the share's decimal numeral.
/// Since no numeral holds the separator, the identifier splits at its last
/// separator into the artwork and the share, whatever the artwork is called.
pub open spec fn share_id(art: Id, index: nat) -> Id {
    art.push(separator()) + decimal(index)
}

/// The identifiers of the first `count` shares of `art`, in order.
pub open spec fn share_ids(art: Id, count: nat) -> Seq<Id> {
    Seq::new(count, |i: int| share_id(art, i as nat))
}

/// Different numbers have different numerals.
pub proof fn lemma_decimal_injective(a: nat, b: nat)
    requires
        decimal(a) == decimal(b),
    ensures
        a == b,
    decreases a,
{
    if a < 10 && b < 10 {
        assert(decimal(a)[0] == digit_char(a));
        assert(decimal(b)[0] == digit_char(b));
    } else if a < 10 {
        assert(decimal(b).len() == decimal(b / 10).len() + 1);
        lemma_decimal_nonempty(b / 10);
    } else if b < 10 {
        assert(decimal(a).len() == decimal(a / 10).len() + 1);
        lemma_decimal_nonempty(a / 10);
    } else {
        let x = decimal(a / 10);
        let y = decimal(b / 10);
        assert(decimal(a) == x.push(digit_char(a % 10)));
        assert(decimal(b) == y.push(digit_char(b % 10)));
        assert(x.push(digit_char(a % 10)).drop_last() =~= x);
        assert(y.push(digit_char(b % 10)).drop_last() =~= y);
        assert(x == y);
        assert(x.push(digit_char(a % 10)).last() == digit_char(a % 10));
        assert(y.push(digit_char(b % 10)).last() == digit_char(b % 10));
        assert(digit_char(a % 10) == digit_char(b % 10));
        assert(a % 10 == b % 10);
        lemma_decimal_injective(a / 10, b / 10);
        assert(a == 10 * (a / 10) + a % 10);
        assert(b == 10 * (b / 10) + b % 10);
    }
}

/// A numeral has at least one digit.
pub proof fn lemma_decimal_nonempty(n: nat)
    ensures
        decimal(n).len() >= 1,
    decreases n,
{
    if n >= 10 {
        lemma_decimal_nonempty(n / 10);
    }
}

/// A numeral holds digits only: the separator is none of its characters.
pub proof fn lemma_decimal_has_no_separator(n: nat, k: int)
    requires
        0 <= k < decimal(n).len(),
    ensures
        decimal(n)[k] != separator(),
    decreases n,
{
    if n >= 10 && k < decimal(n / 10).len() {
        lemma_decimal_has_no_separator(n / 10, k);
    }
}

/// A share's identifier names one artwork and one share: identifiers are
/// equal only where both the artworks and the share numbers are.
pub proof fn lemma_share_id_injective(a: Id, i: nat, b: Id, j: nat)
    requires
        share_id(a, i) == share_id(b, j),
    ensures
        a == b,
        i == j,
{
    let s = share_id(a, i);
    let t = share_id(b, j);
    assert(s.len() == a.len() + 1 + decimal(i).len());
    assert(t.len() == b.len() + 1 + decimal(j).len());
    assert(s[a.len() as int] == separator());
    assert(t[b.len() as int] == separator());
    if a.len() < b.len() {
        let k = b.len() - a.len() - 1;
        assert(s[b.len() as int] == decimal(i)[k]);
        lemma_decimal_has_no_separator(i, k);
    } else if b.len() < a.len() {
        let k = a.len() - b.len() - 1;
        assert(t[a.len() as int] == decimal(j)[k]);
        lemma_decimal_has_no_separator(j, k);
    }
    assert(a =~= s.subrange(0, a.len() as int));
    assert(b =~= t.subrange(0, b.len() as int));
    assert(decimal(i) =~= s.subrange(a.len() as int + 1, s.len() as int));
    assert(decimal(j) =~= t.subrange(b.len() as int + 1, t.len() as int));
    lemma_decimal_injective(i, j);
}

/// Different shares of one artwork have different identifiers.
pub proof fn lemma_share_ids_distinct(art: Id, i: nat, j: nat)
    requires
        i != j,
    ensures
        share_id(art, i) != share_id(art, j),
{
    if share_id(art, i) == share_id(art, j) {
        lemma_share_id_injective(art, i, art, j);
    }
}

/// The identifiers of an artwork's shares are pairwise different.
pub proof fn lemma_share_ids_no_duplicates(art: Id, count: nat)
    ensures
        share_ids(art, count).no_duplicates(),
{
    let s = share_ids(art, count);
    assert forall|i: int, j: int| 0 <= i < s.len() && 0 <= j < s.len() && i != j implies s[i]
        != s[j] by {
        lemma_share_ids_distinct(art, i as nat, j as nat);
    }
}

fn digit_str(d: u64) -> (s: &'static str)
    requires
        d < 10,
    ensures
        s@ == seq![digit_char(d as nat)],
{
    proof {
        reveal_strlit("0");
        reveal_strlit("1");
        reveal_strlit("2");
        reveal_strlit("3");
        reveal_strlit("4");
        reveal_strlit("5");
        reveal_strlit("6");
        reveal_strlit("7");
        reveal_strlit("8");
        reveal_strlit("9");
    }
    let s = if d == 0 {
        "0"
    } else if d == 1 {
        "1"
    } else if d == 2 {
        "2"
    } else if d == 3 {
        "3"
    } else if d == 4 {
        "4"
    } else if d == 5 {
        "5"
    } else if d == 6 {
        "6"
    } else if d == 7 {
        "7"
    } else if d == 8 {
        "8"
    } else {
        "9"
    };
    assert(s@ =~= seq![digit_char(d as nat)]);
    s
}

/// Writes `n` as a decimal numeral.
pub fn u64_to_decimal(n: u64) -> (s: String)
    ensures
        s@ == decimal(n as nat),
    decreases n,
{
    if n < 10 {
        String::from_str(digit_str(n))
    } else {
        let mut s = u64_to_decimal(n / 10);
        s.append(digit_str(n % 10));
        assert(s@ =~= decimal(n as nat));
        s
    }
}

/// The identifier of share number `index` of the artwork `art_id`.
pub fn share_token_id(art_id: &String, index: u64) -> (id: String)
    ensures
        id@ == share_id(art_id@, index as nat),
{
    proof {
        reveal_strlit("#");
    }
    let mut id = art_id.clone();
    id.append("#");
    let numeral = u64_to_decimal(index);
    id.append(numeral.as_str());
    assert(id@ =~= share_id(art_id@, index as nat));
    id
}

} // verus!
