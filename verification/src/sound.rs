//! Checking a ledger: whether a state that came from elsewhere (from storage,
//! say) is one that the operations can work on.

use crate::assoc::{has_key, lemma_found, pos, same_keys, Id};
use crate::decimal::{share_id, share_ids, share_token_id};
use crate::id_map::IdMap;
use crate::ledger::{members, sets_distinct, Contract};
use crate::token::{total_basis_points, Token, FULL_BASIS_POINTS, MAX_ROYALTY_RECIPIENTS};
use crate::token_set::TokenSet;
use vstd::prelude::*;

verus! {

impl Token {
    /// Whether the record is well formed.
    pub fn is_well_formed(&self) -> (b: bool)
        ensures
            b == self@.wf(),
    {
        if !self.approved_account_ids.keys_unique() || !self.royalty.keys_unique() {
            return false;
        }
        if self.royalty.len() > MAX_ROYALTY_RECIPIENTS {
            return false;
        }
        if total_basis_points(&self.royalty) > FULL_BASIS_POINTS as u128 {
            return false;
        }
        let mut i: usize = 0;
        while i < self.approved_account_ids.len()
            invariant
                i <= self@.approvals.len(),
                forall|a: int|
                    0 <= a < i ==> (#[trigger] self@.approvals[a]).1 < self.next_approval_id,
            decreases self@.approvals.len() - i,
        {
            if *self.approved_account_ids.value_at(i) >= self.next_approval_id {
                assert(!(self@.approvals[i as int].1 < self@.next_approval_id));
                return false;
            }
            i += 1;
        }
        true
    }
}

/// Whether every set of `index` holds each member once.
fn all_sets_distinct(index: &IdMap<TokenSet>) -> (b: bool)
    ensures
        b == sets_distinct(index@),
{
    let mut i: usize = 0;
    while i < index.len()
        invariant
            i <= index@.len(),
            forall|a: int| 0 <= a < i ==> (#[trigger] index@[a]).1.no_duplicates(),
        decreases index@.len() - i,
    {
        if !index.value_at(i).members_distinct() {
            assert(!index@[i as int].1.no_duplicates());
            return false;
        }
        i += 1;
    }
    true
}

impl Contract {
    /// Whether every collection holds each key once, every set each member
    /// once, and every token record is well formed.
    pub fn is_well_formed(&self) -> (b: bool)
        ensures
            b == self@.wf(),
    {
        if !self.art_by_id.keys_unique() || !self.tokens_per_art.keys_unique()
            || !self.tokens_per_owner.keys_unique() || !self.tokens_by_id.keys_unique()
            || !self.token_metadata_by_id.keys_unique() {
            return false;
        }
        if !all_sets_distinct(&self.tokens_per_art) || !all_sets_distinct(&self.tokens_per_owner) {
            return false;
        }
        let mut i: usize = 0;
        while i < self.tokens_by_id.len()
            invariant
                i <= self@.tokens_by_id.len(),
                forall|a: int| 0 <= a < i ==> (#[trigger] self@.tokens_by_id[a]).1.wf(),
            decreases self@.tokens_by_id.len() - i,
        {
            if !self.tokens_by_id.value_at(i).is_well_formed() {
                assert(!self@.tokens_by_id[i as int].1.wf());
                return false;
            }
            i += 1;
        }
        true
    }

    /// Whether the metadata store has the keys of the token store, in the
    /// same order.
    fn metadata_matches(&self) -> (b: bool)
        ensures
            b == same_keys(self@.token_metadata_by_id, self@.tokens_by_id),
    {
        if self.token_metadata_by_id.len() != self.tokens_by_id.len() {
            return false;
        }
        let mut i: usize = 0;
        while i < self.tokens_by_id.len()
            invariant
                i <= self@.tokens_by_id.len(),
                self@.token_metadata_by_id.len() == self@.tokens_by_id.len(),
                forall|a: int|
                    0 <= a < i ==> (#[trigger] self@.token_metadata_by_id[a]).0
                        == self@.tokens_by_id[a].0,
            decreases self@.tokens_by_id.len() - i,
        {
            if !(*self.token_metadata_by_id.key_at(i) == *self.tokens_by_id.key_at(i)) {
                assert(self@.token_metadata_by_id[i as int].0 != self@.tokens_by_id[i as int].0);
                return false;
            }
            i += 1;
        }
        true
    }

    /// Whether the ownership index agrees with the token records.
    fn owners_match(&self) -> (b: bool)
        requires
            self@.wf(),
        ensures
            b == self@.owners_consistent(),
    {
        let ghost s = self@;
        let mut i: usize = 0;
        while i < self.tokens_by_id.len()
            invariant
                i <= s.tokens_by_id.len(),
                s == self@,
                s.wf(),
                forall|a: int|
                    0 <= a < i ==> members(
                        s.tokens_per_owner,
                        (#[trigger] s.tokens_by_id[a]).1.owner_id,
                    ).contains(s.tokens_by_id[a].0),
            decreases s.tokens_by_id.len() - i,
        {
            let token_id = self.tokens_by_id.key_at(i);
            let token = self.tokens_by_id.value_at(i);
            let listed = match self.tokens_per_owner.get(&token.owner_id) {
                Some(set) => set.contains(token_id),
                None => false,
            };
            if !listed {
                proof {
                    lemma_found(s.tokens_by_id, token_id@, i as int);
                    assert(has_key(s.tokens_by_id, token_id@));
                    assert(s.owner_of(token_id@) == token@.owner_id);
                    assert(!members(s.tokens_per_owner, s.owner_of(token_id@)).contains(
                        token_id@,
                    ));
                }
                return false;
            }
            i += 1;
        }
        assert forall|id: Id| #[trigger] has_key(s.tokens_by_id, id) implies members(
            s.tokens_per_owner,
            s.owner_of(id),
        ).contains(id) by {
            let p = pos(s.tokens_by_id, id);
            lemma_found(s.tokens_by_id, id, p);
            assert(members(s.tokens_per_owner, s.tokens_by_id[p].1.owner_id).contains(
                s.tokens_by_id[p].0,
            ));
        }
        let mut j: usize = 0;
        while j < self.tokens_per_owner.len()
            invariant
                j <= s.tokens_per_owner.len(),
                s == self@,
                s.wf(),
                forall|a: int, c: int|
                    0 <= a < j && 0 <= c < s.tokens_per_owner[a].1.len() ==> has_key(
                        s.tokens_by_id,
                        #[trigger] s.tokens_per_owner[a].1[c],
                    ) && s.owner_of(s.tokens_per_owner[a].1[c]) == s.tokens_per_owner[a].0,
            decreases s.tokens_per_owner.len() - j,
        {
            let account = self.tokens_per_owner.key_at(j);
            let set = self.tokens_per_owner.value_at(j);
            let count = set.len() as usize;
            let mut k: usize = 0;
            while k < count
                invariant
                    k <= count,
                    count == set@.len(),
                    j < s.tokens_per_owner.len(),
                    s == self@,
                    s.wf(),
                    set@ == s.tokens_per_owner[j as int].1,
                    account@ == s.tokens_per_owner[j as int].0,
                    forall|c: int|
                        0 <= c < k ==> has_key(s.tokens_by_id, #[trigger] set@[c]) && s.owner_of(
                            set@[c],
                        ) == account@,
                decreases count - k,
            {
                let member = set.get(k);
                let owned = match self.tokens_by_id.get(member) {
                    Some(token) => token.owner_id == *account,
                    None => false,
                };
                if !owned {
                    proof {
                        lemma_found(s.tokens_per_owner, account@, j as int);
                        assert(set@[k as int] == member@);
                        assert(members(s.tokens_per_owner, account@).contains(member@));
                        assert(!(has_key(s.tokens_by_id, member@) && s.owner_of(member@)
                            == account@));
                    }
                    return false;
                }
                k += 1;
            }
            j += 1;
        }
        assert forall|a: Id, x: Id| #[trigger]
            members(s.tokens_per_owner, a).contains(x) implies has_key(s.tokens_by_id, x)
            && s.owner_of(x) == a by {
            if has_key(s.tokens_per_owner, a) {
                let p = pos(s.tokens_per_owner, a);
                lemma_found(s.tokens_per_owner, a, p);
                let c = s.tokens_per_owner[p].1.index_of(x);
                assert(s.tokens_per_owner[p].1[c] == x);
            }
        }
        true
    }

    /// Whether every artwork lists exactly its shares, and every share is a
    /// token.
    fn shares_match(&self) -> (b: bool)
        requires
            self@.wf(),
        ensures
            b == self@.shares_consistent(),
    {
        let ghost s = self@;
        if self.tokens_per_art.len() != self.art_by_id.len() {
            return false;
        }
        let mut i: usize = 0;
        while i < self.art_by_id.len()
            invariant
                i <= s.art_by_id.len(),
                s == self@,
                s.wf(),
                s.tokens_per_art.len() == s.art_by_id.len(),
                forall|a: int|
                    0 <= a < i ==> (#[trigger] s.tokens_per_art[a]).0 == s.art_by_id[a].0
                        && s.tokens_per_art[a].1 == share_ids(
                        s.art_by_id[a].0,
                        s.art_by_id[a].1.num_shares as nat,
                    ),
                forall|a: int, c: nat|
                    0 <= a < i && c < s.art_by_id[a].1.num_shares ==> has_key(
                        s.tokens_by_id,
                        #[trigger] share_id(s.art_by_id[a].0, c),
                    ),
            decreases s.art_by_id.len() - i,
        {
            let art_id = self.art_by_id.key_at(i);
            let shares = self.art_by_id.value_at(i).num_shares;
            let set = self.tokens_per_art.value_at(i);
            if !(*self.tokens_per_art.key_at(i) == *art_id) {
                assert(s.tokens_per_art[i as int].0 != s.art_by_id[i as int].0);
                return false;
            }
            if set.len() != shares {
                assert(s.tokens_per_art[i as int].1 != share_ids(
                    s.art_by_id[i as int].0,
                    s.art_by_id[i as int].1.num_shares as nat,
                ));
                return false;
            }
            let mut k: u64 = 0;
            while k < shares
                invariant
                    k <= shares,
                    i < s.art_by_id.len(),
                    s == self@,
                    s.wf(),
                    s.tokens_per_art.len() == s.art_by_id.len(),
                    art_id@ == s.art_by_id[i as int].0,
                    shares == s.art_by_id[i as int].1.num_shares,
                    set@ == s.tokens_per_art[i as int].1,
                    set@.len() == shares,
                    shares <= usize::MAX,
                    forall|c: nat|
                        c < k ==> set@[c as int] == #[trigger] share_id(art_id@, c) && has_key(
                            s.tokens_by_id,
                            share_id(art_id@, c),
                        ),
                decreases shares - k,
            {
                let expected = share_token_id(art_id, k);
                if !(*set.get(k as usize) == expected) {
                    assert(share_ids(art_id@, shares as nat)[k as int] == share_id(
                        art_id@,
                        k as nat,
                    ));
                    assert(s.tokens_per_art[i as int].1 != share_ids(
                        s.art_by_id[i as int].0,
                        s.art_by_id[i as int].1.num_shares as nat,
                    ));
                    return false;
                }
                if !self.tokens_by_id.contains_key(&expected) {
                    assert(!has_key(s.tokens_by_id, share_id(s.art_by_id[i as int].0, k as nat)));
                    return false;
                }
                k += 1;
            }
            assert(set@ =~= share_ids(art_id@, shares as nat));
            i += 1;
        }
        assert(same_keys(s.tokens_per_art, s.art_by_id));
        true
    }

    /// Whether the ledger is sound: well formed, and its collections in
    /// agreement with one another. Every operation keeps a sound ledger
    /// sound; this checks one that came from elsewhere.
    pub fn is_sound(&self) -> (b: bool)
        ensures
            b == self@.inv(),
    {
        self.is_well_formed() && self.metadata_matches() && self.owners_match()
            && self.shares_match()
    }
}

} // verus!
