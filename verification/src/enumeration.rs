//! Listing: what the ledger shows of its tokens, page by page.

use crate::assoc::{has_key, key_seq, lookup, Id};
use crate::ledger::{members, Contract, LedgerView};
use crate::token::{shown, JsonToken, JsonTokenView};
use vstd::prelude::*;

verus! {

/// Where a page starts in a listing of `len` items: at `from_index`, or at
/// the beginning when none is given; never beyond the end.
pub open spec fn page_start(len: nat, from_index: Option<u128>) -> int {
    match from_index {
        Some(f) => if f < len {
            f as int
        } else {
            len as int
        },
        None => 0,
    }
}

/// Where a page ends: `limit` items after its start, or at the end of the
/// listing when no limit is given; never beyond the end.
pub open spec fn page_end(len: nat, from_index: Option<u128>, limit: Option<u64>) -> int {
    match limit {
        Some(l) => if page_start(len, from_index) + l < len {
            page_start(len, from_index) + l
        } else {
            len as int
        },
        None => len as int,
    }
}

/// The page of `s` that starts at `from_index` and has at most `limit` items.
pub open spec fn page<A>(s: Seq<A>, from_index: Option<u128>, limit: Option<u64>) -> Seq<A> {
    s.subrange(page_start(s.len(), from_index), page_end(s.len(), from_index, limit))
}

/// The values of a list of shown tokens.
pub open spec fn views(tokens: Seq<JsonToken>) -> Seq<JsonTokenView> {
    Seq::new(tokens.len(), |i: int| tokens[i]@)
}

impl LedgerView {
    /// What is shown of the token `id`: nothing unless the ledger holds both
    /// its record and its metadata.
    pub open spec fn token_shown(self, id: Id) -> Option<JsonTokenView> {
        if has_key(self.tokens_by_id, id) && has_key(self.token_metadata_by_id, id) {
            Some(shown(id, self.token(id), lookup(self.token_metadata_by_id, id)->0))
        } else {
            None
        }
    }

    /// What is shown of the tokens `ids`, in their order; an identifier of
    /// which nothing is shown is passed over.
    pub open spec fn tokens_shown(self, ids: Seq<Id>) -> Seq<JsonTokenView>
        decreases ids.len(),
    {
        if ids.len() == 0 {
            Seq::empty()
        } else {
            match self.token_shown(ids.last()) {
                Some(j) => self.tokens_shown(ids.drop_last()).push(j),
                None => self.tokens_shown(ids.drop_last()),
            }
        }
    }
}

/// The bounds of a page as positions in a listing of `len` items.
fn page_bounds(len: usize, from_index: Option<u128>, limit: Option<u64>) -> (b: (usize, usize))
    ensures
        b.0 == page_start(len as nat, from_index),
        b.1 == page_end(len as nat, from_index, limit),
        b.0 <= b.1 <= len,
{
    let start: usize = match from_index {
        Some(f) => if f < len as u128 {
            f as usize
        } else {
            len
        },
        None => 0,
    };
    let end: usize = match limit {
        Some(l) => if (l as u128) < (len - start) as u128 {
            start + l as usize
        } else {
            len
        },
        None => len,
    };
    (start, end)
}

impl Contract {
    /// The number of tokens in the ledger.
    pub fn nft_total_supply(&self) -> (n: u128)
        ensures
            n == self@.token_metadata_by_id.len(),
    {
        self.token_metadata_by_id.len() as u128
    }

    /// What the ledger shows of the token `token_id`, if it knows it.
    pub fn nft_token(&self, token_id: &String) -> (r: Option<JsonToken>)
        requires
            self@.wf(),
        ensures
            match self@.token_shown(token_id@) {
                Some(j) => r is Some && r->0@ == j,
                None => r is None,
            },
    {
        match self.tokens_by_id.get(token_id) {
            Some(token) => match self.token_metadata_by_id.get(token_id) {
                Some(metadata) => Some(JsonToken::assemble(token_id, token, metadata)),
                None => None,
            },
            None => None,
        }
    }

    /// The tokens of the ledger in the order in which they were minted:
    /// the page that starts at `from_index` (the beginning, if none) and has
    /// at most `limit` tokens (all that follow, if none).
    pub fn nft_tokens(&self, from_index: Option<u128>, limit: Option<u64>) -> (r: Vec<JsonToken>)
        requires
            self@.wf(),
        ensures
            views(r@) == self@.tokens_shown(
                page(key_seq(self@.token_metadata_by_id), from_index, limit),
            ),
    {
        let ghost ids = key_seq(self@.token_metadata_by_id);
        let (start, end) = page_bounds(self.token_metadata_by_id.len(), from_index, limit);
        let mut out: Vec<JsonToken> = Vec::new();
        let mut k: usize = start;
        assert(views(out@) =~= self@.tokens_shown(ids.subrange(start as int, k as int)));
        while k < end
            invariant
                start <= k <= end <= ids.len(),
                ids == key_seq(self@.token_metadata_by_id),
                self@.wf(),
                views(out@) == self@.tokens_shown(ids.subrange(start as int, k as int)),
            decreases end - k,
        {
            let id = self.token_metadata_by_id.key_at(k);
            let ghost before = views(out@);
            proof {
                let next = ids.subrange(start as int, k + 1);
                assert(next.drop_last() =~= ids.subrange(start as int, k as int));
                assert(next.last() == id@);
            }
            match self.nft_token(id) {
                Some(j) => {
                    out.push(j);
                    assert(views(out@) =~= before.push(j@));
                },
                None => {},
            }
            k += 1;
        }
        out
    }

    /// The number of tokens that `account_id` owns.
    pub fn nft_supply_for_owner(&self, account_id: &String) -> (n: u128)
        requires
            self@.wf(),
        ensures
            n == members(self@.tokens_per_owner, account_id@).len(),
    {
        match self.tokens_per_owner.get(account_id) {
            Some(set) => set.len() as u128,
            None => 0,
        }
    }

    /// The tokens that `account_id` owns, in the order in which it got
    /// them: the page that starts at `from_index` (the beginning, if none)
    /// and has at most `limit` tokens (all that follow, if none).
    pub fn nft_tokens_for_owner(
        &self,
        account_id: &String,
        from_index: Option<u128>,
        limit: Option<u64>,
    ) -> (r: Vec<JsonToken>)
        requires
            self@.wf(),
        ensures
            views(r@) == self@.tokens_shown(
                page(members(self@.tokens_per_owner, account_id@), from_index, limit),
            ),
    {
        let ghost ids = members(self@.tokens_per_owner, account_id@);
        let mut out: Vec<JsonToken> = Vec::new();
        let set = match self.tokens_per_owner.get(account_id) {
            Some(set) => set,
            None => {
                assert(views(out@) =~= self@.tokens_shown(page(ids, from_index, limit)));
                return out;
            },
        };
        let (start, end) = page_bounds(set.len() as usize, from_index, limit);
        let mut k: usize = start;
        assert(views(out@) =~= self@.tokens_shown(ids.subrange(start as int, k as int)));
        while k < end
            invariant
                start <= k <= end <= ids.len(),
                ids == set@,
                self@.wf(),
                views(out@) == self@.tokens_shown(ids.subrange(start as int, k as int)),
            decreases end - k,
        {
            let id = set.get(k);
            let ghost before = views(out@);
            proof {
                let next = ids.subrange(start as int, k + 1);
                assert(next.drop_last() =~= ids.subrange(start as int, k as int));
                assert(next.last() == id@);
            }
            match self.nft_token(id) {
                Some(j) => {
                    out.push(j);
                    assert(views(out@) =~= before.push(j@));
                },
                None => {},
            }
            k += 1;
        }
        out
    }
}

} // verus!
