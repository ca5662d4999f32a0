//! The ledger state and its mathematical model.
//!
//! The model, [`LedgerView`], is a record of association sequences. What the
//! operations do is written as functions from one model to the next; the
//! executable operations are proved to follow them.

use crate::assoc::{
    del, has_key, lemma_del, lemma_found, lemma_put, lemma_same_keys, lookup, pos, put,
    same_keys, unique, Id,
};
use crate::decimal::{share_id, share_ids};
use crate::error::LedgerError;
use crate::id_map::IdMap;
use crate::metadata::{Art, ArtView, TokenMetadata, TokenMetadataView};
use crate::token::{royalty_within_bounds, Token, TokenView};
use crate::token_set::{lemma_with_id, lemma_without_id, with_id, without_id, TokenSet};
use vstd::prelude::*;

verus! {

/// The ledger: artworks, their shares, the tokens, and who owns which.
#[derive(Debug, Clone, PartialEq, Eq)]
pub struct Contract {
    /// The account that administers the ledger.
    pub owner_id: String,
    /// Every registered artwork, by its identifier.
    pub art_by_id: IdMap<Art>,
    /// For every artwork, the tokens that were minted as its shares.
    pub tokens_per_art: IdMap<TokenSet>,
    /// For every account that owns tokens, the tokens it owns.
    pub tokens_per_owner: IdMap<TokenSet>,
    /// Every token record, by its identifier.
    pub tokens_by_id: IdMap<Token>,
    /// Every token's metadata, by the token's identifier.
    pub token_metadata_by_id: IdMap<TokenMetadata>,
}

/// The mathematical value of a [`Contract`].
pub struct LedgerView {
    pub owner_id: Id,
    pub art_by_id: Seq<(Id, ArtView)>,
    pub tokens_per_art: Seq<(Id, Seq<Id>)>,
    pub tokens_per_owner: Seq<(Id, Seq<Id>)>,
    pub tokens_by_id: Seq<(Id, TokenView)>,
    pub token_metadata_by_id: Seq<(Id, TokenMetadataView)>,
}

impl View for Contract {
    type V = LedgerView;

    open spec fn view(&self) -> LedgerView {
        LedgerView {
            owner_id: self.owner_id@,
            art_by_id: self.art_by_id@,
            tokens_per_art: self.tokens_per_art@,
            tokens_per_owner: self.tokens_per_owner@,
            tokens_by_id: self.tokens_by_id@,
            token_metadata_by_id: self.token_metadata_by_id@,
        }
    }
}

/// The members that `index` lists under `k`; none if it has no such entry.
pub open spec fn members(index: Seq<(Id, Seq<Id>)>, k: Id) -> Seq<Id> {
    match lookup(index, k) {
        Some(s) => s,
        None => Seq::empty(),
    }
}

/// Every listed set holds each member once.
pub open spec fn sets_distinct(index: Seq<(Id, Seq<Id>)>) -> bool {
    forall|i: int| 0 <= i < index.len() ==> (#[trigger] index[i]).1.no_duplicates()
}

/// `index` after `token` is listed under `account`.
pub open spec fn own_add(index: Seq<(Id, Seq<Id>)>, account: Id, token: Id) -> Seq<(Id, Seq<Id>)> {
    put(index, account, with_id(members(index, account), token))
}

/// `index` after `token` is no longer listed under `account`. An account
/// whose last token leaves loses its entry.
pub open spec fn own_remove(index: Seq<(Id, Seq<Id>)>, account: Id, token: Id) -> Seq<
    (Id, Seq<Id>),
> {
    if !has_key(index, account) {
        index
    } else if without_id(members(index, account), token).len() == 0 {
        del(index, account)
    } else {
        put(index, account, without_id(members(index, account), token))
    }
}

/// What listing a token under an account does to every membership.
pub proof fn lemma_own_add(index: Seq<(Id, Seq<Id>)>, account: Id, token: Id, a: Id, x: Id)
    requires
        unique(index),
        sets_distinct(index),
    ensures
        unique(own_add(index, account, token)),
        sets_distinct(own_add(index, account, token)),
        members(own_add(index, account, token), a).contains(x) == (members(index, a).contains(x)
            || (a == account && x == token)),
{
    let old_set = members(index, account);
    let new_set = with_id(old_set, token);
    lemma_members_distinct(index, account);
    lemma_with_id(old_set, token, x);
    lemma_put(index, account, new_set, a);
    lemma_put_sets_distinct(index, account, new_set);
}

/// What unlisting a token does to every membership.
pub proof fn lemma_own_remove(index: Seq<(Id, Seq<Id>)>, account: Id, token: Id, a: Id, x: Id)
    requires
        unique(index),
        sets_distinct(index),
    ensures
        unique(own_remove(index, account, token)),
        sets_distinct(own_remove(index, account, token)),
        members(own_remove(index, account, token), a).contains(x) == (members(index, a).contains(
            x,
        ) && !(a == account && x == token)),
{
    let old_set = members(index, account);
    let new_set = without_id(old_set, token);
    let r = own_remove(index, account, token);
    lemma_members_distinct(index, account);
    lemma_without_id(old_set, token, x);
    if !has_key(index, account) {
    } else if new_set.len() == 0 {
        lemma_del(index, account, a);
        let at = pos(index, account);
        assert forall|i: int| 0 <= i < r.len() implies (#[trigger] r[i]).1.no_duplicates() by {
            assert(r[i] == index[if i < at { i } else { i + 1 }]);
        }
        if new_set.contains(x) {
            assert(new_set.len() > 0);
        }
    } else {
        lemma_put(index, account, new_set, a);
        lemma_put_sets_distinct(index, account, new_set);
    }
}

/// The set listed under any key holds each member once.
pub proof fn lemma_members_distinct(index: Seq<(Id, Seq<Id>)>, k: Id)
    requires
        sets_distinct(index),
    ensures
        members(index, k).no_duplicates(),
{
    if has_key(index, k) {
        let i = pos(index, k);
        assert(index[i].1.no_duplicates());
    }
}

/// Binding a key to a duplicate-free set keeps every set duplicate-free.
pub proof fn lemma_put_sets_distinct(index: Seq<(Id, Seq<Id>)>, k: Id, set: Seq<Id>)
    requires
        sets_distinct(index),
        set.no_duplicates(),
    ensures
        sets_distinct(put(index, k, set)),
{
    let r = put(index, k, set);
    let at = if has_key(index, k) { pos(index, k) } else { index.len() as int };
    assert forall|i: int| 0 <= i < r.len() implies (#[trigger] r[i]).1.no_duplicates() by {
        if i != at {
            assert(r[i] == index[i]);
        }
    }
}

impl LedgerView {
    /// A ledger with nothing in it.
    pub open spec fn empty(owner_id: Id) -> LedgerView {
        LedgerView {
            owner_id,
            art_by_id: Seq::empty(),
            tokens_per_art: Seq::empty(),
            tokens_per_owner: Seq::empty(),
            tokens_by_id: Seq::empty(),
            token_metadata_by_id: Seq::empty(),
        }
    }

    /// The record of the token `id`.
    pub open spec fn token(self, id: Id) -> TokenView {
        lookup(self.tokens_by_id, id)->0
    }

    /// The owner of the token `id`.
    pub open spec fn owner_of(self, id: Id) -> Id {
        self.token(id).owner_id
    }

    /// Every collection holds each key once, every set each member once, and
    /// every token record is well formed.
    pub open spec fn wf(self) -> bool {
        &&& unique(self.art_by_id)
        &&& unique(self.tokens_per_art)
        &&& unique(self.tokens_per_owner)
        &&& unique(self.tokens_by_id)
        &&& unique(self.token_metadata_by_id)
        &&& sets_distinct(self.tokens_per_art)
        &&& sets_distinct(self.tokens_per_owner)
        &&& forall|i: int|
            0 <= i < self.tokens_by_id.len() ==> (#[trigger] self.tokens_by_id[i]).1.wf()
    }

    /// The ownership index agrees with the token records: a token is listed
    /// under exactly one account, and that account is its owner.
    pub open spec fn owners_consistent(self) -> bool {
        &&& forall|id: Id| #[trigger]
            has_key(self.tokens_by_id, id) ==> members(
                self.tokens_per_owner,
                self.owner_of(id),
            ).contains(id)
        &&& forall|a: Id, x: Id| #[trigger]
            members(self.tokens_per_owner, a).contains(x) ==> has_key(self.tokens_by_id, x)
                && self.owner_of(x) == a
    }

    /// Every artwork lists exactly its shares, and every share is a token.
    pub open spec fn shares_consistent(self) -> bool {
        &&& same_keys(self.tokens_per_art, self.art_by_id)
        &&& forall|i: int|
            0 <= i < self.art_by_id.len() ==> (#[trigger] self.tokens_per_art[i]).1 == share_ids(
                self.art_by_id[i].0,
                self.art_by_id[i].1.num_shares as nat,
            )
        &&& forall|i: int, k: nat|
            0 <= i < self.art_by_id.len() && k < self.art_by_id[i].1.num_shares ==> has_key(
                self.tokens_by_id,
                #[trigger] share_id(self.art_by_id[i].0, k),
            )
    }

    /// The collections agree with one another: every token has its metadata,
    /// its place in its owner's set, and every artwork its shares.
    pub open spec fn consistent(self) -> bool {
        &&& same_keys(self.token_metadata_by_id, self.tokens_by_id)
        &&& self.owners_consistent()
        &&& self.shares_consistent()
    }

    /// What the ledger maintains between operations.
    pub open spec fn inv(self) -> bool {
        self.wf() && self.consistent()
    }

    /// The ledger after `token` is listed under `account`.
    pub open spec fn listed(self, account: Id, token: Id) -> LedgerView {
        LedgerView { tokens_per_owner: own_add(self.tokens_per_owner, account, token), ..self }
    }

    /// The ledger after `token` is no longer listed under `account`.
    pub open spec fn unlisted(self, account: Id, token: Id) -> LedgerView {
        LedgerView { tokens_per_owner: own_remove(self.tokens_per_owner, account, token), ..self }
    }

    /// The ledger after the token `id` is minted for `owner`.
    pub open spec fn with_new_token(
        self,
        id: Id,
        owner: Id,
        royalty: Seq<(Id, u32)>,
        metadata: TokenMetadataView,
    ) -> LedgerView {
        LedgerView {
            tokens_by_id: put(self.tokens_by_id, id, TokenView::minted(owner, royalty)),
            token_metadata_by_id: put(self.token_metadata_by_id, id, metadata),
            tokens_per_owner: own_add(self.tokens_per_owner, owner, id),
            ..self
        }
    }

    /// The ledger after the record of the token `id` is replaced by `token`.
    pub open spec fn with_token(self, id: Id, token: TokenView) -> LedgerView {
        LedgerView { tokens_by_id: put(self.tokens_by_id, id, token), ..self }
    }
}

/// Minting a token that the ledger does not know keeps the ledger sound,
/// adds that token and no other, and leaves the other records as they were.
pub proof fn lemma_with_new_token(
    s: LedgerView,
    id: Id,
    owner: Id,
    royalty: Seq<(Id, u32)>,
    metadata: TokenMetadataView,
)
    requires
        s.inv(),
        !has_key(s.tokens_by_id, id),
        unique(royalty),
        royalty_within_bounds(royalty),
    ensures
        s.with_new_token(id, owner, royalty, metadata).inv(),
        s.with_new_token(id, owner, royalty, metadata).tokens_by_id == s.tokens_by_id.push(
            (id, TokenView::minted(owner, royalty)),
        ),
        s.with_new_token(id, owner, royalty, metadata).token_metadata_by_id
            == s.token_metadata_by_id.push((id, metadata)),
        forall|x: Id|
            has_key(#[trigger] s.with_new_token(id, owner, royalty, metadata).tokens_by_id, x) == (x
                == id || has_key(s.tokens_by_id, x)),
        forall|x: Id|
            x != id ==> lookup(
                #[trigger] s.with_new_token(id, owner, royalty, metadata).tokens_by_id,
                x,
            ) == lookup(s.tokens_by_id, x),
{
    let r = s.with_new_token(id, owner, royalty, metadata);
    let t = TokenView::minted(owner, royalty);
    lemma_same_keys(s.token_metadata_by_id, s.tokens_by_id, id);
    lemma_put(s.tokens_by_id, id, t, id);
    lemma_put(s.token_metadata_by_id, id, metadata, id);
    lemma_own_add(s.tokens_per_owner, owner, id, owner, id);
    assert forall|x: Id|
        has_key(r.tokens_by_id, x) == (x == id || has_key(s.tokens_by_id, x)) && (x != id
            ==> lookup(r.tokens_by_id, x) == lookup(s.tokens_by_id, x)) by {
        lemma_put(s.tokens_by_id, id, t, x);
    }
    assert forall|i: int| 0 <= i < r.tokens_by_id.len() implies (
    #[trigger] r.tokens_by_id[i]).1.wf() by {
        if i < s.tokens_by_id.len() {
            assert(r.tokens_by_id[i] == s.tokens_by_id[i]);
        }
    }
    assert(same_keys(r.token_metadata_by_id, r.tokens_by_id));
    assert forall|x: Id| #[trigger] has_key(r.tokens_by_id, x) implies members(
        r.tokens_per_owner,
        r.owner_of(x),
    ).contains(x) by {
        lemma_own_add(s.tokens_per_owner, owner, id, r.owner_of(x), x);
        if x != id {
            assert(has_key(s.tokens_by_id, x));
        }
    }
    assert forall|a: Id, x: Id| #[trigger]
        members(r.tokens_per_owner, a).contains(x) implies has_key(r.tokens_by_id, x)
        && r.owner_of(x) == a by {
        lemma_own_add(s.tokens_per_owner, owner, id, a, x);
        if members(s.tokens_per_owner, a).contains(x) {
            assert(has_key(s.tokens_by_id, x));
        }
    }
    lemma_shares_kept(s, r);
}

/// Shares stay tokens while the artworks stay and no token leaves.
pub proof fn lemma_shares_kept(s: LedgerView, r: LedgerView)
    requires
        s.shares_consistent(),
        r.art_by_id == s.art_by_id,
        r.tokens_per_art == s.tokens_per_art,
        forall|x: Id| #[trigger] has_key(s.tokens_by_id, x) ==> has_key(r.tokens_by_id, x),
    ensures
        r.shares_consistent(),
{
    assert forall|i: int, k: nat|
        0 <= i < r.art_by_id.len() && k < r.art_by_id[i].1.num_shares implies has_key(
        r.tokens_by_id,
        #[trigger] share_id(r.art_by_id[i].0, k),
    ) by {
        assert(has_key(s.tokens_by_id, share_id(s.art_by_id[i].0, k)));
    }
}

/// Replacing the record of a known token by a well-formed one changes that
/// entry of the token store and no other, and keeps the store in step with
/// the metadata and with the shares of the artworks.
pub proof fn lemma_token_replaced(s: LedgerView, r: LedgerView, id: Id, token: TokenView)
    requires
        s.inv(),
        has_key(s.tokens_by_id, id),
        token.wf(),
        r.tokens_by_id == put(s.tokens_by_id, id, token),
        r.token_metadata_by_id == s.token_metadata_by_id,
        r.art_by_id == s.art_by_id,
        r.tokens_per_art == s.tokens_per_art,
    ensures
        unique(r.tokens_by_id),
        forall|i: int| 0 <= i < r.tokens_by_id.len() ==> (#[trigger] r.tokens_by_id[i]).1.wf(),
        same_keys(r.token_metadata_by_id, r.tokens_by_id),
        r.shares_consistent(),
        r.tokens_by_id == s.tokens_by_id.update(pos(s.tokens_by_id, id), (id, token)),
        r.token(id) == token,
        forall|x: Id| has_key(#[trigger] r.tokens_by_id, x) == has_key(s.tokens_by_id, x),
        forall|x: Id| x != id ==> lookup(#[trigger] r.tokens_by_id, x) == lookup(s.tokens_by_id, x),
{
    let at = pos(s.tokens_by_id, id);
    lemma_put(s.tokens_by_id, id, token, id);
    assert forall|x: Id|
        has_key(r.tokens_by_id, x) == has_key(s.tokens_by_id, x) && (x != id ==> lookup(
            r.tokens_by_id,
            x,
        ) == lookup(s.tokens_by_id, x)) by {
        lemma_put(s.tokens_by_id, id, token, x);
    }
    assert forall|i: int| 0 <= i < r.tokens_by_id.len() implies (
    #[trigger] r.tokens_by_id[i]).1.wf() by {
        if i != at {
            assert(r.tokens_by_id[i] == s.tokens_by_id[i]);
        }
    }
    assert forall|i: int| 0 <= i < r.token_metadata_by_id.len() implies (
    #[trigger] r.token_metadata_by_id[i]).0 == r.tokens_by_id[i].0 by {
        assert(s.token_metadata_by_id[i].0 == s.tokens_by_id[i].0);
    }
    lemma_shares_kept(s, r);
}

/// Replacing the record of a known token by a well-formed one with the
/// same owner keeps the ledger sound and touches no other record.
pub proof fn lemma_with_token(s: LedgerView, id: Id, token: TokenView)
    requires
        s.inv(),
        has_key(s.tokens_by_id, id),
        token.wf(),
        token.owner_id == s.owner_of(id),
    ensures
        s.with_token(id, token).inv(),
        s.with_token(id, token).tokens_by_id == s.tokens_by_id.update(
            pos(s.tokens_by_id, id),
            (id, token),
        ),
        s.with_token(id, token).token(id) == token,
        forall|x: Id|
            has_key(#[trigger] s.with_token(id, token).tokens_by_id, x) == has_key(
                s.tokens_by_id,
                x,
            ),
        forall|x: Id|
            x != id ==> lookup(#[trigger] s.with_token(id, token).tokens_by_id, x) == lookup(
                s.tokens_by_id,
                x,
            ),
{
    let r = s.with_token(id, token);
    lemma_token_replaced(s, r, id, token);
    assert forall|x: Id| r.owner_of(x) == s.owner_of(x) by {}
    assert forall|x: Id| #[trigger] has_key(r.tokens_by_id, x) implies members(
        r.tokens_per_owner,
        r.owner_of(x),
    ).contains(x) by {
        assert(has_key(s.tokens_by_id, x));
    }
    assert forall|a: Id, x: Id| #[trigger]
        members(r.tokens_per_owner, a).contains(x) implies has_key(r.tokens_by_id, x)
        && r.owner_of(x) == a by {
        assert(members(s.tokens_per_owner, a).contains(x));
    }
}

impl Contract {
    /// Puts `token` at position `i` of the token store, under the key that
    /// is there.
    pub(crate) fn put_token(&mut self, i: usize, token: Token)
        requires
            i < old(self)@.tokens_by_id.len(),
        ensures
            final(self)@ == (LedgerView {
                tokens_by_id: old(self)@.tokens_by_id.update(
                    i as int,
                    (old(self)@.tokens_by_id[i as int].0, token@),
                ),
                ..old(self)@
            }),
    {
        self.tokens_by_id.replace_at(i, token);
    }

    /// Replaces the record at position `i` by `token`, a well-formed record
    /// with the same owner.
    pub(crate) fn update_token(&mut self, i: usize, token: Token)
        requires
            old(self)@.inv(),
            i < old(self)@.tokens_by_id.len(),
            token@.wf(),
            token@.owner_id == old(self)@.tokens_by_id[i as int].1.owner_id,
        ensures
            final(self)@ == old(self)@.with_token(old(self)@.tokens_by_id[i as int].0, token@),
            final(self)@.inv(),
    {
        proof {
            let id = self@.tokens_by_id[i as int].0;
            lemma_found(self@.tokens_by_id, id, i as int);
            lemma_with_token(self@, id, token@);
        }
        self.put_token(i, token);
    }

    /// An empty ledger administered by `owner_id`.
    pub fn new(owner_id: String) -> (c: Contract)
        ensures
            c@ == LedgerView::empty(owner_id@),
            c@.inv(),
    {
        let c = Contract {
            owner_id,
            art_by_id: IdMap::new(),
            tokens_per_art: IdMap::new(),
            tokens_per_owner: IdMap::new(),
            tokens_by_id: IdMap::new(),
            token_metadata_by_id: IdMap::new(),
        };
        assert forall|a: Id, x: Id| #[trigger]
            members(c@.tokens_per_owner, a).contains(x) implies has_key(c@.tokens_by_id, x)
            && c@.owner_of(x) == a by {
            assert(members(c@.tokens_per_owner, a) =~= Seq::<Id>::empty());
        }
        c
    }

    /// Sets up the ledger in `slot` once: an empty slot receives an empty
    /// ledger administered by `owner_id`, a filled one is left as it is.
    pub fn initialize(slot: &mut Option<Contract>, owner_id: String) -> (r: Result<
        (),
        LedgerError,
    >)
        ensures
            (*old(slot)) is Some ==> r == Err::<(), LedgerError>(LedgerError::AlreadyInitialized)
                && *final(slot) == *old(slot),
            (*old(slot)) is None ==> r is Ok && (*final(slot)) is Some && (*final(slot))->0@
                == LedgerView::empty(owner_id@) && (*final(slot))->0@.inv(),
    {
        if slot.is_some() {
            return Err(LedgerError::AlreadyInitialized);
        }
        *slot = Some(Contract::new(owner_id));
        Ok(())
    }

    /// Lists `token_id` under `account_id` in the ownership index.
    pub fn internal_add_token_to_owner(&mut self, account_id: &String, token_id: &String)
        requires
            old(self)@.wf(),
        ensures
            final(self)@ == old(self)@.listed(account_id@, token_id@),
            final(self)@.wf(),
    {
        proof {
            lemma_own_add(self@.tokens_per_owner, account_id@, token_id@, account_id@, token_id@);
            lemma_members_distinct(self@.tokens_per_owner, account_id@);
        }
        match self.tokens_per_owner.find(account_id) {
            Some(i) => {
                proof {
                    lemma_found(self@.tokens_per_owner, account_id@, i as int);
                }
                let mut set = self.tokens_per_owner.replace_at(i, TokenSet::new());
                set.insert(token_id.clone());
                self.tokens_per_owner.replace_at(i, set);
                assert(self@.tokens_per_owner =~= own_add(
                    old(self)@.tokens_per_owner,
                    account_id@,
                    token_id@,
                ));
            },
            None => {
                let mut set = TokenSet::new();
                set.insert(token_id.clone());
                self.tokens_per_owner.insert(account_id.clone(), set);
            },
        }
    }

    /// Takes `token_id` out of the set listed under `account_id`, and drops
    /// the account's entry when the set becomes empty. Fails with `NotFound`
    /// when the account has no entry.
    pub fn internal_remove_token_from_owner(
        &mut self,
        account_id: &String,
        token_id: &String,
    ) -> (r: Result<(), LedgerError>)
        requires
            old(self)@.wf(),
        ensures
            final(self)@ == old(self)@.unlisted(account_id@, token_id@),
            final(self)@.wf(),
            r == (if has_key(old(self)@.tokens_per_owner, account_id@) {
                Ok::<(), LedgerError>(())
            } else {
                Err::<(), LedgerError>(LedgerError::NotFound)
            }),
    {
        proof {
            lemma_own_remove(
                self@.tokens_per_owner,
                account_id@,
                token_id@,
                account_id@,
                token_id@,
            );
            lemma_members_distinct(self@.tokens_per_owner, account_id@);
        }
        match self.tokens_per_owner.find(account_id) {
            Some(i) => {
                proof {
                    lemma_found(self@.tokens_per_owner, account_id@, i as int);
                }
                let mut set = self.tokens_per_owner.replace_at(i, TokenSet::new());
                set.remove(token_id);
                if set.is_empty() {
                    proof {
                        lemma_found(self@.tokens_per_owner, account_id@, i as int);
                    }
                    self.tokens_per_owner.remove(account_id);
                    assert(self@.tokens_per_owner =~= del(
                        old(self)@.tokens_per_owner,
                        account_id@,
                    ));
                } else {
                    self.tokens_per_owner.replace_at(i, set);
                    assert(self@.tokens_per_owner =~= own_remove(
                        old(self)@.tokens_per_owner,
                        account_id@,
                        token_id@,
                    ));
                }
                Ok(())
            },
            None => Err(LedgerError::NotFound),
        }
    }
}

} // verus!
