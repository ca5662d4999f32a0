//! Minting: a single token, or an artwork with all of its shares.

use crate::assoc::{has_key, lemma_put, lemma_same_keys, put, same_keys, unique, Id};
use crate::decimal::{
    lemma_share_ids_distinct, lemma_share_ids_no_duplicates, share_id, share_ids, share_token_id,
};
use crate::error::LedgerError;
use crate::events::NftMintLog;
use crate::id_map::IdMap;
use crate::ledger::{lemma_put_sets_distinct, lemma_with_new_token, Contract, LedgerView};
use crate::metadata::{
    sample_token_metadata, sample_token_metadata_view, Art, ArtView, TokenMetadata,
};
use crate::token::{
    royalty_within_bounds, total_basis_points, Token, FULL_BASIS_POINTS, MAX_ROYALTY_RECIPIENTS,
};
use crate::token_set::TokenSet;
use vstd::prelude::*;

verus! {

/// The royalty recipients that a mint names; none when it names no map.
pub open spec fn royalty_of(perpetual_royalties: Option<IdMap<u32>>) -> Seq<(Id, u32)> {
    match perpetual_royalties {
        Some(m) => m@,
        None => Seq::empty(),
    }
}

impl LedgerView {
    /// Why the mint of the single token `id` is refused, if it is: the
    /// royalties name more than six recipients or add up to more than the
    /// whole, or the token is already known.
    pub open spec fn nft_mint_refusal(self, id: Id, royalty: Seq<(Id, u32)>) -> Option<
        LedgerError,
    > {
        if !royalty_within_bounds(royalty) {
            Some(LedgerError::InvalidInput)
        } else if has_key(self.tokens_by_id, id) {
            Some(LedgerError::AlreadyExists)
        } else {
            None
        }
    }

    /// One of the first `count` shares of `art_id` is already a token.
    pub open spec fn shares_collide(self, art_id: Id, count: nat) -> bool {
        exists|k: nat| k < count && has_key(self.tokens_by_id, #[trigger] share_id(art_id, k))
    }

    /// Why the mint of the artwork `art_id` with `count` shares is refused,
    /// if it is.
    pub open spec fn art_mint_refusal(self, art_id: Id, count: nat) -> Option<LedgerError> {
        if has_key(self.art_by_id, art_id) {
            Some(LedgerError::AlreadyExists)
        } else if count == 0 {
            Some(LedgerError::InvalidInput)
        } else if self.shares_collide(art_id, count) {
            Some(LedgerError::AlreadyExists)
        } else {
            None
        }
    }

    /// The ledger after the first `count` shares of `art_id` are minted for
    /// `minter`, in order, each with no royalties and the fixed metadata.
    pub open spec fn with_shares(self, art_id: Id, minter: Id, count: nat) -> LedgerView
        decreases count,
    {
        if count == 0 {
            self
        } else {
            self.with_shares(art_id, minter, (count - 1) as nat).with_new_token(
                share_id(art_id, (count - 1) as nat),
                minter,
                Seq::empty(),
                sample_token_metadata_view(),
            )
        }
    }

    /// The ledger after the artwork `art_id` is registered with its shares
    /// listed (the shares themselves being tokens already).
    pub open spec fn registered(self, art_id: Id, art: ArtView) -> LedgerView {
        LedgerView {
            art_by_id: put(self.art_by_id, art_id, art),
            tokens_per_art: put(
                self.tokens_per_art,
                art_id,
                share_ids(art_id, art.num_shares as nat),
            ),
            ..self
        }
    }

    /// The ledger after the artwork `art_id` is minted for `minter`: all of
    /// its shares are tokens of `minter`, and the artwork is registered.
    pub open spec fn with_artwork(self, art_id: Id, art: ArtView, minter: Id) -> LedgerView {
        self.with_shares(art_id, minter, art.num_shares as nat).registered(art_id, art)
    }
}

/// Registering an artwork whose shares are all tokens keeps the ledger sound.
pub proof fn lemma_registered(s: LedgerView, art_id: Id, art: ArtView)
    requires
        s.inv(),
        !has_key(s.art_by_id, art_id),
        forall|k: nat| k < art.num_shares ==> has_key(s.tokens_by_id, #[trigger] share_id(art_id, k)),
    ensures
        s.registered(art_id, art).inv(),
        s.registered(art_id, art).art_by_id == s.art_by_id.push((art_id, art)),
        s.registered(art_id, art).tokens_per_art == s.tokens_per_art.push(
            (art_id, share_ids(art_id, art.num_shares as nat)),
        ),
{
    let r = s.registered(art_id, art);
    let ids = share_ids(art_id, art.num_shares as nat);
    lemma_same_keys(s.tokens_per_art, s.art_by_id, art_id);
    lemma_put(s.art_by_id, art_id, art, art_id);
    lemma_put(s.tokens_per_art, art_id, ids, art_id);
    lemma_share_ids_no_duplicates(art_id, art.num_shares as nat);
    lemma_put_sets_distinct(s.tokens_per_art, art_id, ids);
    assert(same_keys(r.tokens_per_art, r.art_by_id));
    assert forall|i: int| 0 <= i < r.art_by_id.len() implies (#[trigger] r.tokens_per_art[i]).1
        == share_ids(r.art_by_id[i].0, r.art_by_id[i].1.num_shares as nat) by {
        if i < s.art_by_id.len() {
            assert(r.tokens_per_art[i] == s.tokens_per_art[i]);
        }
    }
    assert forall|i: int, k: nat|
        0 <= i < r.art_by_id.len() && k < r.art_by_id[i].1.num_shares implies has_key(
        r.tokens_by_id,
        #[trigger] share_id(r.art_by_id[i].0, k),
    ) by {
        if i < s.art_by_id.len() {
            assert(has_key(s.tokens_by_id, share_id(s.art_by_id[i].0, k)));
        }
    }
}

impl Contract {
    /// Stores a new token with its metadata and lists it under its owner.
    fn store_token(
        &mut self,
        token_id: String,
        owner_id: String,
        royalty: IdMap<u32>,
        metadata: TokenMetadata,
    ) -> (log: NftMintLog)
        requires
            old(self)@.inv(),
            !has_key(old(self)@.tokens_by_id, token_id@),
            unique(royalty@),
            royalty_within_bounds(royalty@),
        ensures
            final(self)@ == old(self)@.with_new_token(
                token_id@,
                owner_id@,
                royalty@,
                metadata@,
            ),
            final(self)@.inv(),
            log.records(owner_id@, token_id@),
    {
        proof {
            lemma_with_new_token(self@, token_id@, owner_id@, royalty@, metadata@);
        }
        let log = NftMintLog::single(&owner_id, &token_id);
        self.internal_add_token_to_owner(&owner_id, &token_id);
        let token = Token::new(owner_id, royalty);
        self.tokens_by_id.insert(token_id.clone(), token);
        self.token_metadata_by_id.insert(token_id, metadata);
        log
    }

    /// Mints the single token `token_id` for `receiver_id`.
    ///
    /// Refused with `InvalidInput` when more than six royalty recipients are
    /// named or their basis points add up to more than the whole, else with
    /// `AlreadyExists` when the token is already known. On
    /// success the token is stored with no delegates, its metadata is kept,
    /// it is listed under its owner, and the record of the mint is returned.
    pub fn nft_mint(
        &mut self,
        token_id: String,
        metadata: TokenMetadata,
        receiver_id: String,
        perpetual_royalties: Option<IdMap<u32>>,
    ) -> (r: Result<NftMintLog, LedgerError>)
        requires
            old(self)@.inv(),
            unique(royalty_of(perpetual_royalties)),
        ensures
            final(self)@.inv(),
            match old(self)@.nft_mint_refusal(token_id@, royalty_of(perpetual_royalties)) {
                Some(e) => r == Err::<NftMintLog, LedgerError>(e) && *final(self) == *old(self),
                None => r is Ok && r->Ok_0.records(receiver_id@, token_id@) && final(self)@ == old(
                    self,
                )@.with_new_token(
                    token_id@,
                    receiver_id@,
                    royalty_of(perpetual_royalties),
                    metadata@,
                ),
            },
    {
        let royalty = match perpetual_royalties {
            Some(m) => m,
            None => IdMap::new(),
        };
        if royalty.len() > MAX_ROYALTY_RECIPIENTS {
            return Err(LedgerError::InvalidInput);
        }
        if total_basis_points(&royalty) > FULL_BASIS_POINTS as u128 {
            return Err(LedgerError::InvalidInput);
        }
        if self.tokens_by_id.contains_key(&token_id) {
            return Err(LedgerError::AlreadyExists);
        }
        let log = self.store_token(token_id, receiver_id, royalty, metadata);
        Ok(log)
    }

    /// Mints the artwork `art_id` with `num_shares` shares, all for
    /// `minter_id`.
    ///
    /// Refused with `AlreadyExists` when the artwork is registered, else with
    /// `InvalidInput` when it would have no shares, else with `AlreadyExists`
    /// when the identifier of one of its shares is already a token. On
    /// success every share is a token of the minter, in order, the artwork is
    /// registered with its shares listed, and one record per share is
    /// returned.
    pub fn art_mint(
        &mut self,
        art_id: String,
        art_title: String,
        artist_name: String,
        authenticator: String,
        num_shares: u64,
        minter_id: String,
    ) -> (r: Result<Vec<NftMintLog>, LedgerError>)
        requires
            old(self)@.inv(),
        ensures
            final(self)@.inv(),
            match old(self)@.art_mint_refusal(art_id@, num_shares as nat) {
                Some(e) => r == Err::<Vec<NftMintLog>, LedgerError>(e) && *final(self) == *old(
                    self,
                ),
                None => {
                    &&& r is Ok
                    &&& final(self)@ == old(self)@.with_artwork(
                        art_id@,
                        (ArtView {
                            art_title: art_title@,
                            artist_name: artist_name@,
                            authenticator: authenticator@,
                            num_shares,
                        }),
                        minter_id@,
                    )
                    &&& r->Ok_0@.len() == num_shares
                    &&& forall|k: int|
                        0 <= k < num_shares ==> (#[trigger] r->Ok_0@[k]).records(
                            minter_id@,
                            share_id(art_id@, k as nat),
                        )
                },
            },
    {
        if self.art_by_id.contains_key(&art_id) {
            return Err(LedgerError::AlreadyExists);
        }
        if num_shares == 0 {
            return Err(LedgerError::InvalidInput);
        }
        let ghost start = self@;
        let mut checked: u64 = 0;
        while checked < num_shares
            invariant
                checked <= num_shares,
                *self == *old(self),
                self@ == start,
                start.inv(),
                forall|k: nat|
                    k < checked ==> !has_key(start.tokens_by_id, #[trigger] share_id(art_id@, k)),
            decreases num_shares - checked,
        {
            let id = share_token_id(&art_id, checked);
            if self.tokens_by_id.contains_key(&id) {
                assert(has_key(start.tokens_by_id, share_id(art_id@, checked as nat)));
                return Err(LedgerError::AlreadyExists);
            }
            checked += 1;
        }
        assert(!start.shares_collide(art_id@, num_shares as nat));

        let mut logs: Vec<NftMintLog> = Vec::new();
        let mut shares = TokenSet::new();
        let mut minted: u64 = 0;
        while minted < num_shares
            invariant
                minted <= num_shares,
                self@ == start.with_shares(art_id@, minter_id@, minted as nat),
                self@.inv(),
                self@.art_by_id == start.art_by_id,
                forall|k: nat|
                    minted <= k < num_shares ==> !has_key(
                        self@.tokens_by_id,
                        #[trigger] share_id(art_id@, k),
                    ),
                forall|k: nat|
                    k < minted ==> has_key(self@.tokens_by_id, #[trigger] share_id(art_id@, k)),
                shares@ == share_ids(art_id@, minted as nat),
                logs@.len() == minted,
                forall|k: int|
                    0 <= k < minted ==> (#[trigger] logs@[k]).records(
                        minter_id@,
                        share_id(art_id@, k as nat),
                    ),
            decreases num_shares - minted,
        {
            let id = share_token_id(&art_id, minted);
            let ghost before = self@;
            proof {
                assert(!has_key(before.tokens_by_id, share_id(art_id@, minted as nat)));
                lemma_with_new_token(
                    before,
                    id@,
                    minter_id@,
                    Seq::empty(),
                    sample_token_metadata_view(),
                );
                lemma_share_ids_no_duplicates(art_id@, minted as nat);
                assert forall|k: nat| k != minted implies #[trigger] share_id(art_id@, k)
                    != id@ by {
                    lemma_share_ids_distinct(art_id@, k, minted as nat);
                }
                assert(!share_ids(art_id@, minted as nat).contains(id@)) by {
                    if share_ids(art_id@, minted as nat).contains(id@) {
                        let j = share_ids(art_id@, minted as nat).index_of(id@);
                        assert(share_id(art_id@, j as nat) == id@);
                    }
                }
            }
            let log = self.store_token(
                id.clone(),
                minter_id.clone(),
                IdMap::new(),
                sample_token_metadata(),
            );
            shares.insert(id);
            logs.push(log);
            minted += 1;
            assert(shares@ =~= share_ids(art_id@, minted as nat));
        }
        let art = Art { art_title, artist_name, authenticator, num_shares };
        proof {
            lemma_registered(self@, art_id@, art@);
        }
        self.art_by_id.insert(art_id.clone(), art);
        self.tokens_per_art.insert(art_id, shares);
        Ok(logs)
    }
}

} // verus!
