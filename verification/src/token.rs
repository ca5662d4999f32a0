//! The token record, and what the ledger shows of a token.

use crate::assoc::{has_key, lookup, unique, Id};
use crate::id_map::IdMap;
use crate::metadata::{TokenMetadata, TokenMetadataView};
use vstd::prelude::*;

verus! {

/// The most royalty recipients a token may name.
pub const MAX_ROYALTY_RECIPIENTS: usize = 6;

/// The whole of a sale, in basis points.
pub const FULL_BASIS_POINTS: u32 = 10000;

/// One share token: who owns it, who may move it, and who is paid when it
/// is sold.
#[derive(Debug, Clone, PartialEq, Eq)]
pub struct Token {
    /// The owning account.
    pub owner_id: String,
    /// The delegates, each with the identifier of its approval.
    pub approved_account_ids: IdMap<u64>,
    /// The identifier that the next approval will get.
    pub next_approval_id: u64,
    /// The royalty recipients, each with its share in basis points.
    pub royalty: IdMap<u32>,
}

/// The mathematical value of a [`Token`].
pub struct TokenView {
    pub owner_id: Id,
    pub approvals: Seq<(Id, u64)>,
    pub next_approval_id: u64,
    pub royalty: Seq<(Id, u32)>,
}

impl View for Token {
    type V = TokenView;

    open spec fn view(&self) -> TokenView {
        TokenView {
            owner_id: self.owner_id@,
            approvals: self.approved_account_ids@,
            next_approval_id: self.next_approval_id,
            royalty: self.royalty@,
        }
    }
}

/// The sum of the basis points of the first `n` recipients.
pub open spec fn total_bps(royalty: Seq<(Id, u32)>, n: nat) -> nat
    decreases n,
{
    if n == 0 {
        0
    } else {
        total_bps(royalty, (n - 1) as nat) + royalty[n - 1].1 as nat
    }
}

/// Royalties that a token may carry: at most six recipients, whose basis
/// points add up to no more than the whole.
pub open spec fn royalty_within_bounds(royalty: Seq<(Id, u32)>) -> bool {
    &&& royalty.len() <= MAX_ROYALTY_RECIPIENTS
    &&& total_bps(royalty, royalty.len()) <= FULL_BASIS_POINTS
}

/// The sum of the basis points of all recipients.
pub fn total_basis_points(royalty: &IdMap<u32>) -> (total: u128)
    ensures
        total == total_bps(royalty@, royalty@.len()),
{
    let mut total: u128 = 0;
    let mut k: usize = 0;
    while k < royalty.len()
        invariant
            k <= royalty@.len(),
            total == total_bps(royalty@, k as nat),
            total <= k * 0xffff_ffff,
        decreases royalty@.len() - k,
    {
        total = total + *royalty.value_at(k) as u128;
        k += 1;
    }
    total
}

impl TokenView {
    /// What every stored token satisfies: no delegate and no royalty
    /// recipient is listed twice, there are at most six royalty recipients,
    /// their basis points add up to no more than the whole, and every
    /// approval identifier in use was issued before the next one.
    pub open spec fn wf(self) -> bool {
        &&& unique(self.approvals)
        &&& unique(self.royalty)
        &&& royalty_within_bounds(self.royalty)
        &&& forall|i: int|
            0 <= i < self.approvals.len() ==> (#[trigger] self.approvals[i]).1
                < self.next_approval_id
    }

    /// A newly minted token: no delegates, approval counter at zero.
    pub open spec fn minted(owner: Id, royalty: Seq<(Id, u32)>) -> TokenView {
        TokenView { owner_id: owner, approvals: Seq::empty(), next_approval_id: 0, royalty }
    }

    /// Whether `account` is a delegate, under the approval `approval_id` if
    /// one is given.
    pub open spec fn approves(self, account: Id, approval_id: Option<u64>) -> bool {
        has_key(self.approvals, account) && (approval_id is None || lookup(
            self.approvals,
            account,
        ) == approval_id)
    }
}

impl Token {
    /// A newly minted token for `owner_id` with the given royalty recipients.
    pub fn new(owner_id: String, royalty: IdMap<u32>) -> (t: Token)
        ensures
            t@ == TokenView::minted(owner_id@, royalty@),
    {
        Token { owner_id, approved_account_ids: IdMap::new(), next_approval_id: 0, royalty }
    }

    /// A copy of the record, field by field.
    pub fn duplicate(&self) -> (t: Token)
        ensures
            t@ == self@,
    {
        Token {
            owner_id: self.owner_id.clone(),
            approved_account_ids: self.approved_account_ids.duplicate(),
            next_approval_id: self.next_approval_id,
            royalty: self.royalty.duplicate(),
        }
    }
}

/// What the ledger shows of one token: the record together with its
/// identifier and its metadata.
#[derive(Debug, Clone, PartialEq, Eq)]
pub struct JsonToken {
    pub token_id: String,
    pub owner_id: String,
    pub metadata: TokenMetadata,
    pub approved_account_ids: IdMap<u64>,
    pub royalty: IdMap<u32>,
}

/// The mathematical value of a [`JsonToken`].
pub struct JsonTokenView {
    pub token_id: Id,
    pub owner_id: Id,
    pub metadata: TokenMetadataView,
    pub approvals: Seq<(Id, u64)>,
    pub royalty: Seq<(Id, u32)>,
}

impl View for JsonToken {
    type V = JsonTokenView;

    open spec fn view(&self) -> JsonTokenView {
        JsonTokenView {
            token_id: self.token_id@,
            owner_id: self.owner_id@,
            metadata: self.metadata@,
            approvals: self.approved_account_ids@,
            royalty: self.royalty@,
        }
    }
}

/// What is shown of the token `id` with record `token` and metadata `metadata`.
pub open spec fn shown(id: Id, token: TokenView, metadata: TokenMetadataView) -> JsonTokenView {
    JsonTokenView {
        token_id: id,
        owner_id: token.owner_id,
        metadata,
        approvals: token.approvals,
        royalty: token.royalty,
    }
}

impl JsonToken {
    /// Puts together what is shown of a token.
    pub fn assemble(token_id: &String, token: &Token, metadata: &TokenMetadata) -> (j: JsonToken)
        ensures
            j@ == shown(token_id@, token@, metadata@),
    {
        JsonToken {
            token_id: token_id.clone(),
            owner_id: token.owner_id.clone(),
            metadata: metadata.duplicate(),
            approved_account_ids: token.approved_account_ids.duplicate(),
            royalty: token.royalty.duplicate(),
        }
    }
}

} // verus!
