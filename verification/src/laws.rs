//! What holds of the ledger whatever its state: the laws that relate one
//! operation to another, stated over the model and proved.

use crate::approval::{lemma_approved_for, lemma_revoked};
use crate::assoc::{
    has_key, key_seq, lemma_del, lemma_found, lemma_put, lemma_same_keys, lookup, pos, unique, Id,
};
use crate::decimal::{
    lemma_share_id_injective, lemma_share_ids_distinct, lemma_share_ids_no_duplicates, share_id,
    share_ids,
};
use crate::enumeration::{page, page_start};
use crate::error::LedgerError;
use crate::ledger::{lemma_with_new_token, lemma_with_token, members, LedgerView};
use crate::metadata::{sample_token_metadata_view, ArtView, TokenMetadataView};
use crate::mint::lemma_registered;
use crate::royalty::{lemma_payout_plan_total, plan_total};
use crate::token::{royalty_within_bounds, shown, TokenView};
use crate::transfer::lemma_transferred;
use vstd::prelude::*;

verus! {

/// The records of the first `count` shares of `art_id` as minted for
/// `minter`, in order.
pub open spec fn share_tokens(art_id: Id, minter: Id, count: nat) -> Seq<(Id, TokenView)> {
    Seq::new(count, |k: int| (share_id(art_id, k as nat), TokenView::minted(minter, Seq::empty())))
}

/// The metadata of the first `count` shares of `art_id`, in order.
pub open spec fn share_metadata(art_id: Id, count: nat) -> Seq<(Id, TokenMetadataView)> {
    Seq::new(count, |k: int| (share_id(art_id, k as nat), sample_token_metadata_view()))
}

/// The token `x` is a share of an artwork that `s` has registered.
pub open spec fn is_share(s: LedgerView, x: Id) -> bool {
    exists|i: int, k: nat|
        0 <= i < s.art_by_id.len() && k < s.art_by_id[i].1.num_shares && x == #[trigger] share_id(
            s.art_by_id[i].0,
            k,
        )
}

/// Every token of `s` is a share of a registered artwork: none was minted
/// on its own.
pub open spec fn only_shares(s: LedgerView) -> bool {
    forall|x: Id| #[trigger] has_key(s.tokens_by_id, x) ==> is_share(s, x)
}

/// An empty ledger is sound, and it holds only shares, having no token.
pub proof fn law_empty_is_sound(owner_id: Id)
    ensures
        LedgerView::empty(owner_id).inv(),
        only_shares(LedgerView::empty(owner_id)),
{
    let e = LedgerView::empty(owner_id);
    assert forall|a: Id, x: Id| #[trigger]
        members(e.tokens_per_owner, a).contains(x) implies has_key(e.tokens_by_id, x)
        && e.owner_of(x) == a by {
        assert(members(e.tokens_per_owner, a) =~= Seq::<Id>::empty());
    }
}

/// Minting shares that collide with no token adds exactly those shares, in
/// order, to the token store, to the metadata and to the minter's set, and
/// leaves everything else as it was.
pub proof fn law_shares_minted(s: LedgerView, art_id: Id, minter: Id, count: nat)
    requires
        s.inv(),
        !s.shares_collide(art_id, count),
    ensures
        ({
            let r = s.with_shares(art_id, minter, count);
            &&& r.inv()
            &&& r.owner_id == s.owner_id
            &&& r.art_by_id == s.art_by_id
            &&& r.tokens_per_art == s.tokens_per_art
            &&& r.tokens_by_id == s.tokens_by_id + share_tokens(art_id, minter, count)
            &&& r.token_metadata_by_id == s.token_metadata_by_id + share_metadata(art_id, count)
            &&& members(r.tokens_per_owner, minter) == members(s.tokens_per_owner, minter)
                + share_ids(art_id, count)
            &&& forall|a: Id|
                a != minter ==> #[trigger] members(r.tokens_per_owner, a) == members(
                    s.tokens_per_owner,
                    a,
                )
        }),
    decreases count,
{
    let r = s.with_shares(art_id, minter, count);
    if count == 0 {
        assert(r.tokens_by_id =~= s.tokens_by_id + share_tokens(art_id, minter, count));
        assert(r.token_metadata_by_id =~= s.token_metadata_by_id + share_metadata(art_id, count));
        assert(members(r.tokens_per_owner, minter) =~= members(s.tokens_per_owner, minter)
            + share_ids(art_id, count));
    } else {
        let last = (count - 1) as nat;
        let id = share_id(art_id, last);
        let p = s.with_shares(art_id, minter, last);
        assert(!s.shares_collide(art_id, last)) by {
            if s.shares_collide(art_id, last) {
                let k = choose|k: nat|
                    k < last && has_key(s.tokens_by_id, #[trigger] share_id(art_id, k));
                assert(k < count && has_key(s.tokens_by_id, share_id(art_id, k)));
            }
        }
        law_shares_minted(s, art_id, minter, last);
        assert(!has_key(p.tokens_by_id, id)) by {
            if has_key(p.tokens_by_id, id) {
                let i = pos(p.tokens_by_id, id);
                if i < s.tokens_by_id.len() {
                    assert(s.tokens_by_id[i].0 == id);
                    assert(has_key(s.tokens_by_id, share_id(art_id, last)));
                } else {
                    let k = (i - s.tokens_by_id.len()) as nat;
                    assert(p.tokens_by_id[i] == share_tokens(art_id, minter, last)[k as int]);
                    lemma_share_ids_distinct(art_id, k, last);
                }
            }
        }
        lemma_with_new_token(p, id, minter, Seq::empty(), sample_token_metadata_view());
        assert(r.tokens_by_id =~= s.tokens_by_id + share_tokens(art_id, minter, count));
        assert(r.token_metadata_by_id =~= s.token_metadata_by_id + share_metadata(art_id, count));
        let before = members(p.tokens_per_owner, minter);
        assert(!before.contains(id));
        lemma_put(p.tokens_per_owner, minter, before.push(id), minter);
        assert(members(r.tokens_per_owner, minter) =~= members(s.tokens_per_owner, minter)
            + share_ids(art_id, count));
        assert forall|a: Id| a != minter implies #[trigger] members(r.tokens_per_owner, a)
            == members(s.tokens_per_owner, a) by {
            lemma_put(p.tokens_per_owner, minter, before.push(id), a);
            assert(members(p.tokens_per_owner, a) == members(s.tokens_per_owner, a));
        }
    }
}

/// Minting an artwork that is not refused registers it, makes each of its
/// shares a token of the minter, lists exactly those shares under the
/// artwork, and adds exactly those shares, in order, to the minter's set.
/// The shares' identifiers are pairwise different.
pub proof fn law_art_mint(s: LedgerView, art_id: Id, art: ArtView, minter: Id)
    requires
        s.inv(),
        s.art_mint_refusal(art_id, art.num_shares as nat) is None,
    ensures
        ({
            let r = s.with_artwork(art_id, art, minter);
            let n = art.num_shares as nat;
            &&& r.inv()
            &&& share_ids(art_id, n).no_duplicates()
            &&& share_ids(art_id, n).len() == n
            &&& lookup(r.art_by_id, art_id) == Some(art)
            &&& r.art_by_id == s.art_by_id.push((art_id, art))
            &&& members(r.tokens_per_art, art_id) == share_ids(art_id, n)
            &&& members(r.tokens_per_owner, minter) == members(s.tokens_per_owner, minter)
                + share_ids(art_id, n)
            &&& r.tokens_by_id == s.tokens_by_id + share_tokens(art_id, minter, n)
            &&& forall|k: nat|
                k < n ==> has_key(r.tokens_by_id, #[trigger] share_id(art_id, k)) && r.token(
                    share_id(art_id, k),
                ) == TokenView::minted(minter, Seq::empty())
        }),
{
    let n = art.num_shares as nat;
    let p = s.with_shares(art_id, minter, n);
    let r = s.with_artwork(art_id, art, minter);
    law_shares_minted(s, art_id, minter, n);
    lemma_share_ids_no_duplicates(art_id, n);
    assert forall|k: nat| k < n implies has_key(p.tokens_by_id, #[trigger] share_id(art_id, k))
        && p.token(share_id(art_id, k)) == TokenView::minted(minter, Seq::empty()) by {
        let i = (s.tokens_by_id.len() + k) as int;
        assert(p.tokens_by_id[i] == share_tokens(art_id, minter, n)[k as int]);
        lemma_found(p.tokens_by_id, share_id(art_id, k), i);
    }
    lemma_registered(p, art_id, art);
    lemma_put(p.art_by_id, art_id, art, art_id);
    lemma_put(p.tokens_per_art, art_id, share_ids(art_id, n), art_id);
}

/// On an empty ledger, minting an artwork with at least one share is not
/// refused, and afterwards the ledger holds exactly the artwork's shares:
/// as many tokens as shares, with pairwise different identifiers, all owned
/// by the minter, all listed under the artwork and under the minter.
pub proof fn law_art_mint_on_empty(owner_id: Id, art_id: Id, art: ArtView, minter: Id)
    requires
        art.num_shares > 0,
    ensures
        ({
            let s = LedgerView::empty(owner_id);
            let r = s.with_artwork(art_id, art, minter);
            let n = art.num_shares as nat;
            &&& s.art_mint_refusal(art_id, n) is None
            &&& r.inv()
            &&& key_seq(r.tokens_by_id) == share_ids(art_id, n)
            &&& share_ids(art_id, n).no_duplicates()
            &&& r.tokens_by_id.len() == n
            &&& members(r.tokens_per_art, art_id).len() == n
            &&& members(r.tokens_per_owner, minter).len() == n
            &&& members(r.tokens_per_art, art_id) == share_ids(art_id, n)
            &&& members(r.tokens_per_owner, minter) == share_ids(art_id, n)
            &&& forall|i: int| 0 <= i < n ==> (#[trigger] r.tokens_by_id[i]).1.owner_id == minter
        }),
{
    let s = LedgerView::empty(owner_id);
    let r = s.with_artwork(art_id, art, minter);
    let n = art.num_shares as nat;
    law_empty_is_sound(owner_id);
    law_art_mint(s, art_id, art, minter);
    assert(r.tokens_by_id =~= share_tokens(art_id, minter, n));
    assert(key_seq(r.tokens_by_id) =~= share_ids(art_id, n));
    assert(members(s.tokens_per_owner, minter) =~= Seq::<Id>::empty());
    assert(members(r.tokens_per_owner, minter) =~= share_ids(art_id, n));
}

/// Artworks never clash: where every token is a share of a registered
/// artwork, minting an artwork that is not registered, with at least one
/// share, is not refused, whatever the artworks are called. (A refusal for a
/// taken share identifier is left only for a token that was minted on its
/// own under such an identifier.)
pub proof fn law_unregistered_artwork_is_minted(s: LedgerView, art_id: Id, count: nat)
    requires
        only_shares(s),
        !has_key(s.art_by_id, art_id),
        count > 0,
    ensures
        s.art_mint_refusal(art_id, count) is None,
{
    if s.shares_collide(art_id, count) {
        let k = choose|k: nat|
            k < count && has_key(s.tokens_by_id, #[trigger] share_id(art_id, k));
        let x = share_id(art_id, k);
        assert(is_share(s, x));
        let (i, j) = choose|i: int, j: nat|
            0 <= i < s.art_by_id.len() && j < s.art_by_id[i].1.num_shares && x == #[trigger] share_id(
                s.art_by_id[i].0,
                j,
            );
        lemma_share_id_injective(art_id, k, s.art_by_id[i].0, j);
        assert(s.art_by_id[i].0 == art_id);
        assert(has_key(s.art_by_id, art_id));
    }
}

/// Minting an artwork keeps a ledger of shares a ledger of shares.
pub proof fn law_art_mint_keeps_only_shares(s: LedgerView, art_id: Id, art: ArtView, minter: Id)
    requires
        s.inv(),
        only_shares(s),
        s.art_mint_refusal(art_id, art.num_shares as nat) is None,
    ensures
        only_shares(s.with_artwork(art_id, art, minter)),
{
    let r = s.with_artwork(art_id, art, minter);
    let n = art.num_shares as nat;
    law_art_mint(s, art_id, art, minter);
    assert forall|x: Id| #[trigger] has_key(r.tokens_by_id, x) implies is_share(r, x) by {
        let p = pos(r.tokens_by_id, x);
        if p < s.tokens_by_id.len() {
            assert(s.tokens_by_id[p].0 == x);
            assert(has_key(s.tokens_by_id, x));
            let (i, j) = choose|i: int, j: nat|
                0 <= i < s.art_by_id.len() && j < s.art_by_id[i].1.num_shares && x
                    == #[trigger] share_id(s.art_by_id[i].0, j);
            assert(r.art_by_id[i] == s.art_by_id[i]);
            assert(x == share_id(r.art_by_id[i].0, j));
        } else {
            let k = (p - s.tokens_by_id.len()) as nat;
            let last = s.art_by_id.len() as int;
            assert(r.tokens_by_id[p] == share_tokens(art_id, minter, n)[k as int]);
            assert(r.art_by_id[last] == (art_id, art));
            assert(x == share_id(r.art_by_id[last].0, k));
        }
    }
}

/// A single token that is minted keeps the bounds on royalties: the stored
/// record names at most six recipients, whose basis points add up to no
/// more than the whole; and the ledger stays sound.
pub proof fn law_minted_royalties_are_bounded(
    s: LedgerView,
    id: Id,
    owner: Id,
    royalty: Seq<(Id, u32)>,
    metadata: TokenMetadataView,
)
    requires
        s.inv(),
        unique(royalty),
        s.nft_mint_refusal(id, royalty) is None,
    ensures
        s.with_new_token(id, owner, royalty, metadata).inv(),
        s.with_new_token(id, owner, royalty, metadata).token(id) == TokenView::minted(
            owner,
            royalty,
        ),
        royalty_within_bounds(s.with_new_token(id, owner, royalty, metadata).token(id).royalty),
{
    lemma_with_new_token(s, id, owner, royalty, metadata);
    let r = s.with_new_token(id, owner, royalty, metadata);
    lemma_found(r.tokens_by_id, id, s.tokens_by_id.len() as int);
}

/// In a sound ledger no payout is refused for royalties above the whole:
/// every stored record keeps them within it.
pub proof fn law_sound_payout_is_never_invalid(s: LedgerView, id: Id, max_len_payout: u32)
    requires
        s.inv(),
    ensures
        s.payable(),
        s.payout_refusal(id, max_len_payout) != Some(LedgerError::InvalidState),
{
    assert forall|i: int| 0 <= i < s.tokens_by_id.len() implies unique(
        (#[trigger] s.tokens_by_id[i]).1.royalty,
    ) by {
        assert(s.tokens_by_id[i].1.wf());
    }
    if has_key(s.tokens_by_id, id) {
        let p = pos(s.tokens_by_id, id);
        lemma_found(s.tokens_by_id, id, p);
        assert(s.tokens_by_id[p].1.wf());
    }
}

/// An artwork that has been minted cannot be minted again, whatever the
/// number of shares asked for: the second mint is refused with
/// `AlreadyExists`.
pub proof fn law_art_mint_twice(s: LedgerView, art_id: Id, art: ArtView, minter: Id, count: nat)
    requires
        s.inv(),
        s.art_mint_refusal(art_id, art.num_shares as nat) is None,
    ensures
        s.with_artwork(art_id, art, minter).art_mint_refusal(art_id, count) == Some(
            LedgerError::AlreadyExists,
        ),
{
    law_art_mint(s, art_id, art, minter);
}

/// Approving a delegate makes it approved, under the identifier granted and
/// under none; revoking it afterwards makes it not approved under any
/// identifier. Neither step changes whether another account is approved,
/// for this token or another.
pub proof fn law_approve_then_revoke(
    s: LedgerView,
    id: Id,
    delegate: Id,
    other_id: Id,
    other: Id,
    approval_id: Option<u64>,
)
    requires
        s.inv(),
        has_key(s.tokens_by_id, id),
        s.token(id).next_approval_id < u64::MAX,
        other != delegate || other_id != id,
    ensures
        ({
            let a = s.after_approve(id, delegate);
            let r = a.after_revoke(id, delegate);
            &&& a.inv()
            &&& r.inv()
            &&& a.approved(id, delegate, None)
            &&& a.approved(id, delegate, Some(s.token(id).next_approval_id))
            &&& !r.approved(id, delegate, approval_id)
            &&& a.approved(other_id, other, approval_id) == s.approved(
                other_id,
                other,
                approval_id,
            )
            &&& r.approved(other_id, other, approval_id) == s.approved(
                other_id,
                other,
                approval_id,
            )
        }),
{
    let t = s.token(id);
    let ta = t.approved_for(delegate);
    let a = s.after_approve(id, delegate);
    assert(t.wf()) by {
        let i = pos(s.tokens_by_id, id);
        assert(s.tokens_by_id[i].1.wf());
        lemma_found(s.tokens_by_id, id, i);
    }
    lemma_approved_for(t, delegate);
    lemma_with_token(s, id, ta);
    assert(a.token(id) == ta);
    let tr = ta.revoked(delegate);
    lemma_revoked(ta, delegate);
    lemma_with_token(a, id, tr);
    let r = a.after_revoke(id, delegate);
    assert(r.token(id) == tr);
    lemma_del(ta.approvals, delegate, delegate);
    lemma_put(t.approvals, delegate, t.next_approval_id, other);
    lemma_del(ta.approvals, delegate, other);
    if other_id != id {
        assert(a.token(other_id) == s.token(other_id));
        assert(r.token(other_id) == s.token(other_id));
    }
}

/// An approval identifier is granted once: the identifier that an approval
/// grants is held by no delegate before, and the counter moves past it.
pub proof fn law_approval_ids_fresh(t: TokenView, delegate: Id, holder: Id)
    requires
        t.wf(),
        t.next_approval_id < u64::MAX,
    ensures
        lookup(t.approvals, holder) != Some(t.next_approval_id),
        t.approved_for(delegate).next_approval_id == t.next_approval_id + 1,
        t.approved_for(delegate).wf(),
{
    lemma_approved_for(t, delegate);
    if has_key(t.approvals, holder) {
        let i = pos(t.approvals, holder);
        assert(t.approvals[i].1 < t.next_approval_id);
    }
}

/// After every approval of a token is revoked, no account is approved for
/// it under any identifier; the approval counter keeps its value, and the
/// approvals of other tokens are as they were.
pub proof fn law_revoke_all(
    s: LedgerView,
    id: Id,
    account: Id,
    approval_id: Option<u64>,
    other_id: Id,
)
    requires
        s.inv(),
        has_key(s.tokens_by_id, id),
    ensures
        s.after_revoke_all(id).inv(),
        !s.after_revoke_all(id).approved(id, account, approval_id),
        s.after_revoke_all(id).token(id).next_approval_id == s.token(id).next_approval_id,
        other_id != id ==> s.after_revoke_all(id).approved(other_id, account, approval_id)
            == s.approved(other_id, account, approval_id),
{
    let t = s.token(id);
    assert(t.wf()) by {
        let i = pos(s.tokens_by_id, id);
        assert(s.tokens_by_id[i].1.wf());
        lemma_found(s.tokens_by_id, id, i);
    }
    lemma_with_token(s, id, t.all_revoked());
    assert(s.after_revoke_all(id).token(id) == t.all_revoked());
    if other_id != id {
        assert(s.after_revoke_all(id).token(other_id) == s.token(other_id));
    }
}

/// A transfer that is not refused takes the token out of the set of its
/// owner (and it is not in the sender's set), puts it into the receiver's
/// set, makes the receiver its owner, and leaves no account approved for it
/// under any identifier. The approval counter keeps its value.
pub proof fn law_transfer(
    s: LedgerView,
    sender: Id,
    receiver: Id,
    id: Id,
    approval_id: Option<u64>,
    account: Id,
    any_approval: Option<u64>,
)
    requires
        s.inv(),
        s.transfer_refusal(sender, receiver, id, approval_id) is None,
    ensures
        ({
            let r = s.transferred(id, receiver);
            &&& r.inv()
            &&& members(s.tokens_per_owner, s.owner_of(id)).contains(id)
            &&& !members(r.tokens_per_owner, sender).contains(id)
            &&& receiver != s.owner_of(id) ==> !members(r.tokens_per_owner, s.owner_of(id)).contains(
                id,
            )
            &&& members(r.tokens_per_owner, receiver).contains(id)
            &&& account != receiver ==> !members(r.tokens_per_owner, account).contains(id)
            &&& r.owner_of(id) == receiver
            &&& !r.approved(id, account, any_approval)
            &&& r.token(id).next_approval_id == s.token(id).next_approval_id
            &&& r.token(id).royalty == s.token(id).royalty
        }),
{
    let r = s.transferred(id, receiver);
    let owner = s.owner_of(id);
    lemma_transferred(s, id, receiver);
    assert(members(r.tokens_per_owner, r.owner_of(id)).contains(id));
    assert(!members(r.tokens_per_owner, sender).contains(id)) by {
        if members(r.tokens_per_owner, sender).contains(id) {
            assert(r.owner_of(id) == sender);
        }
    }
    assert(!members(r.tokens_per_owner, owner).contains(id) || receiver == owner) by {
        if members(r.tokens_per_owner, owner).contains(id) {
            assert(r.owner_of(id) == owner);
        }
    }
    assert(account != receiver ==> !members(r.tokens_per_owner, account).contains(id)) by {
        if members(r.tokens_per_owner, account).contains(id) {
            assert(r.owner_of(id) == account);
        }
    }
    assert(!has_key(r.token(id).approvals, account));
}

/// Nothing is created and nothing is lost: a payout that is not refused
/// divides exactly the balance of the sale.
pub proof fn law_payout_total(s: LedgerView, id: Id, balance: u128, max_len_payout: u32)
    requires
        s.payout_refusal(id, max_len_payout) is None,
    ensures
        plan_total(
            s.token(id).payout_plan(balance),
            s.token(id).payout_plan(balance).len(),
        ) == balance,
{
    lemma_payout_plan_total(s.token(id), balance);
}

/// In a sound ledger every token listed under an account is shown, with
/// that account as its owner: a page of an owner's tokens has one view for
/// each identifier on the page, in the same order.
pub proof fn law_tokens_for_owner(
    s: LedgerView,
    account: Id,
    from_index: Option<u128>,
    limit: Option<u64>,
)
    requires
        s.inv(),
    ensures
        ({
            let ids = page(members(s.tokens_per_owner, account), from_index, limit);
            let r = s.tokens_shown(ids);
            &&& r.len() == ids.len()
            &&& forall|i: int|
                0 <= i < ids.len() ==> (#[trigger] r[i]).token_id == ids[i] && r[i].owner_id
                    == account && r[i] == shown(
                    ids[i],
                    s.token(ids[i]),
                    lookup(s.token_metadata_by_id, ids[i])->0,
                )
        }),
{
    let all = members(s.tokens_per_owner, account);
    let ids = page(all, from_index, limit);
    assert forall|i: int| 0 <= i < ids.len() implies has_key(s.tokens_by_id, #[trigger] ids[i])
        && s.owner_of(ids[i]) == account by {
        let j = page_start(all.len(), from_index) + i;
        assert(all[j] == ids[i]);
        assert(members(s.tokens_per_owner, account).contains(ids[i]));
    }
    lemma_all_shown(s, ids);
}

/// In a sound ledger every token is shown: a page of the ledger's tokens
/// has one view for each token on the page, in the order of minting.
pub proof fn law_tokens(s: LedgerView, from_index: Option<u128>, limit: Option<u64>)
    requires
        s.inv(),
    ensures
        ({
            let ids = page(key_seq(s.token_metadata_by_id), from_index, limit);
            let r = s.tokens_shown(ids);
            &&& key_seq(s.token_metadata_by_id) == key_seq(s.tokens_by_id)
            &&& r.len() == ids.len()
            &&& forall|i: int|
                0 <= i < ids.len() ==> #[trigger] r[i] == shown(
                    ids[i],
                    s.token(ids[i]),
                    lookup(s.token_metadata_by_id, ids[i])->0,
                )
        }),
{
    let all = key_seq(s.token_metadata_by_id);
    let ids = page(all, from_index, limit);
    assert(all =~= key_seq(s.tokens_by_id));
    assert forall|i: int| 0 <= i < ids.len() implies has_key(s.tokens_by_id, #[trigger] ids[i]) by {
        let j = page_start(all.len(), from_index) + i;
        assert(all[j] == ids[i]);
        assert(s.tokens_by_id[j].0 == ids[i]);
    }
    lemma_all_shown(s, ids);
}

/// In a sound ledger, identifiers of known tokens are all shown.
pub proof fn lemma_all_shown(s: LedgerView, ids: Seq<Id>)
    requires
        s.inv(),
        forall|i: int| 0 <= i < ids.len() ==> has_key(s.tokens_by_id, #[trigger] ids[i]),
    ensures
        s.tokens_shown(ids).len() == ids.len(),
        forall|i: int|
            0 <= i < ids.len() ==> #[trigger] s.tokens_shown(ids)[i] == shown(
                ids[i],
                s.token(ids[i]),
                lookup(s.token_metadata_by_id, ids[i])->0,
            ),
    decreases ids.len(),
{
    if ids.len() > 0 {
        let front = ids.drop_last();
        assert forall|i: int| 0 <= i < front.len() implies has_key(
            s.tokens_by_id,
            #[trigger] front[i],
        ) by {
            assert(front[i] == ids[i]);
        }
        lemma_all_shown(s, front);
        assert(has_key(s.tokens_by_id, ids[ids.len() - 1]));
        lemma_same_keys(s.token_metadata_by_id, s.tokens_by_id, ids.last());
        assert forall|i: int| 0 <= i < ids.len() implies #[trigger] s.tokens_shown(ids)[i]
            == shown(ids[i], s.token(ids[i]), lookup(s.token_metadata_by_id, ids[i])->0) by {
            if i < front.len() {
                assert(s.tokens_shown(ids)[i] == s.tokens_shown(front)[i]);
                assert(front[i] == ids[i]);
            }
        }
    }
}

} // verus!
