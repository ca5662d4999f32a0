//! Transfer: moving a token to a new owner.

use crate::assoc::{has_key, lemma_found, lookup, pos, put, Id};
use crate::error::LedgerError;
use crate::events::NftTransferLog;
use crate::id_map::IdMap;
use crate::ledger::{
    lemma_own_add, lemma_own_remove, lemma_token_replaced, members, own_add, own_remove, Contract,
    LedgerView,
};
use crate::metadata::text_of;
use crate::token::{Token, TokenView};
use vstd::prelude::*;

verus! {

impl TokenView {
    /// The record after the token goes to `receiver`: a new owner and no
    /// delegates. The approval counter and the royalties stay.
    pub open spec fn handed_to(self, receiver: Id) -> TokenView {
        TokenView { owner_id: receiver, approvals: Seq::empty(), ..self }
    }
}

impl LedgerView {
    /// Why the transfer of the token `id` by `sender` to `receiver` is
    /// refused, if it is. The sender must be the owner, or a delegate whose
    /// approval matches `approval_id` where one is given; and nobody
    /// transfers to oneself.
    pub open spec fn transfer_refusal(
        self,
        sender: Id,
        receiver: Id,
        id: Id,
        approval_id: Option<u64>,
    ) -> Option<LedgerError> {
        if !has_key(self.tokens_by_id, id) {
            Some(LedgerError::NotFound)
        } else if sender != self.owner_of(id) && !self.token(id).approves(sender, approval_id) {
            Some(LedgerError::Unauthorized)
        } else if sender == receiver {
            Some(LedgerError::InvalidInput)
        } else {
            None
        }
    }

    /// The ledger after the token `id` goes from its owner to `receiver`.
    pub open spec fn transferred(self, id: Id, receiver: Id) -> LedgerView {
        LedgerView {
            tokens_by_id: put(self.tokens_by_id, id, self.token(id).handed_to(receiver)),
            tokens_per_owner: own_add(
                own_remove(self.tokens_per_owner, self.owner_of(id), id),
                receiver,
                id,
            ),
            ..self
        }
    }
}

/// Handing a known token to a new owner keeps the ledger sound, and changes
/// the record of that token only.
pub proof fn lemma_transferred(s: LedgerView, id: Id, receiver: Id)
    requires
        s.inv(),
        has_key(s.tokens_by_id, id),
    ensures
        s.transferred(id, receiver).inv(),
        s.transferred(id, receiver).tokens_by_id == s.tokens_by_id.update(
            pos(s.tokens_by_id, id),
            (id, s.token(id).handed_to(receiver)),
        ),
        s.transferred(id, receiver).token(id) == s.token(id).handed_to(receiver),
        forall|x: Id|
            has_key(#[trigger] s.transferred(id, receiver).tokens_by_id, x) == has_key(
                s.tokens_by_id,
                x,
            ),
        forall|x: Id|
            x != id ==> lookup(#[trigger] s.transferred(id, receiver).tokens_by_id, x) == lookup(
                s.tokens_by_id,
                x,
            ),
{
    let r = s.transferred(id, receiver);
    let old_owner = s.owner_of(id);
    let token = s.token(id).handed_to(receiver);
    let at = pos(s.tokens_by_id, id);
    let mid = own_remove(s.tokens_per_owner, old_owner, id);
    assert(s.tokens_by_id[at].1.wf());
    lemma_found(s.tokens_by_id, id, at);
    lemma_token_replaced(s, r, id, token);
    lemma_own_remove(s.tokens_per_owner, old_owner, id, id, id);
    lemma_own_add(mid, receiver, id, id, id);
    assert forall|x: Id| #[trigger] has_key(r.tokens_by_id, x) implies members(
        r.tokens_per_owner,
        r.owner_of(x),
    ).contains(x) by {
        lemma_own_remove(s.tokens_per_owner, old_owner, id, r.owner_of(x), x);
        lemma_own_add(mid, receiver, id, r.owner_of(x), x);
        assert(has_key(s.tokens_by_id, x));
    }
    assert forall|a: Id, x: Id| #[trigger]
        members(r.tokens_per_owner, a).contains(x) implies has_key(r.tokens_by_id, x)
        && r.owner_of(x) == a by {
        lemma_own_remove(s.tokens_per_owner, old_owner, id, a, x);
        lemma_own_add(mid, receiver, id, a, x);
        if members(s.tokens_per_owner, a).contains(x) {
            assert(has_key(s.tokens_by_id, x));
        }
    }
}

impl Contract {
    /// Moves the token `token_id` to `receiver_id` on the word of
    /// `sender_id`.
    ///
    /// Refused with `NotFound` when the token is unknown, else with
    /// `Unauthorized` when the sender is neither the owner nor a delegate
    /// whose approval matches `approval_id` (any approval, where none is
    /// given), else with `InvalidInput` when sender and receiver are the
    /// same account. On success the token leaves its owner's set and joins
    /// the receiver's, the receiver owns it, and it has no delegates; its
    /// approval counter keeps its value. The record of the transfer is
    /// returned.
    pub fn internal_transfer(
        &mut self,
        sender_id: &String,
        receiver_id: &String,
        token_id: &String,
        approval_id: Option<u64>,
        memo: Option<String>,
    ) -> (r: Result<NftTransferLog, LedgerError>)
        requires
            old(self)@.inv(),
        ensures
            final(self)@.inv(),
            match old(self)@.transfer_refusal(sender_id@, receiver_id@, token_id@, approval_id) {
                Some(e) => r == Err::<NftTransferLog, LedgerError>(e) && *final(self) == *old(
                    self,
                ),
                None => r is Ok && r->Ok_0.records(
                    sender_id@,
                    old(self)@.owner_of(token_id@),
                    receiver_id@,
                    token_id@,
                    text_of(memo),
                ) && final(self)@ == old(self)@.transferred(token_id@, receiver_id@),
            },
    {
        let i = match self.tokens_by_id.find(token_id) {
            Some(i) => i,
            None => {
                return Err(LedgerError::NotFound);
            },
        };
        proof {
            lemma_found(self@.tokens_by_id, token_id@, i as int);
            lemma_transferred(self@, token_id@, receiver_id@);
        }
        let current = self.tokens_by_id.value_at(i);
        let by_owner = *sender_id == current.owner_id;
        if !by_owner && !current.is_approved(sender_id, approval_id) {
            return Err(LedgerError::Unauthorized);
        }
        if *sender_id == *receiver_id {
            return Err(LedgerError::InvalidInput);
        }
        let old_owner = current.owner_id.clone();
        let token = Token {
            owner_id: receiver_id.clone(),
            approved_account_ids: IdMap::new(),
            next_approval_id: current.next_approval_id,
            royalty: current.royalty.duplicate(),
        };
        let _ = self.internal_remove_token_from_owner(&old_owner, token_id);
        self.internal_add_token_to_owner(receiver_id, token_id);
        self.put_token(i, token);
        assert(self@.tokens_by_id =~= old(self)@.transferred(token_id@, receiver_id@).tokens_by_id);
        let mut token_ids: Vec<String> = Vec::new();
        token_ids.push(token_id.clone());
        let authorized_id = if by_owner {
            None
        } else {
            Some(sender_id.clone())
        };
        Ok(
            NftTransferLog {
                authorized_id,
                old_owner_id: old_owner,
                new_owner_id: receiver_id.clone(),
                token_ids,
                memo,
            },
        )
    }
}

} // verus!
