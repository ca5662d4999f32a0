//! Delegation: granting, checking and withdrawing the right to move a token.

use crate::assoc::{del, has_key, lemma_del, lemma_found, lemma_put, pos, put, unique, Id};
use crate::error::LedgerError;
use crate::ledger::{Contract, LedgerView};
use crate::token::{Token, TokenView};
use vstd::prelude::*;
use vstd::utf8::encode_utf8;

verus! {

/// The bytes that one approval adds to a token record: the delegate's
/// identifier, its length prefix, and the approval identifier.
pub open spec fn approval_bytes(account: Id) -> nat {
    encode_utf8(account).len() + 4 + 8
}

/// The bytes that an approval for `account_id` adds to a token record.
pub fn bytes_for_approved_account_id(account_id: &String) -> (bytes: u128)
    ensures
        bytes == approval_bytes(account_id@),
{
    let len: usize = account_id.as_str().as_bytes().len();
    len as u128 + 4 + 8
}

impl TokenView {
    /// The record after `delegate` is granted the next approval identifier.
    /// A delegate that was approved before keeps its place and gets the new
    /// identifier; the counter advances either way.
    pub open spec fn approved_for(self, delegate: Id) -> TokenView {
        TokenView {
            approvals: put(self.approvals, delegate, self.next_approval_id),
            next_approval_id: (self.next_approval_id + 1) as u64,
            ..self
        }
    }

    /// The record after `delegate` loses its approval, if it had one.
    pub open spec fn revoked(self, delegate: Id) -> TokenView {
        TokenView { approvals: del(self.approvals, delegate), ..self }
    }

    /// The record after every delegate loses its approval. The counter stays.
    pub open spec fn all_revoked(self) -> TokenView {
        TokenView { approvals: Seq::empty(), ..self }
    }
}

/// Granting an approval keeps the record well formed.
pub proof fn lemma_approved_for(t: TokenView, delegate: Id)
    requires
        t.wf(),
        t.next_approval_id < u64::MAX,
    ensures
        t.approved_for(delegate).wf(),
        t.approved_for(delegate).approves(delegate, Some(t.next_approval_id)),
        t.approved_for(delegate).approves(delegate, None),
{
    let r = t.approved_for(delegate);
    lemma_put(t.approvals, delegate, t.next_approval_id, delegate);
    let at = if has_key(t.approvals, delegate) {
        pos(t.approvals, delegate)
    } else {
        t.approvals.len() as int
    };
    assert forall|i: int| 0 <= i < r.approvals.len() implies (#[trigger] r.approvals[i]).1
        < r.next_approval_id by {
        if i != at {
            assert(r.approvals[i] == t.approvals[i]);
        }
    }
}

/// Withdrawing an approval keeps the record well formed.
pub proof fn lemma_revoked(t: TokenView, delegate: Id)
    requires
        t.wf(),
    ensures
        t.revoked(delegate).wf(),
{
    let r = t.revoked(delegate);
    lemma_del(t.approvals, delegate, delegate);
    if has_key(t.approvals, delegate) {
        let at = pos(t.approvals, delegate);
        assert forall|i: int| 0 <= i < r.approvals.len() implies (#[trigger] r.approvals[i]).1
            < r.next_approval_id by {
            assert(r.approvals[i] == t.approvals[if i < at {
                i
            } else {
                i + 1
            }]);
        }
    }
}

impl Token {
    /// Whether `account_id` is a delegate of this token, under the approval
    /// `approval_id` if one is given.
    pub fn is_approved(&self, account_id: &String, approval_id: Option<u64>) -> (b: bool)
        requires
            unique(self@.approvals),
        ensures
            b == self@.approves(account_id@, approval_id),
    {
        match self.approved_account_ids.get(account_id) {
            Some(stored) => match approval_id {
                Some(wanted) => *stored == wanted,
                None => true,
            },
            None => false,
        }
    }

    /// Grants `account_id` the next approval identifier and returns it.
    pub fn approve(&mut self, account_id: &String) -> (id: u64)
        requires
            old(self)@.wf(),
            old(self).next_approval_id < u64::MAX,
        ensures
            final(self)@ == old(self)@.approved_for(account_id@),
            final(self)@.wf(),
            id == old(self).next_approval_id,
    {
        proof {
            lemma_approved_for(self@, account_id@);
        }
        let id = self.next_approval_id;
        self.approved_account_ids.insert(account_id.clone(), id);
        self.next_approval_id = id + 1;
        id
    }

    /// Withdraws the approval of `account_id`; says whether it had one.
    pub fn revoke(&mut self, account_id: &String) -> (had: bool)
        requires
            old(self)@.wf(),
        ensures
            final(self)@ == old(self)@.revoked(account_id@),
            final(self)@.wf(),
            had == has_key(old(self)@.approvals, account_id@),
    {
        proof {
            lemma_revoked(self@, account_id@);
        }
        self.approved_account_ids.remove(account_id).is_some()
    }

    /// Withdraws every approval. The approval counter keeps its value.
    pub fn revoke_all(&mut self)
        requires
            old(self)@.wf(),
        ensures
            final(self)@ == old(self)@.all_revoked(),
            final(self)@.wf(),
    {
        self.approved_account_ids.clear();
    }
}

impl LedgerView {
    /// Whether `account` may move the token `id`, under the approval
    /// `approval_id` if one is given.
    pub open spec fn approved(self, id: Id, account: Id, approval_id: Option<u64>) -> bool {
        has_key(self.tokens_by_id, id) && self.token(id).approves(account, approval_id)
    }

    /// The ledger after `delegate` is approved for the token `id`.
    pub open spec fn after_approve(self, id: Id, delegate: Id) -> LedgerView {
        self.with_token(id, self.token(id).approved_for(delegate))
    }

    /// The ledger after `delegate` loses its approval for the token `id`.
    pub open spec fn after_revoke(self, id: Id, delegate: Id) -> LedgerView {
        self.with_token(id, self.token(id).revoked(delegate))
    }

    /// The ledger after every delegate loses its approval for the token `id`.
    pub open spec fn after_revoke_all(self, id: Id) -> LedgerView {
        self.with_token(id, self.token(id).all_revoked())
    }

    /// Why `caller` may not change the approvals of the token `id`, if so:
    /// the token is unknown, or the caller does not own it.
    pub open spec fn owner_refusal(self, caller: Id, id: Id) -> Option<LedgerError> {
        if !has_key(self.tokens_by_id, id) {
            Some(LedgerError::NotFound)
        } else if caller != self.owner_of(id) {
            Some(LedgerError::Unauthorized)
        } else {
            None
        }
    }

    /// Why the approval of `delegate` for the token `id` is refused, if it
    /// is. A new delegate must be paid for: the attached deposit has to cover
    /// the bytes that its entry adds, at the given price per byte.
    pub open spec fn approve_refusal(
        self,
        caller: Id,
        id: Id,
        delegate: Id,
        attached_deposit: u128,
        storage_byte_cost: u128,
    ) -> Option<LedgerError> {
        if self.owner_refusal(caller, id) is Some {
            self.owner_refusal(caller, id)
        } else if self.token(id).next_approval_id == u64::MAX {
            Some(LedgerError::InvalidState)
        } else if !has_key(self.token(id).approvals, delegate) && attached_deposit
            < approval_bytes(delegate) * storage_byte_cost {
            Some(LedgerError::InsufficientDeposit)
        } else {
            None
        }
    }
}

impl Contract {
    /// Finds the token `token_id` and checks that `caller_id` owns it.
    fn owned_token(&self, caller_id: &String, token_id: &String) -> (r: Result<
        usize,
        LedgerError,
    >)
        requires
            self@.wf(),
        ensures
            match self@.owner_refusal(caller_id@, token_id@) {
                Some(e) => r == Err::<usize, LedgerError>(e),
                None => r is Ok && r->Ok_0 == pos(self@.tokens_by_id, token_id@) && r->Ok_0
                    < self@.tokens_by_id.len() && self@.tokens_by_id[r->Ok_0 as int] == (
                    token_id@,
                    self@.token(token_id@),
                ),
            },
    {
        match self.tokens_by_id.find(token_id) {
            Some(i) => {
                proof {
                    lemma_found(self@.tokens_by_id, token_id@, i as int);
                }
                if *caller_id == self.tokens_by_id.value_at(i).owner_id {
                    Ok(i)
                } else {
                    Err(LedgerError::Unauthorized)
                }
            },
            None => Err(LedgerError::NotFound),
        }
    }

    /// Lets `account_id` move the token `token_id` on the owner's behalf.
    ///
    /// Refused with `NotFound` when the token is unknown, else with
    /// `Unauthorized` when `caller_id` does not own it, else with
    /// `InvalidState` when the approval counter cannot advance, else with
    /// `InsufficientDeposit` when the delegate is new and `attached_deposit`
    /// does not cover its entry at `storage_byte_cost` per byte. On success
    /// the delegate holds the approval identifier that is returned, and the
    /// counter has advanced by one.
    pub fn nft_approve(
        &mut self,
        caller_id: &String,
        token_id: &String,
        account_id: &String,
        attached_deposit: u128,
        storage_byte_cost: u128,
    ) -> (r: Result<u64, LedgerError>)
        requires
            old(self)@.inv(),
        ensures
            final(self)@.inv(),
            match old(self)@.approve_refusal(
                caller_id@,
                token_id@,
                account_id@,
                attached_deposit,
                storage_byte_cost,
            ) {
                Some(e) => r == Err::<u64, LedgerError>(e) && *final(self) == *old(self),
                None => r == Ok::<u64, LedgerError>(old(self)@.token(token_id@).next_approval_id)
                    && final(self)@ == old(self)@.after_approve(token_id@, account_id@),
            },
    {
        let i = match self.owned_token(caller_id, token_id) {
            Ok(i) => i,
            Err(e) => {
                return Err(e);
            },
        };
        let current = self.tokens_by_id.value_at(i);
        if current.next_approval_id == u64::MAX {
            return Err(LedgerError::InvalidState);
        }
        if !current.approved_account_ids.contains_key(account_id) {
            let bytes = bytes_for_approved_account_id(account_id);
            match bytes.checked_mul(storage_byte_cost) {
                Some(cost) => {
                    if attached_deposit < cost {
                        return Err(LedgerError::InsufficientDeposit);
                    }
                },
                None => {
                    return Err(LedgerError::InsufficientDeposit);
                },
            }
        }
        let mut token = self.tokens_by_id.value_at(i).duplicate();
        let id = token.approve(account_id);
        self.update_token(i, token);
        Ok(id)
    }

    /// Withdraws the approval of `account_id` for the token `token_id`.
    ///
    /// Refused with `NotFound` when the token is unknown, else with
    /// `Unauthorized` when `caller_id` does not own it. Withdrawing an
    /// approval that was never granted succeeds and changes nothing.
    pub fn nft_revoke(&mut self, caller_id: &String, token_id: &String, account_id: &String) -> (r:
        Result<(), LedgerError>)
        requires
            old(self)@.inv(),
        ensures
            final(self)@.inv(),
            match old(self)@.owner_refusal(caller_id@, token_id@) {
                Some(e) => r == Err::<(), LedgerError>(e) && *final(self) == *old(self),
                None => r is Ok && final(self)@ == old(self)@.after_revoke(
                    token_id@,
                    account_id@,
                ),
            },
    {
        let i = match self.owned_token(caller_id, token_id) {
            Ok(i) => i,
            Err(e) => {
                return Err(e);
            },
        };
        let mut token = self.tokens_by_id.value_at(i).duplicate();
        token.revoke(account_id);
        self.update_token(i, token);
        Ok(())
    }

    /// Withdraws every approval for the token `token_id`.
    ///
    /// Refused with `NotFound` when the token is unknown, else with
    /// `Unauthorized` when `caller_id` does not own it.
    pub fn nft_revoke_all(&mut self, caller_id: &String, token_id: &String) -> (r: Result<
        (),
        LedgerError,
    >)
        requires
            old(self)@.inv(),
        ensures
            final(self)@.inv(),
            match old(self)@.owner_refusal(caller_id@, token_id@) {
                Some(e) => r == Err::<(), LedgerError>(e) && *final(self) == *old(self),
                None => r is Ok && final(self)@ == old(self)@.after_revoke_all(token_id@),
            },
    {
        let i = match self.owned_token(caller_id, token_id) {
            Ok(i) => i,
            Err(e) => {
                return Err(e);
            },
        };
        let mut token = self.tokens_by_id.value_at(i).duplicate();
        token.revoke_all();
        self.update_token(i, token);
        Ok(())
    }

    /// Whether `approved_account_id` may move the token `token_id`, under
    /// the approval `approval_id` if one is given. Fails with `NotFound`
    /// when the token is unknown.
    pub fn nft_is_approved(
        &self,
        token_id: &String,
        approved_account_id: &String,
        approval_id: Option<u64>,
    ) -> (r: Result<bool, LedgerError>)
        requires
            self@.wf(),
        ensures
            r == (if has_key(self@.tokens_by_id, token_id@) {
                Ok::<bool, LedgerError>(
                    self@.approved(token_id@, approved_account_id@, approval_id),
                )
            } else {
                Err::<bool, LedgerError>(LedgerError::NotFound)
            }),
    {
        match self.tokens_by_id.find(token_id) {
            Some(i) => {
                proof {
                    lemma_found(self@.tokens_by_id, token_id@, i as int);
                }
                Ok(self.tokens_by_id.value_at(i).is_approved(approved_account_id, approval_id))
            },
            None => Err(LedgerError::NotFound),
        }
    }
}

} // verus!
