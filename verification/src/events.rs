//! The records that the ledger hands out for the event log.

use crate::assoc::Id;
use crate::metadata::text_of;
use vstd::prelude::*;

verus! {

/// One mint: who received which tokens.
#[derive(Debug, Clone, PartialEq, Eq)]
pub struct NftMintLog {
    pub owner_id: String,
    pub token_ids: Vec<String>,
    pub memo: Option<String>,
}

impl NftMintLog {
    /// The record says that `owner` received the single token `token`.
    pub open spec fn records(self, owner: Id, token: Id) -> bool {
        &&& self.owner_id@ == owner
        &&& self.token_ids@.len() == 1
        &&& self.token_ids@[0]@ == token
        &&& self.memo is None
    }

    /// The record of the mint of `token_id` for `owner_id`.
    pub fn single(owner_id: &String, token_id: &String) -> (log: NftMintLog)
        ensures
            log.records(owner_id@, token_id@),
    {
        let mut token_ids: Vec<String> = Vec::new();
        token_ids.push(token_id.clone());
        NftMintLog { owner_id: owner_id.clone(), token_ids, memo: None }
    }
}

/// One transfer: which tokens went from whom to whom, and on whose word.
#[derive(Debug, Clone, PartialEq, Eq)]
pub struct NftTransferLog {
    /// The delegate that moved the tokens, when it was not the owner.
    pub authorized_id: Option<String>,
    pub old_owner_id: String,
    pub new_owner_id: String,
    pub token_ids: Vec<String>,
    pub memo: Option<String>,
}

impl NftTransferLog {
    /// The record says that the single token `token` went from `old_owner`
    /// to `new_owner`, moved by `sender`, with the note `memo`.
    pub open spec fn records(
        self,
        sender: Id,
        old_owner: Id,
        new_owner: Id,
        token: Id,
        memo: Option<Seq<char>>,
    ) -> bool {
        &&& text_of(self.authorized_id) == (if sender == old_owner {
            None
        } else {
            Some(sender)
        })
        &&& self.old_owner_id@ == old_owner
        &&& self.new_owner_id@ == new_owner
        &&& self.token_ids@.len() == 1
        &&& self.token_ids@[0]@ == token
        &&& text_of(self.memo) == memo
    }
}

} // verus!
