//! A ledger that splits an artwork into a fixed number of share tokens,
//! tracks who owns and who may move each token, and computes royalty payouts.
//!
//! The state is an explicit value, [`ledger::Contract`]; its mathematical
//! model is [`ledger::LedgerView`]. Every operation says in its contract
//! which model it leaves behind, reports a refusal as an
//! [`error::LedgerError`], and leaves the state as it was when it refuses.
//!
//! - [`mint`]: minting a single token, or an artwork with all its shares;
//! - [`approval`]: granting, checking and withdrawing delegations;
//! - [`transfer`]: moving a token to a new owner;
//! - [`royalty`]: dividing the proceeds of a sale;
//! - [`enumeration`]: listing tokens, page by page;
//! - [`sound`]: checking a state that came from storage;
//! - [`laws`]: what holds across operations, proved over the model.

pub mod approval;
pub mod assoc;
pub mod decimal;
pub mod enumeration;
pub mod error;
pub mod events;
pub mod id_map;
pub mod laws;
pub mod ledger;
pub mod metadata;
pub mod mint;
pub mod royalty;
pub mod sound;
pub mod token;
pub mod token_set;
pub mod transfer;
