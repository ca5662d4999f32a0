//! Royalties: how the proceeds of a sale are divided.

use crate::assoc::{has_key, lemma_found, pos, unique, Id};
use crate::error::LedgerError;
use crate::id_map::IdMap;
use crate::ledger::{Contract, LedgerView};
use crate::token::{total_basis_points, total_bps, TokenView, FULL_BASIS_POINTS};
use vstd::arithmetic::div_mod::lemma_hoist_over_denominator;
use vstd::prelude::*;

verus! {

/// Who is paid how much when a token is sold.
#[derive(Debug, Clone, PartialEq, Eq)]
pub struct Payout {
    pub payout: IdMap<u128>,
}

/// The part of `balance` that a share of `bps` basis points is worth,
/// rounded down.
pub open spec fn royalty_amount(balance: nat, bps: nat) -> nat {
    balance * bps / 10000
}

/// The sum of what the first `n` recipients are paid out of `balance`.
pub open spec fn distributed(royalty: Seq<(Id, u32)>, balance: nat, n: nat) -> nat
    decreases n,
{
    if n == 0 {
        0
    } else {
        distributed(royalty, balance, (n - 1) as nat) + royalty_amount(
            balance,
            royalty[n - 1].1 as nat,
        )
    }
}

/// What the first `n` recipients are paid out of `balance`, in their order.
pub open spec fn royalty_shares(royalty: Seq<(Id, u32)>, balance: nat, n: nat) -> Seq<(Id, u128)> {
    Seq::new(n, |i: int| (royalty[i].0, royalty_amount(balance, royalty[i].1 as nat) as u128))
}

/// `plan` with `amount` more for `account`: added to its entry if it has
/// one, a new entry at the end otherwise.
pub open spec fn credited(plan: Seq<(Id, u128)>, account: Id, amount: nat) -> Seq<(Id, u128)> {
    if has_key(plan, account) {
        plan.update(
            pos(plan, account),
            (account, (plan[pos(plan, account)].1 + amount) as u128),
        )
    } else {
        plan.push((account, amount as u128))
    }
}

/// The sum of the first `n` amounts of `plan`.
pub open spec fn plan_total(plan: Seq<(Id, u128)>, n: nat) -> nat
    decreases n,
{
    if n == 0 {
        0
    } else {
        plan_total(plan, (n - 1) as nat) + plan[n - 1].1 as nat
    }
}

impl TokenView {
    /// How a sale of `balance` is divided: every royalty recipient gets its
    /// share, rounded down, and the owner gets what is left.
    pub open spec fn payout_plan(self, balance: u128) -> Seq<(Id, u128)> {
        credited(
            royalty_shares(self.royalty, balance as nat, self.royalty.len()),
            self.owner_id,
            (balance - distributed(self.royalty, balance as nat, self.royalty.len())) as nat,
        )
    }
}

impl LedgerView {
    /// What a payout needs of the ledger: no token is stored twice, and no
    /// token names a royalty recipient twice. Every sound ledger is so.
    pub open spec fn payable(self) -> bool {
        &&& unique(self.tokens_by_id)
        &&& forall|i: int|
            0 <= i < self.tokens_by_id.len() ==> unique((#[trigger] self.tokens_by_id[i]).1.royalty)
    }

    /// Why the payout for the token `id` is refused, if it is.
    pub open spec fn payout_refusal(self, id: Id, max_len_payout: u32) -> Option<LedgerError> {
        if !has_key(self.tokens_by_id, id) {
            Some(LedgerError::NotFound)
        } else if self.token(id).royalty.len() + 1 > max_len_payout {
            Some(LedgerError::PayoutTooLarge)
        } else if total_bps(self.token(id).royalty, self.token(id).royalty.len())
            > FULL_BASIS_POINTS {
            Some(LedgerError::InvalidState)
        } else {
            None
        }
    }
}

/// Shares never add up to more than their basis points allow: ten thousand
/// times what is distributed is at most the balance times the basis points.
pub proof fn lemma_distributed_bound(royalty: Seq<(Id, u32)>, balance: nat, n: nat)
    requires
        n <= royalty.len(),
    ensures
        distributed(royalty, balance, n) * 10000 <= balance * total_bps(royalty, n),
    decreases n,
{
    if n > 0 {
        lemma_distributed_bound(royalty, balance, (n - 1) as nat);
        let bps = royalty[n - 1].1 as nat;
        let d = distributed(royalty, balance, (n - 1) as nat);
        let t = total_bps(royalty, (n - 1) as nat);
        assert((balance * bps / 10000) * 10000 <= balance * bps) by (nonlinear_arith);
        assert(balance * (t + bps) == balance * t + balance * bps) by (nonlinear_arith);
        assert((d + balance * bps / 10000) * 10000 == d * 10000 + (balance * bps / 10000) * 10000)
            by (nonlinear_arith);
    }
}

/// While the basis points stay within the whole, what is distributed stays
/// within the balance.
pub proof fn lemma_distributed_within(royalty: Seq<(Id, u32)>, balance: nat, n: nat, m: nat)
    requires
        n <= m <= royalty.len(),
        total_bps(royalty, m) <= 10000,
    ensures
        distributed(royalty, balance, n) <= distributed(royalty, balance, m) <= balance,
        total_bps(royalty, n) <= total_bps(royalty, m),
    decreases m - n,
{
    lemma_distributed_bound(royalty, balance, m);
    let d = distributed(royalty, balance, m);
    let t = total_bps(royalty, m);
    assert(d <= balance) by (nonlinear_arith)
        requires
            d * 10000 <= balance * t,
            t <= 10000,
    ;
    if n < m {
        lemma_distributed_within(royalty, balance, n, (m - 1) as nat);
    }
}

/// The amounts of the royalty shares add up to what is distributed.
pub proof fn lemma_shares_total(royalty: Seq<(Id, u32)>, balance: nat, len: nat, n: nat)
    requires
        n <= len <= royalty.len(),
        total_bps(royalty, len) <= 10000,
        balance <= u128::MAX,
    ensures
        plan_total(royalty_shares(royalty, balance, len), n) == distributed(royalty, balance, n),
        n > 0 ==> royalty_shares(royalty, balance, len)[n - 1].1 == royalty_amount(
            balance,
            royalty[n - 1].1 as nat,
        ),
    decreases n,
{
    if n > 0 {
        lemma_shares_total(royalty, balance, len, (n - 1) as nat);
        lemma_distributed_within(royalty, balance, n, len);
    }
}

/// Changing one amount of a plan changes its total by as much.
pub proof fn lemma_plan_total_update(plan: Seq<(Id, u128)>, at: int, entry: (Id, u128), n: nat)
    requires
        0 <= at < plan.len(),
        n <= plan.len(),
    ensures
        plan_total(plan.update(at, entry), n) == if at < n {
            plan_total(plan, n) - plan[at].1 + entry.1
        } else {
            plan_total(plan, n) as int
        },
    decreases n,
{
    if n > 0 {
        lemma_plan_total_update(plan, at, entry, (n - 1) as nat);
    }
}

/// A longer plan has the same total over its first entries.
pub proof fn lemma_plan_total_push(plan: Seq<(Id, u128)>, entry: (Id, u128), n: nat)
    requires
        n <= plan.len(),
    ensures
        plan_total(plan.push(entry), n) == plan_total(plan, n),
    decreases n,
{
    if n > 0 {
        lemma_plan_total_push(plan, entry, (n - 1) as nat);
    }
}

/// Every amount of a plan is at most the plan's total.
pub proof fn lemma_plan_entry_bound(plan: Seq<(Id, u128)>, at: int, n: nat)
    requires
        0 <= at < n <= plan.len(),
    ensures
        plan[at].1 <= plan_total(plan, n),
    decreases n,
{
    if at < n - 1 {
        lemma_plan_entry_bound(plan, at, (n - 1) as nat);
    }
}

/// Nothing is created and nothing is lost: while the basis points stay
/// within the whole, the amounts of the payout plan add up to the balance.
pub proof fn lemma_payout_plan_total(t: TokenView, balance: u128)
    requires
        total_bps(t.royalty, t.royalty.len()) <= FULL_BASIS_POINTS,
    ensures
        plan_total(t.payout_plan(balance), t.payout_plan(balance).len()) == balance,
{
    let n = t.royalty.len();
    let shares = royalty_shares(t.royalty, balance as nat, n);
    let paid = distributed(t.royalty, balance as nat, n);
    let rest = (balance - paid) as nat;
    lemma_shares_total(t.royalty, balance as nat, n, n);
    lemma_distributed_within(t.royalty, balance as nat, n, n);
    if has_key(shares, t.owner_id) {
        let at = pos(shares, t.owner_id);
        lemma_plan_entry_bound(shares, at, n);
        lemma_plan_total_update(shares, at, (t.owner_id, (shares[at].1 + rest) as u128), n);
    } else {
        lemma_plan_total_push(shares, (t.owner_id, rest as u128), n);
    }
}

/// The part of `amount_to_pay` that a share of `royalty_percentage` basis
/// points is worth, rounded down. No intermediate value leaves `u128`.
pub fn royalty_to_payout(royalty_percentage: u32, amount_to_pay: u128) -> (amount: u128)
    requires
        royalty_percentage <= FULL_BASIS_POINTS,
    ensures
        amount == royalty_amount(amount_to_pay as nat, royalty_percentage as nat),
        amount <= amount_to_pay,
{
    let whole: u128 = amount_to_pay / 10000;
    let part: u128 = amount_to_pay % 10000;
    let bps: u128 = royalty_percentage as u128;
    proof {
        let w = whole as int;
        let p = part as int;
        let b = bps as int;
        assert(amount_to_pay as int == w * 10000 + p);
        assert(w * b <= w * 10000) by (nonlinear_arith)
            requires
                0 <= w,
                0 <= b <= 10000,
        ;
        assert(p * b <= p * 10000 && 0 <= p * b) by (nonlinear_arith)
            requires
                0 <= p,
                0 <= b <= 10000,
        ;
        assert(p * b / 10000 <= p);
        lemma_hoist_over_denominator(p * b, w * b, 10000);
        assert((w * 10000 + p) * b == p * b + (w * b) * 10000) by (nonlinear_arith);
    }
    whole * bps + part * bps / 10000
}

impl Contract {
    /// How a sale of the token `token_id` for `balance` is divided.
    ///
    /// Refused with `NotFound` when the token is unknown, else with
    /// `PayoutTooLarge` when the royalty recipients and the owner are more
    /// than `max_len_payout`, else with `InvalidState` when the royalties
    /// add up to more than the whole. On success every royalty recipient is
    /// listed with its share, rounded down, in the order of the royalty map,
    /// and the owner with what is left: added to its royalty share if it has
    /// one, at the end otherwise. The ledger is not changed.
    ///
    /// In a sound ledger the royalties never exceed the whole; the test is
    /// made all the same, for a ledger that was not made by these operations.
    pub fn nft_payout(&self, token_id: &String, balance: u128, max_len_payout: u32) -> (r: Result<
        Payout,
        LedgerError,
    >)
        requires
            self@.payable(),
        ensures
            match self@.payout_refusal(token_id@, max_len_payout) {
                Some(e) => r == Err::<Payout, LedgerError>(e),
                None => r is Ok && r->Ok_0.payout@ == self@.token(token_id@).payout_plan(balance)
                    && unique(r->Ok_0.payout@),
            },
    {
        let i = match self.tokens_by_id.find(token_id) {
            Some(i) => i,
            None => {
                return Err(LedgerError::NotFound);
            },
        };
        proof {
            lemma_found(self@.tokens_by_id, token_id@, i as int);
        }
        let token = self.tokens_by_id.value_at(i);
        let ghost royalty = token@.royalty;
        let n = token.royalty.len();
        assert(unique(royalty));
        if n >= max_len_payout as usize {
            return Err(LedgerError::PayoutTooLarge);
        }
        if total_basis_points(&token.royalty) > FULL_BASIS_POINTS as u128 {
            return Err(LedgerError::InvalidState);
        }
        let mut plan: IdMap<u128> = IdMap::new();
        let mut paid: u128 = 0;
        let mut k: usize = 0;
        while k < n
            invariant
                k <= n,
                n == royalty.len(),
                royalty == token.royalty@,
                unique(royalty),
                total_bps(royalty, n as nat) <= 10000,
                plan@ == royalty_shares(royalty, balance as nat, k as nat),
                paid == distributed(royalty, balance as nat, k as nat),
            decreases n - k,
        {
            proof {
                lemma_distributed_within(royalty, balance as nat, (k + 1) as nat, n as nat);
                lemma_bps_entry_bound(royalty, k as int, n as nat);
                assert(!has_key(plan@, royalty[k as int].0)) by {
                    if has_key(plan@, royalty[k as int].0) {
                        let j = pos(plan@, royalty[k as int].0);
                        assert(royalty[j].0 != royalty[k as int].0);
                    }
                }
            }
            let amount = royalty_to_payout(*token.royalty.value_at(k), balance);
            plan.insert(token.royalty.key_at(k).clone(), amount);
            paid = paid + amount;
            k += 1;
            assert(plan@ =~= royalty_shares(royalty, balance as nat, k as nat));
        }
        proof {
            lemma_distributed_within(royalty, balance as nat, n as nat, n as nat);
            lemma_shares_total(royalty, balance as nat, n as nat, n as nat);
        }
        let rest: u128 = balance - paid;
        match plan.find(&token.owner_id) {
            Some(at) => {
                proof {
                    lemma_found(plan@, token@.owner_id, at as int);
                    lemma_plan_entry_bound(plan@, at as int, n as nat);
                }
                let share = *plan.value_at(at);
                plan.replace_at(at, share + rest);
            },
            None => {
                plan.insert(token.owner_id.clone(), rest);
            },
        }
        Ok(Payout { payout: plan })
    }
}

/// Every recipient's basis points are at most the sum of them all.
pub proof fn lemma_bps_entry_bound(royalty: Seq<(Id, u32)>, at: int, n: nat)
    requires
        0 <= at < n <= royalty.len(),
    ensures
        royalty[at].1 <= total_bps(royalty, n),
    decreases n,
{
    if at < n - 1 {
        lemma_bps_entry_bound(royalty, at, (n - 1) as nat);
    }
}

} // verus!
