//! The token holdings of the accounts, as a map from account to amount. An
//! account without an entry holds nothing.

use vstd::prelude::*;

verus! {

/// The identifier of an account. The exchange never looks inside it.
pub type AccountId = u64;

/// The number of account identifiers there are: 2^64.
pub open spec fn account_space() -> nat {
    0x1_0000_0000_0000_0000
}

/// What `who` holds.
pub open spec fn holding(ledger: Map<AccountId, u128>, who: AccountId) -> nat {
    if ledger.contains_key(who) {
        ledger[who] as nat
    } else {
        0
    }
}

/// The sum of the holdings of the accounts below `bound`.
pub open spec fn total_below(ledger: Map<AccountId, u128>, bound: nat) -> nat
    decreases bound,
{
    if bound == 0 {
        0
    } else {
        total_below(ledger, (bound - 1) as nat) + holding(ledger, (bound - 1) as AccountId)
    }
}

/// The sum of all holdings.
pub open spec fn total_held(ledger: Map<AccountId, u128>) -> nat {
    total_below(ledger, account_space())
}

/// An empty ledger holds nothing below any bound.
proof fn lemma_empty_below(bound: nat)
    ensures
        total_below(Map::<AccountId, u128>::empty(), bound) == 0,
    decreases bound,
{
    if bound > 0 {
        lemma_empty_below((bound - 1) as nat);
    }
}

/// Writing one entry moves the sum below `bound` by the change of that
/// entry, where the account lies below the bound.
proof fn lemma_insert_below(
    ledger: Map<AccountId, u128>,
    who: AccountId,
    amount: u128,
    bound: nat,
)
    requires
        bound <= account_space(),
    ensures
        total_below(ledger.insert(who, amount), bound) + (if who < bound {
            holding(ledger, who)
        } else {
            0
        }) == total_below(ledger, bound) + (if who < bound {
            amount as nat
        } else {
            0
        }),
    decreases bound,
{
    if bound > 0 {
        lemma_insert_below(ledger, who, amount, (bound - 1) as nat);
    }
}

/// An empty ledger holds nothing.
pub proof fn lemma_total_of_empty()
    ensures
        total_held(Map::<AccountId, u128>::empty()) == 0,
{
    lemma_empty_below(account_space());
}

/// Writing one entry moves the total by the change of that entry.
pub proof fn lemma_total_after_insert(ledger: Map<AccountId, u128>, who: AccountId, amount: u128)
    ensures
        total_held(ledger.insert(who, amount)) + holding(ledger, who) == total_held(ledger)
            + amount,
{
    lemma_insert_below(ledger, who, amount, account_space());
}

/// No account holds more than all accounts together.
pub proof fn lemma_holding_within_total(ledger: Map<AccountId, u128>, who: AccountId)
    ensures
        holding(ledger, who) <= total_held(ledger),
{
    lemma_total_after_insert(ledger, who, 0);
}

} // verus!
