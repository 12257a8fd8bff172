//! The exchange as a state machine: the pool's counters, if it has been
//! initialized, and the ledger of token holdings, with one transition for
//! each operation. A transition gives the next state and what the caller is
//! told: the notification to emit, or the reason for the refusal.

use crate::curve::{initialized, purchased, sold, CurveState, Error};
use crate::ledger::{
    holding, lemma_holding_within_total, lemma_total_after_insert, lemma_total_of_empty,
    total_held, AccountId,
};
use crate::pricing::{lemma_purchase_is_monotone, root_for_deposit};
use vstd::prelude::*;

verus! {

/// A notification of a transition that took place.
#[derive(Clone, Copy, Debug, PartialEq, Eq, Structural)]
pub enum Event {
    /// The pool was initialized: base supply, base balance, caller.
    CurveInitialized(u128, u128, AccountId),
    /// Reserve was deposited: deposited reserve, minted tokens, caller.
    TokenPurchased(u128, u128, AccountId),
    /// Tokens were given back: sold tokens, returned reserve, caller.
    TokenSold(u128, u128, AccountId),
}

/// The state of the exchange.
#[verifier::ext_equal]
pub struct Exchange {
    /// The pool's counters, once it is initialized.
    pub curve: Option<CurveState>,
    /// The token holding of each account that has an entry.
    pub ledger: Map<AccountId, u128>,
}

/// One call of an operation, with its caller and its amount.
pub enum Call {
    /// Initialize the pool on a reserve.
    Initialize(AccountId, u128),
    /// Deposit reserve for tokens.
    Buy(AccountId, u128),
    /// Give tokens back for reserve.
    Sell(AccountId, u128),
}

impl Exchange {
    /// The exchange before anything has happened.
    pub open spec fn fresh() -> Exchange {
        Exchange { curve: None, ledger: Map::empty() }
    }

    /// Every minted token is in the ledger and every token in the ledger was
    /// minted; the base supply is twice the base balance; and before the
    /// pool is initialized nobody holds anything.
    pub open spec fn consistent(self) -> bool {
        match self.curve {
            Some(curve) => curve.real_supply == total_held(self.ledger) && curve.base_supply == 2
                * curve.base_balance,
            None => self.ledger == Map::<AccountId, u128>::empty(),
        }
    }

    /// Initialization by `who` on a reserve of `base_balance`. An
    /// initialized pool stays as it is, and nothing is emitted.
    pub open spec fn initialized_by(
        self,
        who: AccountId,
        base_balance: u128,
    ) -> (Exchange, Result<Option<Event>, Error>) {
        match initialized(self.curve, base_balance) {
            Ok(Some(curve)) => (
                Exchange { curve: Some(curve), ledger: self.ledger },
                Ok(Some(Event::CurveInitialized(curve.base_supply, curve.base_balance, who))),
            ),
            Ok(None) => (self, Ok(None)),
            Err(error) => (self, Err(error)),
        }
    }

    /// A deposit of `vstoken` by `who`.
    pub open spec fn purchase_by(
        self,
        who: AccountId,
        vstoken: u128,
    ) -> (Exchange, Result<Event, Error>) {
        match purchased(self.curve, holding(self.ledger, who) as u128, vstoken) {
            Ok(trade) => (
                Exchange {
                    curve: Some(trade.curve),
                    ledger: self.ledger.insert(who, trade.holding),
                },
                Ok(Event::TokenPurchased(vstoken, trade.amount, who)),
            ),
            Err(error) => (self, Err(error)),
        }
    }

    /// A sale of `token` tokens by `who`.
    pub open spec fn sale_by(
        self,
        who: AccountId,
        token: u128,
    ) -> (Exchange, Result<Event, Error>) {
        match sold(self.curve, holding(self.ledger, who) as u128, token) {
            Ok(trade) => (
                Exchange {
                    curve: Some(trade.curve),
                    ledger: self.ledger.insert(who, trade.holding),
                },
                Ok(Event::TokenSold(token, trade.amount, who)),
            ),
            Err(error) => (self, Err(error)),
        }
    }

    /// The state after one call.
    pub open spec fn after(self, call: Call) -> Exchange {
        match call {
            Call::Initialize(who, base_balance) => self.initialized_by(who, base_balance).0,
            Call::Buy(who, vstoken) => self.purchase_by(who, vstoken).0,
            Call::Sell(who, token) => self.sale_by(who, token).0,
        }
    }

    /// The state after a sequence of calls, the first call first.
    pub open spec fn after_all(self, calls: Seq<Call>) -> Exchange
        decreases calls.len(),
    {
        if calls.len() == 0 {
            self
        } else {
            self.after_all(calls.drop_last()).after(calls.last())
        }
    }
}

/// One call keeps a consistent exchange consistent.
pub proof fn lemma_call_keeps_consistent(state: Exchange, call: Call)
    requires
        state.consistent(),
    ensures
        state.after(call).consistent(),
{
    match call {
        Call::Initialize(_, _) => {
            lemma_total_of_empty();
        },
        Call::Buy(who, vstoken) => {
            if state.purchase_by(who, vstoken).1 is Ok {
                let trade = purchased(state.curve, holding(state.ledger, who) as u128, vstoken)->Ok_0;
                lemma_total_after_insert(state.ledger, who, trade.holding);
            }
        },
        Call::Sell(who, token) => {
            if state.sale_by(who, token).1 is Ok {
                let trade = sold(state.curve, holding(state.ledger, who) as u128, token)->Ok_0;
                lemma_total_after_insert(state.ledger, who, trade.holding);
            }
        },
    }
}

/// Conservation: after any sequence of calls on a fresh exchange, the real
/// supply of an initialized pool is the sum of all holdings in the ledger.
pub proof fn lemma_conservation(calls: Seq<Call>)
    ensures
        Exchange::fresh().after_all(calls).consistent(),
        Exchange::fresh().after_all(calls).curve matches Some(curve) ==> curve.real_supply
            == total_held(Exchange::fresh().after_all(calls).ledger),
    decreases calls.len(),
{
    if calls.len() > 0 {
        lemma_conservation(calls.drop_last());
        lemma_call_keeps_consistent(Exchange::fresh().after_all(calls.drop_last()), calls.last());
    }
}

/// In a consistent exchange nobody holds more than the real supply, so a
/// sale that the seller's holding covers never draws the supply below zero.
pub proof fn lemma_holding_within_supply(state: Exchange, who: AccountId)
    requires
        state.consistent(),
        state.curve is Some,
    ensures
        holding(state.ledger, who) <= state.curve->Some_0.real_supply,
{
    lemma_holding_within_total(state.ledger, who);
}

/// Initialization counts once: after a first initialization that succeeded,
/// a second one, whatever its arguments, changes nothing and emits nothing.
pub proof fn lemma_initialization_counts_once(
    state: Exchange,
    first: AccountId,
    first_balance: u128,
    second: AccountId,
    second_balance: u128,
)
    requires
        state.initialized_by(first, first_balance).1 is Ok,
    ensures
        state.initialized_by(first, first_balance).0.initialized_by(second, second_balance) == (
            state.initialized_by(first, first_balance).0,
            Ok::<Option<Event>, Error>(None),
        ),
{
}

/// The base counters are set once: no call changes them on an initialized
/// pool, and no call takes a pool back to the state before initialization.
pub proof fn lemma_base_is_fixed(state: Exchange, calls: Seq<Call>)
    requires
        state.curve is Some,
    ensures
        state.after_all(calls).curve matches Some(curve) && curve.base_supply
            == state.curve->Some_0.base_supply && curve.base_balance
            == state.curve->Some_0.base_balance,
    decreases calls.len(),
{
    if calls.len() > 0 {
        lemma_base_is_fixed(state, calls.drop_last());
    }
}

/// A sale of more tokens than the seller holds is refused for want of
/// tokens, and the state stays as it is.
pub proof fn lemma_sale_beyond_holding(state: Exchange, who: AccountId, token: u128)
    requires
        state.curve is Some,
        holding(state.ledger, who) < token,
    ensures
        state.sale_by(who, token) == (state, Err::<Event, Error>(Error::InsufficientTokenBalance)),
{
}

/// Before initialization every trade is refused, and the state stays as it
/// is: no pool and no ledger entry is created.
pub proof fn lemma_trade_before_initialization(state: Exchange, who: AccountId, amount: u128)
    requires
        state.curve is None,
    ensures
        state.purchase_by(who, amount) == (state, Err::<Event, Error>(Error::CurveNotInitialized)),
        state.sale_by(who, amount) == (state, Err::<Event, Error>(Error::CurveNotInitialized)),
{
}

/// Monotonicity: of two purchases that start from one state, the one with
/// the larger deposit mints at least as many tokens, wherever the square
/// root found for it is not below the one found for the smaller deposit.
pub proof fn lemma_larger_purchase_mints_no_less(
    state: Exchange,
    who: AccountId,
    smaller: u128,
    larger: u128,
    minted_smaller: u128,
    minted_larger: u128,
)
    requires
        smaller <= larger,
        state.purchase_by(who, smaller).1 == Ok::<Event, Error>(
            Event::TokenPurchased(smaller, minted_smaller, who),
        ),
        state.purchase_by(who, larger).1 == Ok::<Event, Error>(
            Event::TokenPurchased(larger, minted_larger, who),
        ),
        root_for_deposit(smaller, state.curve->Some_0.virtual_balance() as u128)
            <= root_for_deposit(larger, state.curve->Some_0.virtual_balance() as u128),
    ensures
        minted_smaller <= minted_larger,
{
    let curve = state.curve->Some_0;
    lemma_purchase_is_monotone(
        smaller,
        larger,
        curve.virtual_supply() as u128,
        curve.virtual_balance() as u128,
    );
}

/// A refused call changes nothing.
pub proof fn lemma_refusal_changes_nothing(state: Exchange, who: AccountId, amount: u128)
    ensures
        state.initialized_by(who, amount).1 is Err ==> state.initialized_by(who, amount).0
            == state,
        state.purchase_by(who, amount).1 is Err ==> state.purchase_by(who, amount).0 == state,
        state.sale_by(who, amount).1 is Err ==> state.sale_by(who, amount).0 == state,
{
}

} // verus!
