//! The exchange that runs: it owns the pool's counters and the ledger, and
//! each operation either applies one transition as a whole or changes
//! nothing.

use crate::curve::{initialize, purchase, sale, CurveState, Error};
use crate::exchange::{Event, Exchange};
use crate::ledger::{holding, lemma_total_after_insert, lemma_total_of_empty, AccountId};
use std::collections::HashMap;
use vstd::prelude::*;

verus! {

/// The exchange: the pool, once initialized, and the token ledger.
pub struct Pallet {
    curve: Option<CurveState>,
    ledger: HashMap<AccountId, u128>,
}

impl View for Pallet {
    type V = Exchange;

    closed spec fn view(&self) -> Exchange {
        Exchange { curve: self.curve, ledger: self.ledger@ }
    }
}

impl Pallet {
    /// The exchange accounts for every token: see `Exchange::consistent`.
    pub open spec fn wf(&self) -> bool {
        self@.consistent()
    }

    /// An exchange whose pool is not initialized and whose ledger is empty.
    pub fn new() -> (pallet: Pallet)
        ensures
            pallet@ == Exchange::fresh(),
            pallet.wf(),
    {
        Pallet { curve: None, ledger: HashMap::new() }
    }

    /// The pool's counters, or `None` before initialization.
    pub fn curve(&self) -> (curve: Option<CurveState>)
        ensures
            curve == self@.curve,
    {
        self.curve
    }

    /// The tokens that `who` holds.
    pub fn balance_of(&self, who: AccountId) -> (balance: u128)
        ensures
            balance == holding(self@.ledger, who),
    {
        match self.ledger.get(&who) {
            Some(amount) => *amount,
            None => 0,
        }
    }

    /// Initializes the pool on a reserve of `base_balance`, with twice as
    /// many virtual tokens. On an initialized pool this does nothing and
    /// returns `Ok(None)`.
    pub fn base_init(
        &mut self,
        who: AccountId,
        base_balance: u128,
    ) -> (result: Result<Option<Event>, Error>)
        requires
            old(self).wf(),
        ensures
            final(self).wf(),
            (final(self)@, result) == old(self)@.initialized_by(who, base_balance),
            old(self)@.curve is Some ==> final(self)@ == old(self)@ && result == Ok::<
                Option<Event>,
                Error,
            >(None),
            result is Err ==> final(self)@ == old(self)@,
    {
        match initialize(self.curve, base_balance) {
            Ok(Some(curve)) => {
                proof {
                    lemma_total_of_empty();
                }
                self.curve = Some(curve);
                Ok(Some(Event::CurveInitialized(curve.base_supply, curve.base_balance, who)))
            },
            Ok(None) => Ok(None),
            Err(error) => Err(error),
        }
    }

    /// Deposits `vstoken` of the reserve for `who` and credits the minted
    /// tokens to `who`.
    pub fn vstoken_buy_token(
        &mut self,
        who: AccountId,
        vstoken: u128,
    ) -> (result: Result<Event, Error>)
        requires
            old(self).wf(),
        ensures
            final(self).wf(),
            (final(self)@, result) == old(self)@.purchase_by(who, vstoken),
            old(self)@.curve is None ==> result == Err::<Event, Error>(
                Error::CurveNotInitialized,
            ),
            result is Err ==> final(self)@ == old(self)@,
    {
        let held = self.balance_of(who);
        match purchase(self.curve, held, vstoken) {
            Ok(trade) => {
                proof {
                    lemma_total_after_insert(self.ledger@, who, trade.holding);
                }
                self.curve = Some(trade.curve);
                self.ledger.insert(who, trade.holding);
                Ok(Event::TokenPurchased(vstoken, trade.amount, who))
            },
            Err(error) => Err(error),
        }
    }

    /// Takes `token` tokens from `who` and returns reserve for them.
    pub fn token_buy_vstoken(
        &mut self,
        who: AccountId,
        token: u128,
    ) -> (result: Result<Event, Error>)
        requires
            old(self).wf(),
        ensures
            final(self).wf(),
            (final(self)@, result) == old(self)@.sale_by(who, token),
            old(self)@.curve is None ==> result == Err::<Event, Error>(
                Error::CurveNotInitialized,
            ),
            old(self)@.curve is Some && holding(old(self)@.ledger, who) < token ==> result
                == Err::<Event, Error>(Error::InsufficientTokenBalance),
            result is Err ==> final(self)@ == old(self)@,
    {
        let held = self.balance_of(who);
        match sale(self.curve, held, token) {
            Ok(trade) => {
                proof {
                    lemma_total_after_insert(self.ledger@, who, trade.holding);
                }
                self.curve = Some(trade.curve);
                self.ledger.insert(who, trade.holding);
                Ok(Event::TokenSold(token, trade.amount, who))
            },
            Err(error) => Err(error),
        }
    }
}

} // verus!
