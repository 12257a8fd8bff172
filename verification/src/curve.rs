//! The four counters of a pool and the three transitions on them. A
//! transition takes the counters and the trader's holding as plain values and
//! returns the next ones, or the reason why nothing changes.

use crate::pricing::{quote_purchase, quote_sale, reserve_for_tokens, tokens_for_deposit};
use vstd::prelude::*;

verus! {

/// Why an operation was refused. A refused operation changes nothing.
#[derive(Clone, Copy, Debug, PartialEq, Eq, Structural)]
pub enum Error {
    /// A trade was asked of a pool that was never initialized.
    CurveNotInitialized,
    /// A sale asked for more tokens than the seller holds.
    InsufficientTokenBalance,
    /// A counter would exceed the 128-bit range.
    ArithmeticOverflow,
    /// A counter would fall below zero.
    ArithmeticUnderflow,
    /// The pricing formula has no result in the fixed-point range.
    PrecisionFailure,
}

/// The counters of an initialized pool.
#[derive(Clone, Copy, Debug, PartialEq, Eq, Structural)]
pub struct CurveState {
    /// Virtual token supply, never redeemable.
    pub base_supply: u128,
    /// Virtual reserve, never redeemable.
    pub base_balance: u128,
    /// Tokens minted and held by accounts.
    pub real_supply: u128,
    /// Reserve deposited into the pool.
    pub real_balance: u128,
}

/// What a trade leaves behind.
#[derive(Clone, Copy, Debug, PartialEq, Eq, Structural)]
pub struct Trade {
    /// The pool's counters after the trade.
    pub curve: CurveState,
    /// The trader's token holding after the trade.
    pub holding: u128,
    /// The tokens minted by a purchase, or the reserve returned by a sale.
    pub amount: u128,
}

impl CurveState {
    /// The pool that a reserve of `base_balance` opens: twice as many
    /// virtual tokens as virtual reserve, and nothing real.
    pub open spec fn launched_with(base_balance: u128) -> Result<CurveState, Error> {
        if base_balance * 2 <= u128::MAX {
            Ok(
                (CurveState {
                    base_supply: (base_balance * 2) as u128,
                    base_balance,
                    real_supply: 0,
                    real_balance: 0,
                }),
            )
        } else {
            Err(Error::ArithmeticOverflow)
        }
    }

    /// Virtual plus real supply: the supply that sets the price.
    pub open spec fn virtual_supply(self) -> int {
        self.base_supply + self.real_supply
    }

    /// Virtual plus real balance: the balance that sets the price.
    pub open spec fn virtual_balance(self) -> int {
        self.base_balance + self.real_balance
    }

    /// The outcome of a deposit of `vstoken` by a trader who holds `held`
    /// tokens.
    pub open spec fn after_purchase(self, held: u128, vstoken: u128) -> Result<Trade, Error> {
        if self.virtual_supply() > u128::MAX || self.virtual_balance() > u128::MAX {
            Err(Error::ArithmeticOverflow)
        } else {
            match tokens_for_deposit(
                vstoken,
                self.virtual_supply() as u128,
                self.virtual_balance() as u128,
            ) {
                None => Err(Error::PrecisionFailure),
                Some(minted) => if self.real_supply + minted > u128::MAX || self.real_balance
                    + vstoken > u128::MAX || held + minted > u128::MAX {
                    Err(Error::ArithmeticOverflow)
                } else {
                    Ok(
                        (Trade {
                            curve: (CurveState {
                                base_supply: self.base_supply,
                                base_balance: self.base_balance,
                                real_supply: (self.real_supply + minted) as u128,
                                real_balance: (self.real_balance + vstoken) as u128,
                            }),
                            holding: (held + minted) as u128,
                            amount: minted,
                        }),
                    )
                },
            }
        }
    }

    /// The outcome of a sale of `token` tokens by a trader who holds `held`.
    pub open spec fn after_sale(self, held: u128, token: u128) -> Result<Trade, Error> {
        if held < token {
            Err(Error::InsufficientTokenBalance)
        } else if self.virtual_supply() > u128::MAX || self.virtual_balance() > u128::MAX {
            Err(Error::ArithmeticOverflow)
        } else {
            match reserve_for_tokens(
                token,
                self.virtual_supply() as u128,
                self.virtual_balance() as u128,
            ) {
                None => Err(Error::PrecisionFailure),
                Some(returned) => if self.real_supply < token || self.real_balance < returned {
                    Err(Error::ArithmeticUnderflow)
                } else {
                    Ok(
                        (Trade {
                            curve: (CurveState {
                                base_supply: self.base_supply,
                                base_balance: self.base_balance,
                                real_supply: (self.real_supply - token) as u128,
                                real_balance: (self.real_balance - returned) as u128,
                            }),
                            holding: (held - token) as u128,
                            amount: returned,
                        }),
                    )
                },
            }
        }
    }

    /// Opens a pool on a reserve of `base_balance`.
    pub fn launch(base_balance: u128) -> (launched: Result<CurveState, Error>)
        ensures
            launched == Self::launched_with(base_balance),
    {
        match base_balance.checked_mul(2) {
            Some(base_supply) => Ok(
                CurveState { base_supply, base_balance, real_supply: 0, real_balance: 0 },
            ),
            None => Err(Error::ArithmeticOverflow),
        }
    }

    /// Deposits `vstoken` of the reserve for a trader who holds `held`
    /// tokens, and mints tokens at the curve's price.
    pub fn buy(&self, held: u128, vstoken: u128) -> (outcome: Result<Trade, Error>)
        ensures
            outcome == self.after_purchase(held, vstoken),
    {
        let virtual_supply = match self.base_supply.checked_add(self.real_supply) {
            Some(v) => v,
            None => { return Err(Error::ArithmeticOverflow); },
        };
        let virtual_balance = match self.base_balance.checked_add(self.real_balance) {
            Some(v) => v,
            None => { return Err(Error::ArithmeticOverflow); },
        };
        let minted = match quote_purchase(vstoken, virtual_supply, virtual_balance) {
            Some(v) => v,
            None => { return Err(Error::PrecisionFailure); },
        };
        let real_supply = match self.real_supply.checked_add(minted) {
            Some(v) => v,
            None => { return Err(Error::ArithmeticOverflow); },
        };
        let real_balance = match self.real_balance.checked_add(vstoken) {
            Some(v) => v,
            None => { return Err(Error::ArithmeticOverflow); },
        };
        let holding = match held.checked_add(minted) {
            Some(v) => v,
            None => { return Err(Error::ArithmeticOverflow); },
        };
        Ok(
            Trade {
                curve: CurveState {
                    base_supply: self.base_supply,
                    base_balance: self.base_balance,
                    real_supply,
                    real_balance,
                },
                holding,
                amount: minted,
            },
        )
    }

    /// Takes back `token` tokens from a trader who holds `held`, and returns
    /// reserve at the curve's price.
    pub fn sell(&self, held: u128, token: u128) -> (outcome: Result<Trade, Error>)
        ensures
            outcome == self.after_sale(held, token),
    {
        if held < token {
            return Err(Error::InsufficientTokenBalance);
        }
        let virtual_supply = match self.base_supply.checked_add(self.real_supply) {
            Some(v) => v,
            None => { return Err(Error::ArithmeticOverflow); },
        };
        let virtual_balance = match self.base_balance.checked_add(self.real_balance) {
            Some(v) => v,
            None => { return Err(Error::ArithmeticOverflow); },
        };
        let returned = match quote_sale(token, virtual_supply, virtual_balance) {
            Some(v) => v,
            None => { return Err(Error::PrecisionFailure); },
        };
        let real_supply = match self.real_supply.checked_sub(token) {
            Some(v) => v,
            None => { return Err(Error::ArithmeticUnderflow); },
        };
        let real_balance = match self.real_balance.checked_sub(returned) {
            Some(v) => v,
            None => { return Err(Error::ArithmeticUnderflow); },
        };
        Ok(
            Trade {
                curve: CurveState {
                    base_supply: self.base_supply,
                    base_balance: self.base_balance,
                    real_supply,
                    real_balance,
                },
                holding: held - token,
                amount: returned,
            },
        )
    }
}

/// Initialization of a pool that may exist already: an existing pool is
/// left alone, which `Ok(None)` says; otherwise a pool is launched.
pub open spec fn initialized(
    existing: Option<CurveState>,
    base_balance: u128,
) -> Result<Option<CurveState>, Error> {
    match existing {
        Some(_) => Ok(None),
        None => match CurveState::launched_with(base_balance) {
            Ok(curve) => Ok(Some(curve)),
            Err(error) => Err(error),
        },
    }
}

/// A deposit into a pool that may not exist yet.
pub open spec fn purchased(
    existing: Option<CurveState>,
    held: u128,
    vstoken: u128,
) -> Result<Trade, Error> {
    match existing {
        Some(curve) => curve.after_purchase(held, vstoken),
        None => Err(Error::CurveNotInitialized),
    }
}

/// A sale to a pool that may not exist yet.
pub open spec fn sold(
    existing: Option<CurveState>,
    held: u128,
    token: u128,
) -> Result<Trade, Error> {
    match existing {
        Some(curve) => curve.after_sale(held, token),
        None => Err(Error::CurveNotInitialized),
    }
}

/// Initializes the pool unless it exists. Returns the new pool, or `None`
/// where there was one already.
pub fn initialize(
    existing: Option<CurveState>,
    base_balance: u128,
) -> (outcome: Result<Option<CurveState>, Error>)
    ensures
        outcome == initialized(existing, base_balance),
{
    if existing.is_some() {
        return Ok(None);
    }
    match CurveState::launch(base_balance) {
        Ok(curve) => Ok(Some(curve)),
        Err(error) => Err(error),
    }
}

/// Buys from the pool, if it exists.
pub fn purchase(
    existing: Option<CurveState>,
    held: u128,
    vstoken: u128,
) -> (outcome: Result<Trade, Error>)
    ensures
        outcome == purchased(existing, held, vstoken),
{
    match existing {
        Some(curve) => curve.buy(held, vstoken),
        None => Err(Error::CurveNotInitialized),
    }
}

/// Sells to the pool, if it exists.
pub fn sale(
    existing: Option<CurveState>,
    held: u128,
    token: u128,
) -> (outcome: Result<Trade, Error>)
    ensures
        outcome == sold(existing, held, token),
{
    match existing {
        Some(curve) => curve.sell(held, token),
        None => Err(Error::CurveNotInitialized),
    }
}

} // verus!
