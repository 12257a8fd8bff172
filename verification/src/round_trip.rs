//! What a purchase that is sold back at once can return.

use crate::curve::Error;
use crate::exchange::{Event, Exchange};
use crate::fixed::ONE;
use crate::ledger::AccountId;
use crate::pricing::{
    balance_drop, growth_operand, lemma_sale_bounds, minted_for_root, reserve_for_tokens,
    root_for_deposit, share_of_supply,
};
use vstd::prelude::*;

verus! {

/// The pattern `root_bits` is at least one and its square is not above the
/// operand: it does not exceed the true square root.
pub open spec fn root_not_above(root_bits: i128, operand: i128) -> bool {
    ONE <= root_bits && root_bits * root_bits <= operand * ONE
}

/// What the sale of the tokens minted for `amount` returns, when it follows
/// the purchase at once. The purchase is priced with the square root
/// `root_bits`.
pub open spec fn round_trip(
    amount: u128,
    virtual_supply: u128,
    virtual_balance: u128,
    root_bits: i128,
) -> Option<u128> {
    match minted_for_root(root_bits, virtual_supply) {
        Some(minted) => if virtual_supply + minted <= u128::MAX && virtual_balance + amount
            <= u128::MAX {
            reserve_for_tokens(
                minted,
                (virtual_supply + minted) as u128,
                (virtual_balance + amount) as u128,
            )
        } else {
            None
        },
        None => None,
    }
}

/// The supply after the purchase, scaled, is at most the old supply times
/// the root.
proof fn lemma_supply_after_purchase(root_bits: int, supply: int, minted: int)
    requires
        ONE <= root_bits,
        0 <= supply,
        minted == ((root_bits - ONE) * supply) / (ONE as int),
    ensures
        0 <= minted,
        (supply + minted) * ONE <= root_bits * supply,
{
    let one = ONE as int;
    let growth = root_bits - one;
    assert(0 <= minted && minted * one <= growth * supply) by (nonlinear_arith)
        requires
            minted == (growth * supply) / one,
            one > 0,
            growth >= 0,
            supply >= 0,
    ;
    assert((supply + minted) * one <= root_bits * supply) by (nonlinear_arith)
        requires
            minted * one <= growth * supply,
            growth == root_bits - one,
    ;
}

/// The part of the supply that a sale leaves, times the root of the
/// purchase before it, is at least one.
proof fn lemma_rest_times_root(root_bits: int, supply: int, minted: int, rest: int)
    requires
        ONE <= root_bits,
        0 < supply,
        0 <= minted,
        (supply + minted) * ONE <= root_bits * supply,
        rest == ONE - (minted * ONE) / (supply + minted),
    ensures
        0 <= rest,
        rest * root_bits >= ONE * ONE,
{
    let one = ONE as int;
    let after = supply + minted;
    let share = (minted * one) / after;
    assert(0 <= share && share * after <= minted * one) by (nonlinear_arith)
        requires
            share == (minted * one) / after,
            after > 0,
            minted >= 0,
            one > 0,
    ;
    assert(rest * after >= one * supply) by (nonlinear_arith)
        requires
            rest == one - share,
            share * after <= minted * one,
            after == supply + minted,
    ;
    assert(rest >= 0) by (nonlinear_arith)
        requires
            rest * after >= one * supply,
            after > 0,
            one * supply >= 0,
    ;
    assert(rest * (root_bits * supply) >= rest * (after * one)) by (nonlinear_arith)
        requires
            rest >= 0,
            after * one <= root_bits * supply,
    ;
    assert((rest * after) * one >= (one * supply) * one) by (nonlinear_arith)
        requires
            rest * after >= one * supply,
            one > 0,
    ;
    assert((rest * root_bits) * supply >= (one * one) * supply) by (nonlinear_arith)
        requires
            rest * (root_bits * supply) >= rest * (after * one),
            (rest * after) * one >= (one * supply) * one,
    ;
    assert(rest * root_bits >= one * one) by (nonlinear_arith)
        requires
            (rest * root_bits) * supply >= (one * one) * supply,
            supply > 0,
    ;
}

/// The square of what the sale leaves, times the balance after the
/// purchase, is at least the balance before it.
proof fn lemma_square_times_balance(
    root_bits: int,
    operand: int,
    rest: int,
    amount: int,
    balance: int,
)
    requires
        0 <= rest,
        0 <= root_bits,
        rest * root_bits >= ONE * ONE,
        root_bits * root_bits <= operand * ONE,
        0 <= amount,
        0 < balance,
        operand == ONE + (amount * ONE) / balance,
    ensures
        (rest * rest) * (balance + amount) >= (ONE * ONE) * balance,
{
    let one = ONE as int;
    let both = rest * root_bits;
    let unit = one * one;
    let square = rest * rest;
    assert(both * both >= unit * unit) by (nonlinear_arith)
        requires
            both >= unit,
            unit >= 0,
    ;
    assert(square * (root_bits * root_bits) == both * both) by (nonlinear_arith)
        requires
            square == rest * rest,
            both == rest * root_bits,
    ;
    assert(square * (operand * one) >= square * (root_bits * root_bits)) by (nonlinear_arith)
        requires
            square >= 0,
            root_bits * root_bits <= operand * one,
    ;
    assert((square * operand) * one >= (unit * one) * one) by (nonlinear_arith)
        requires
            square * (operand * one) >= unit * unit,
            unit == one * one,
    ;
    assert(square * operand >= unit * one) by (nonlinear_arith)
        requires
            (square * operand) * one >= (unit * one) * one,
            one > 0,
    ;
    let ratio = (amount * one) / balance;
    assert(ratio * balance <= amount * one) by (nonlinear_arith)
        requires
            ratio == (amount * one) / balance,
            balance > 0,
    ;
    assert(operand * balance <= one * (balance + amount)) by (nonlinear_arith)
        requires
            operand == one + ratio,
            ratio * balance <= amount * one,
    ;
    assert(square * (one * (balance + amount)) >= square * (operand * balance))
        by (nonlinear_arith)
        requires
            square >= 0,
            operand * balance <= one * (balance + amount),
    ;
    assert((square * operand) * balance >= (unit * one) * balance) by (nonlinear_arith)
        requires
            square * operand >= unit * one,
            balance > 0,
    ;
    assert((square * (balance + amount)) * one >= (unit * balance) * one) by (nonlinear_arith)
        requires
            square * (one * (balance + amount)) >= square * (operand * balance),
            (square * operand) * balance >= (unit * one) * balance,
    ;
    assert(square * (balance + amount) >= unit * balance) by (nonlinear_arith)
        requires
            (square * (balance + amount)) * one >= (unit * balance) * one,
            one > 0,
    ;
}

/// From the bound on the square to the reserve that comes back.
proof fn lemma_returned_within_deposit(rest: int, amount: int, balance: int, returned: int)
    requires
        0 <= amount,
        0 < balance,
        balance + amount < ONE,
        (rest * rest) * (balance + amount) >= (ONE * ONE) * balance,
        returned == ((ONE - (rest * rest) / (ONE as int)) * (balance + amount)) / (ONE as int),
    ensures
        returned <= amount,
{
    let one = ONE as int;
    let after = balance + amount;
    let square = rest * rest;
    let kept = square / one;
    assert(kept * one + one > square) by (nonlinear_arith)
        requires
            kept == square / one,
            one > 0,
    ;
    assert((kept * one + one) * after > square * after) by (nonlinear_arith)
        requires
            kept * one + one > square,
            after > 0,
    ;
    assert(kept * after > one * (balance - 1)) by (nonlinear_arith)
        requires
            (kept * one + one) * after > square * after,
            square * after >= (one * one) * balance,
            after < one,
            one > 0,
    ;
    let drop = one - kept;
    assert(drop * after < one * (amount + 1)) by (nonlinear_arith)
        requires
            drop == one - kept,
            kept * after > one * (balance - 1),
            after == balance + amount,
    ;
    assert(returned <= amount) by (nonlinear_arith)
        requires
            returned == (drop * after) / one,
            drop * after < one * (amount + 1),
            one > 0,
    ;
}

/// A round trip gains nothing: where the square root that priced a purchase
/// does not exceed the true one, selling the minted tokens back at once
/// returns at most the reserve that was deposited.
pub proof fn lemma_round_trip_gains_nothing(
    amount: u128,
    virtual_supply: u128,
    virtual_balance: u128,
    root_bits: i128,
)
    requires
        growth_operand(amount, virtual_balance) matches Some(operand) && root_not_above(
            root_bits,
            operand,
        ),
        round_trip(amount, virtual_supply, virtual_balance, root_bits) is Some,
    ensures
        round_trip(amount, virtual_supply, virtual_balance, root_bits)->Some_0 <= amount,
{
    let one = ONE as int;
    let operand = growth_operand(amount, virtual_balance)->Some_0;
    let minted = minted_for_root(root_bits, virtual_supply)->Some_0;
    let supply_after = (virtual_supply + minted) as u128;
    let balance_after = (virtual_balance + amount) as u128;
    let returned = reserve_for_tokens(minted, supply_after, balance_after)->Some_0;
    let share = share_of_supply(minted, supply_after);
    let rest = one - share;
    lemma_supply_after_purchase(root_bits as int, virtual_supply as int, minted as int);
    if virtual_supply == 0 {
        assert(((root_bits - ONE) * 0) / one == 0) by (nonlinear_arith)
            requires
                one > 0,
        ;
        assert(false);
    }
    lemma_rest_times_root(root_bits as int, virtual_supply as int, minted as int, rest);
    lemma_square_times_balance(
        root_bits as int,
        operand as int,
        rest,
        amount as int,
        virtual_balance as int,
    );
    assert(balance_drop(share) == one - (rest * rest) / one);
    lemma_sale_bounds(minted, supply_after, balance_after);
    assert(0 <= (balance_drop(share) * balance_after) / one) by (nonlinear_arith)
        requires
            0 <= balance_drop(share) * balance_after,
            one > 0,
    ;
    assert((balance_drop(share) * balance_after) / one <= balance_drop(share) * balance_after)
        by (nonlinear_arith)
        requires
            0 <= balance_drop(share) * balance_after,
            one > 0,
    ;
    lemma_returned_within_deposit(rest, amount as int, virtual_balance as int, returned as int);
}

/// The same of the exchange: where `who` deposits `amount`, is credited
/// `minted` tokens and sells them back in the next call, and the square root
/// that priced the purchase does not exceed the true one, the sale returns at
/// most `amount`.
pub proof fn lemma_buy_then_sell_gains_nothing(
    state: Exchange,
    who: AccountId,
    amount: u128,
    minted: u128,
    returned: u128,
)
    requires
        state.purchase_by(who, amount).1 == Ok::<Event, Error>(
            Event::TokenPurchased(amount, minted, who),
        ),
        state.purchase_by(who, amount).0.sale_by(who, minted).1 == Ok::<Event, Error>(
            Event::TokenSold(minted, returned, who),
        ),
        root_not_above(
            root_for_deposit(amount, state.curve->Some_0.virtual_balance() as u128),
            growth_operand(amount, state.curve->Some_0.virtual_balance() as u128)->Some_0,
        ),
    ensures
        returned <= amount,
{
    let curve = state.curve->Some_0;
    lemma_round_trip_gains_nothing(
        amount,
        curve.virtual_supply() as u128,
        curve.virtual_balance() as u128,
        root_for_deposit(amount, curve.virtual_balance() as u128),
    );
}

} // verus!
