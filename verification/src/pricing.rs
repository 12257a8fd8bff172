//! The two pricing formulas of a curve with connector weight one half.
//!
//! A deposit of `x` into a pool whose virtual balance is `b` and whose
//! virtual supply is `s` mints `(sqrt(1 + x / b) - 1) * s` tokens. Giving
//! back `t` tokens returns `(1 - (1 - t / s)^2) * b` of the reserve. Both are
//! computed on fixed-point patterns and rounded down to whole units.

use crate::fixed::{
    checked_difference, checked_product, checked_promote, checked_quotient, checked_root,
    checked_sum, checked_truncate, root, INT_LIMIT, ONE,
};
use vstd::arithmetic::div_mod::{
    lemma_div_is_ordered, lemma_div_multiples_vanish, lemma_div_multiples_vanish_quotient,
};
use vstd::prelude::*;

verus! {

/// The pattern of `1 + amount / virtual_balance`, the number whose square
/// root a purchase needs. There is none for an empty pool, for an integer
/// from 2^63 on, or where the sum leaves the fixed-point range.
pub open spec fn growth_operand(amount: u128, virtual_balance: u128) -> Option<i128> {
    let ratio = (amount * ONE) / (virtual_balance as int);
    if amount < INT_LIMIT && 0 < virtual_balance < INT_LIMIT && ONE + ratio <= i128::MAX {
        Some((ONE + ratio) as i128)
    } else {
        None
    }
}

/// The tokens minted for a square root with pattern `root_bits`:
/// `(root - 1) * virtual_supply`, rounded down. There is none for a root
/// below one, for a supply from 2^63 on, or where the product leaves the
/// fixed-point range.
pub open spec fn minted_for_root(root_bits: i128, virtual_supply: u128) -> Option<u128> {
    let minted_bits = (root_bits - ONE) * virtual_supply;
    if root_bits >= ONE && virtual_supply < INT_LIMIT && minted_bits <= i128::MAX {
        Some((minted_bits / (ONE as int)) as u128)
    } else {
        None
    }
}

/// The tokens minted for a deposit of `amount`.
pub open spec fn tokens_for_deposit(
    amount: u128,
    virtual_supply: u128,
    virtual_balance: u128,
) -> Option<u128> {
    match growth_operand(amount, virtual_balance) {
        Some(operand) => match root(operand) {
            Some(root_bits) => minted_for_root(root_bits, virtual_supply),
            None => None,
        },
        None => None,
    }
}

/// The share of the supply that `token_amount` makes up, as a pattern.
pub open spec fn share_of_supply(token_amount: u128, virtual_supply: u128) -> int {
    (token_amount * ONE) / (virtual_supply as int)
}

/// The pattern of `1 - (1 - share)^2` for a share of at most one.
pub open spec fn balance_drop(share: int) -> int {
    ONE - ((ONE - share) * (ONE - share)) / (ONE as int)
}

/// The reserve returned for `token_amount` tokens, rounded down. There is
/// none for an empty supply, for more tokens than the supply holds, or for a
/// supply or balance from 2^63 on.
pub open spec fn reserve_for_tokens(
    token_amount: u128,
    virtual_supply: u128,
    virtual_balance: u128,
) -> Option<u128> {
    let drop = balance_drop(share_of_supply(token_amount, virtual_supply));
    if 0 < virtual_supply < INT_LIMIT && virtual_balance < INT_LIMIT && token_amount
        <= virtual_supply {
        Some(((drop * virtual_balance) / (ONE as int)) as u128)
    } else {
        None
    }
}

/// A quotient of two promoted integers is the quotient of the integers,
/// scaled.
proof fn lemma_promoted_quotient(n: u128, d: u128)
    requires
        n < INT_LIMIT,
        0 < d < INT_LIMIT,
    ensures
        ((n * ONE) * ONE) / (d * ONE) == (n * ONE) / (d as int),
        0 <= (n * ONE) / (d as int) <= n * ONE,
        n * ONE < 0x8000_0000_0000_0000_0000_0000_0000_0000,
        d * ONE < 0x8000_0000_0000_0000_0000_0000_0000_0000,
{
    let one = ONE as int;
    lemma_div_multiples_vanish_quotient(one, n * one, d as int);
    assert(((n * ONE) * ONE) == one * (n * one)) by (nonlinear_arith)
        requires
            one == ONE,
    ;
    assert(d * ONE == one * (d as int)) by (nonlinear_arith)
        requires
            one == ONE,
    ;
    assert(0 <= (n * one) / (d as int) <= n * one) by (nonlinear_arith)
        requires
            0 <= n * one,
            0 < d,
    ;
}

/// A pattern times a promoted integer is the plain product.
proof fn lemma_product_with_promoted(a: int, n: u128)
    ensures
        (a * (n * ONE)) / (ONE as int) == a * n,
{
    let one = ONE as int;
    assert(a * (n * ONE) == (a * n) * one) by (nonlinear_arith)
        requires
            one == ONE,
    ;
    lemma_div_multiples_vanish(a * n, one);
    assert((a * n) * one == one * (a * n)) by (nonlinear_arith);
}

/// The bounds that keep every step of a sale inside the fixed-point range.
pub proof fn lemma_sale_bounds(token_amount: u128, virtual_supply: u128, virtual_balance: u128)
    requires
        0 < virtual_supply < INT_LIMIT,
        virtual_balance < INT_LIMIT,
        token_amount <= virtual_supply,
    ensures
        0 <= share_of_supply(token_amount, virtual_supply) <= ONE,
        0 <= balance_drop(share_of_supply(token_amount, virtual_supply)) <= ONE,
        0 <= balance_drop(share_of_supply(token_amount, virtual_supply)) * virtual_balance
            < 0x8000_0000_0000_0000_0000_0000_0000_0000,
{
    let one = ONE as int;
    let share = share_of_supply(token_amount, virtual_supply);
    assert(0 <= share <= one) by (nonlinear_arith)
        requires
            share == (token_amount * one) / (virtual_supply as int),
            0 < virtual_supply,
            token_amount <= virtual_supply,
            one > 0,
    ;
    let rest = one - share;
    assert(0 <= (rest * rest) / one <= one) by (nonlinear_arith)
        requires
            0 <= rest <= one,
            one > 0,
    ;
    let drop = balance_drop(share);
    assert(0 <= drop * virtual_balance <= one * virtual_balance) by (nonlinear_arith)
        requires
            0 <= drop <= one,
            0 <= virtual_balance,
    ;
}

/// Computes `1 + amount / virtual_balance` for a purchase.
pub fn deposit_operand(amount: u128, virtual_balance: u128) -> (operand: Option<i128>)
    ensures
        operand == growth_operand(amount, virtual_balance),
        operand matches Some(bits) ==> bits >= ONE,
{
    let amount_fixed = match checked_promote(amount) {
        Some(v) => v,
        None => { return None; },
    };
    let balance_fixed = match checked_promote(virtual_balance) {
        Some(v) => v,
        None => { return None; },
    };
    proof {
        if virtual_balance > 0 {
            lemma_promoted_quotient(amount, virtual_balance);
        }
    }
    let ratio = match checked_quotient(amount_fixed, balance_fixed) {
        Some(v) => v,
        None => { return None; },
    };
    checked_sum(ONE, ratio)
}

/// Turns the square root of the growth operand into the tokens to mint.
pub fn tokens_for_root(root_bits: i128, virtual_supply: u128) -> (minted: Option<u128>)
    ensures
        minted == minted_for_root(root_bits, virtual_supply),
{
    let supply_fixed = match checked_promote(virtual_supply) {
        Some(v) => v,
        None => { return None; },
    };
    if root_bits < ONE {
        return None;
    }
    let growth = match checked_difference(root_bits, ONE) {
        Some(v) => v,
        None => { return None; },
    };
    proof {
        lemma_product_with_promoted(growth as int, virtual_supply);
    }
    let minted_fixed = match checked_product(growth, supply_fixed) {
        Some(v) => v,
        None => { return None; },
    };
    checked_truncate(minted_fixed)
}

/// Prices a deposit of `amount` of the reserve in tokens.
pub fn quote_purchase(
    amount: u128,
    virtual_supply: u128,
    virtual_balance: u128,
) -> (minted: Option<u128>)
    ensures
        minted == tokens_for_deposit(amount, virtual_supply, virtual_balance),
{
    let operand = match deposit_operand(amount, virtual_balance) {
        Some(v) => v,
        None => { return None; },
    };
    match checked_root(operand) {
        Some(root_bits) => tokens_for_root(root_bits, virtual_supply),
        None => None,
    }
}

/// Prices `token_amount` tokens in the reserve that their sale returns.
pub fn quote_sale(
    token_amount: u128,
    virtual_supply: u128,
    virtual_balance: u128,
) -> (returned: Option<u128>)
    ensures
        returned == reserve_for_tokens(token_amount, virtual_supply, virtual_balance),
{
    if token_amount > virtual_supply {
        return None;
    }
    let tokens_fixed = match checked_promote(token_amount) {
        Some(v) => v,
        None => { return None; },
    };
    let supply_fixed = match checked_promote(virtual_supply) {
        Some(v) => v,
        None => { return None; },
    };
    let balance_fixed = match checked_promote(virtual_balance) {
        Some(v) => v,
        None => { return None; },
    };
    proof {
        if virtual_supply > 0 {
            lemma_promoted_quotient(token_amount, virtual_supply);
            lemma_sale_bounds(token_amount, virtual_supply, virtual_balance);
        }
    }
    let share = match checked_quotient(tokens_fixed, supply_fixed) {
        Some(v) => v,
        None => { return None; },
    };
    let rest = match checked_difference(ONE, share) {
        Some(v) => v,
        None => { return None; },
    };
    let square = match checked_product(rest, rest) {
        Some(v) => v,
        None => { return None; },
    };
    let drop = match checked_difference(ONE, square) {
        Some(v) => v,
        None => { return None; },
    };
    proof {
        lemma_product_with_promoted(drop as int, virtual_balance);
    }
    let returned_fixed = match checked_product(drop, balance_fixed) {
        Some(v) => v,
        None => { return None; },
    };
    checked_truncate(returned_fixed)
}

/// A larger deposit has a larger growth operand, or the same.
pub proof fn lemma_operand_grows_with_deposit(smaller: u128, larger: u128, virtual_balance: u128)
    requires
        smaller <= larger,
        growth_operand(larger, virtual_balance) is Some,
    ensures
        growth_operand(smaller, virtual_balance) is Some,
        growth_operand(smaller, virtual_balance)->Some_0 <= growth_operand(
            larger,
            virtual_balance,
        )->Some_0,
{
    let one = ONE as int;
    assert(smaller * one <= larger * one) by (nonlinear_arith)
        requires
            smaller <= larger,
            one > 0,
    ;
    lemma_div_is_ordered(smaller * one, larger * one, virtual_balance as int);
}

/// A larger square root mints more tokens, or the same; and it mints more
/// where the roots lie at least one whole token apart.
pub proof fn lemma_minted_grows_with_root(lower: i128, higher: i128, virtual_supply: u128)
    requires
        ONE <= lower <= higher,
        minted_for_root(higher, virtual_supply) is Some,
    ensures
        minted_for_root(lower, virtual_supply) is Some,
        minted_for_root(lower, virtual_supply)->Some_0 <= minted_for_root(
            higher,
            virtual_supply,
        )->Some_0,
        (higher - lower) * virtual_supply >= ONE ==> minted_for_root(
            lower,
            virtual_supply,
        )->Some_0 < minted_for_root(higher, virtual_supply)->Some_0,
{
    let one = ONE as int;
    let low = (lower - ONE) * virtual_supply;
    let high = (higher - ONE) * virtual_supply;
    assert(0 <= low <= high && high - low == (higher - lower) * virtual_supply)
        by (nonlinear_arith)
        requires
            ONE <= lower <= higher,
            0 <= virtual_supply,
            low == (lower - ONE) * virtual_supply,
            high == (higher - ONE) * virtual_supply,
    ;
    lemma_div_is_ordered(low, high, one);
    assert(0 <= low / one <= high / one) by (nonlinear_arith)
        requires
            0 <= low,
            low / one <= high / one,
            one > 0,
    ;
    assert(high / one <= high) by (nonlinear_arith)
        requires
            0 <= high,
            one > 0,
    ;
    if high - low >= one {
        assert(low / one < high / one) by (nonlinear_arith)
            requires
                high - low >= one,
                one > 0,
        ;
    }
}

/// The square root that prices a deposit of `amount`.
pub open spec fn root_for_deposit(amount: u128, virtual_balance: u128) -> i128 {
    root(growth_operand(amount, virtual_balance)->Some_0)->Some_0
}

/// Monotonicity of purchases: on one pool, the larger of two deposits mints
/// at least as many tokens as the smaller, wherever the square root found
/// for the larger operand is not below the one found for the smaller; and it
/// mints more where the two roots lie at least one whole token apart.
pub proof fn lemma_purchase_is_monotone(
    smaller: u128,
    larger: u128,
    virtual_supply: u128,
    virtual_balance: u128,
)
    requires
        smaller <= larger,
        tokens_for_deposit(smaller, virtual_supply, virtual_balance) is Some,
        tokens_for_deposit(larger, virtual_supply, virtual_balance) is Some,
        root_for_deposit(smaller, virtual_balance) <= root_for_deposit(larger, virtual_balance),
    ensures
        tokens_for_deposit(smaller, virtual_supply, virtual_balance)->Some_0
            <= tokens_for_deposit(larger, virtual_supply, virtual_balance)->Some_0,
        (root_for_deposit(larger, virtual_balance) - root_for_deposit(smaller, virtual_balance))
            * virtual_supply >= ONE ==> tokens_for_deposit(
            smaller,
            virtual_supply,
            virtual_balance,
        )->Some_0 < tokens_for_deposit(larger, virtual_supply, virtual_balance)->Some_0,
{
    lemma_minted_grows_with_root(
        root_for_deposit(smaller, virtual_balance),
        root_for_deposit(larger, virtual_balance),
        virtual_supply,
    );
}

/// Monotonicity of sales: on one pool, the larger of two sales returns at
/// least as much reserve as the smaller.
pub proof fn lemma_sale_is_monotone(
    smaller: u128,
    larger: u128,
    virtual_supply: u128,
    virtual_balance: u128,
)
    requires
        smaller <= larger,
        reserve_for_tokens(larger, virtual_supply, virtual_balance) is Some,
    ensures
        reserve_for_tokens(smaller, virtual_supply, virtual_balance) is Some,
        reserve_for_tokens(smaller, virtual_supply, virtual_balance)->Some_0
            <= reserve_for_tokens(larger, virtual_supply, virtual_balance)->Some_0,
{
    let one = ONE as int;
    let low_share = share_of_supply(smaller, virtual_supply);
    let high_share = share_of_supply(larger, virtual_supply);
    lemma_sale_bounds(smaller, virtual_supply, virtual_balance);
    lemma_sale_bounds(larger, virtual_supply, virtual_balance);
    assert(smaller * one <= larger * one) by (nonlinear_arith)
        requires
            smaller <= larger,
            one > 0,
    ;
    lemma_div_is_ordered(smaller * one, larger * one, virtual_supply as int);
    let low_rest = one - low_share;
    let high_rest = one - high_share;
    assert(high_rest * high_rest <= low_rest * low_rest) by (nonlinear_arith)
        requires
            0 <= high_rest <= low_rest,
    ;
    lemma_div_is_ordered(high_rest * high_rest, low_rest * low_rest, one);
    let low_drop = balance_drop(low_share);
    let high_drop = balance_drop(high_share);
    assert(low_drop * virtual_balance <= high_drop * virtual_balance) by (nonlinear_arith)
        requires
            low_drop <= high_drop,
            0 <= virtual_balance,
    ;
    lemma_div_is_ordered(low_drop * virtual_balance, high_drop * virtual_balance, one);
}

/// A sale returns no more than the pool's virtual balance, and a sale of
/// nothing returns nothing.
pub proof fn lemma_sale_within_balance(
    token_amount: u128,
    virtual_supply: u128,
    virtual_balance: u128,
)
    requires
        reserve_for_tokens(token_amount, virtual_supply, virtual_balance) is Some,
    ensures
        reserve_for_tokens(token_amount, virtual_supply, virtual_balance)->Some_0
            <= virtual_balance,
        token_amount == 0 ==> reserve_for_tokens(
            token_amount,
            virtual_supply,
            virtual_balance,
        )->Some_0 == 0,
{
    let one = ONE as int;
    lemma_sale_bounds(token_amount, virtual_supply, virtual_balance);
    let drop = balance_drop(share_of_supply(token_amount, virtual_supply));
    assert(drop * virtual_balance <= virtual_balance * one) by (nonlinear_arith)
        requires
            0 <= drop <= one,
            0 <= virtual_balance,
    ;
    lemma_div_is_ordered(drop * virtual_balance, virtual_balance * one, one);
    lemma_div_multiples_vanish(virtual_balance as int, one);
    assert(virtual_balance * one == one * virtual_balance) by (nonlinear_arith);
    if token_amount == 0 {
        assert(share_of_supply(token_amount, virtual_supply) == 0);
        assert(((one - 0) * (one - 0)) / one == one) by (nonlinear_arith)
            requires
                one > 0,
        ;
        assert(drop == 0);
        assert(drop * virtual_balance == 0) by (nonlinear_arith)
            requires
                drop == 0,
        ;
    }
}

} // verus!
