use bonding_curve::curve::{initialize, purchase, sale, CurveState, Error, Trade};

fn pool(base_supply: u128, base_balance: u128, real_supply: u128, real_balance: u128) -> CurveState {
    CurveState { base_supply, base_balance, real_supply, real_balance }
}

#[test]
fn launch_doubles_the_reserve() {
    assert_eq!(CurveState::launch(1000), Ok(pool(2000, 1000, 0, 0)));
    assert_eq!(CurveState::launch(0), Ok(pool(0, 0, 0, 0)));
    assert_eq!(CurveState::launch(1), Ok(pool(2, 1, 0, 0)));
}

#[test]
fn launch_at_the_limit() {
    let half = u128::MAX / 2;
    assert_eq!(CurveState::launch(half), Ok(pool(u128::MAX - 1, half, 0, 0)));
    assert_eq!(CurveState::launch(half + 1), Err(Error::ArithmeticOverflow));
    assert_eq!(CurveState::launch(u128::MAX), Err(Error::ArithmeticOverflow));
}

#[test]
fn buy_mints_and_credits() {
    let start = pool(2000, 1000, 0, 0);
    assert_eq!(
        start.buy(0, 1000),
        Ok(Trade { curve: pool(2000, 1000, 828, 1000), holding: 828, amount: 828 })
    );
    assert_eq!(
        start.buy(5, 1000),
        Ok(Trade { curve: pool(2000, 1000, 828, 1000), holding: 833, amount: 828 })
    );
}

#[test]
fn buy_uses_the_virtual_counters() {
    let later = pool(2000, 1000, 828, 1000);
    assert_eq!(
        later.buy(828, 500),
        Ok(Trade { curve: pool(2000, 1000, 1161, 1500), holding: 1161, amount: 333 })
    );
}

#[test]
fn buy_of_nothing() {
    let start = pool(2000, 1000, 0, 0);
    assert_eq!(start.buy(7, 0), Ok(Trade { curve: start, holding: 7, amount: 0 }));
}

#[test]
fn buy_refused_for_precision() {
    assert_eq!(pool(0, 0, 0, 0).buy(0, 1000), Err(Error::PrecisionFailure));
    assert_eq!(pool(2000, 1000, 0, 0).buy(0, 1 << 63), Err(Error::PrecisionFailure));
    assert_eq!(pool(1 << 63, 1 << 62, 0, 0).buy(0, 1), Err(Error::PrecisionFailure));
    assert_eq!(pool(2, 1, 0, 0).buy(0, (1 << 63) - 1), Err(Error::PrecisionFailure));
}

#[test]
fn buy_refused_for_overflow() {
    assert_eq!(pool(u128::MAX, 1000, 1, 0).buy(0, 1), Err(Error::ArithmeticOverflow));
    assert_eq!(pool(2000, u128::MAX, 0, 1).buy(0, 1), Err(Error::ArithmeticOverflow));
    assert_eq!(pool(2000, 1000, 0, 0).buy(u128::MAX, 1000), Err(Error::ArithmeticOverflow));
    assert_eq!(
        pool(2000, 1000, 0, 0).buy(u128::MAX - 828, 1000),
        Ok(Trade { curve: pool(2000, 1000, 828, 1000), holding: u128::MAX, amount: 828 })
    );
}

#[test]
fn sell_burns_and_returns() {
    let later = pool(2000, 1000, 828, 1000);
    assert_eq!(
        later.sell(828, 828),
        Ok(Trade { curve: pool(2000, 1000, 0, 1), holding: 0, amount: 999 })
    );
    assert_eq!(
        later.sell(828, 414),
        Ok(Trade { curve: pool(2000, 1000, 414, 458), holding: 414, amount: 542 })
    );
}

#[test]
fn sell_of_nothing() {
    let later = pool(2000, 1000, 828, 1000);
    assert_eq!(later.sell(0, 0), Ok(Trade { curve: later, holding: 0, amount: 0 }));
}

#[test]
fn sell_refused_for_want_of_tokens() {
    let later = pool(2000, 1000, 828, 1000);
    assert_eq!(later.sell(827, 828), Err(Error::InsufficientTokenBalance));
    assert_eq!(later.sell(0, 1), Err(Error::InsufficientTokenBalance));
    assert_eq!(pool(0, 0, 0, 0).sell(0, 1), Err(Error::InsufficientTokenBalance));
}

#[test]
fn sell_refused_for_underflow() {
    assert_eq!(pool(2000, 1000, 0, 0).sell(1000, 1000), Err(Error::ArithmeticUnderflow));
    assert_eq!(pool(2000, 1000, 828, 997).sell(828, 828), Err(Error::ArithmeticUnderflow));
    assert_eq!(pool(2000, 1000, 827, 1000).sell(828, 828), Err(Error::ArithmeticUnderflow));
}

#[test]
fn sell_refused_for_precision() {
    assert_eq!(pool(0, 0, 0, 0).sell(0, 0), Err(Error::PrecisionFailure));
    assert_eq!(pool(2000, 1000, 0, 0).sell(3000, 2001), Err(Error::PrecisionFailure));
    assert_eq!(pool(1 << 63, 1 << 62, 0, 0).sell(1, 1), Err(Error::PrecisionFailure));
}

#[test]
fn sell_refused_for_overflow() {
    assert_eq!(pool(u128::MAX, 1000, 1, 0).sell(1, 1), Err(Error::ArithmeticOverflow));
    assert_eq!(pool(2000, u128::MAX, 1, 1).sell(1, 1), Err(Error::ArithmeticOverflow));
}

#[test]
fn initialize_launches_once() {
    assert_eq!(initialize(None, 1000), Ok(Some(pool(2000, 1000, 0, 0))));
    assert_eq!(initialize(Some(pool(2000, 1000, 0, 0)), 5), Ok(None));
    assert_eq!(initialize(Some(pool(2000, 1000, 0, 0)), u128::MAX), Ok(None));
    assert_eq!(initialize(None, u128::MAX), Err(Error::ArithmeticOverflow));
}

#[test]
fn trades_need_a_pool() {
    assert_eq!(purchase(None, 0, 1000), Err(Error::CurveNotInitialized));
    assert_eq!(sale(None, 0, 1), Err(Error::CurveNotInitialized));
    assert_eq!(sale(None, 5, 1), Err(Error::CurveNotInitialized));
    let start = pool(2000, 1000, 0, 0);
    assert_eq!(purchase(Some(start), 0, 1000), start.buy(0, 1000));
    assert_eq!(
        purchase(Some(start), 0, 1000),
        Ok(Trade { curve: pool(2000, 1000, 828, 1000), holding: 828, amount: 828 })
    );
    let later = pool(2000, 1000, 828, 1000);
    assert_eq!(
        sale(Some(later), 828, 828),
        Ok(Trade { curve: pool(2000, 1000, 0, 1), holding: 0, amount: 999 })
    );
}
