use bonding_curve::{CurveState, Error, Event, Pallet};

const ALICE: u64 = 1;
const BOB: u64 = 2;
const CAROL: u64 = u64::MAX;

fn pool(base_supply: u128, base_balance: u128, real_supply: u128, real_balance: u128) -> CurveState {
    CurveState { base_supply, base_balance, real_supply, real_balance }
}

fn initialized(base_balance: u128) -> Pallet {
    let mut pallet = Pallet::new();
    pallet.base_init(ALICE, base_balance).unwrap();
    pallet
}

#[test]
fn new_exchange_is_uninitialized() {
    let pallet = Pallet::new();
    assert_eq!(pallet.curve(), None);
    assert_eq!(pallet.balance_of(ALICE), 0);
    assert_eq!(pallet.balance_of(CAROL), 0);
}

#[test]
fn initialization_sets_the_counters() {
    let mut pallet = Pallet::new();
    assert_eq!(
        pallet.base_init(ALICE, 1000),
        Ok(Some(Event::CurveInitialized(2000, 1000, ALICE)))
    );
    assert_eq!(pallet.curve(), Some(pool(2000, 1000, 0, 0)));
    assert_eq!(pallet.balance_of(ALICE), 0);
}

#[test]
fn initialization_then_purchase() {
    let mut pallet = Pallet::new();
    pallet.base_init(ALICE, 1000).unwrap();
    assert_eq!(pallet.curve(), Some(pool(2000, 1000, 0, 0)));
    assert_eq!(
        pallet.vstoken_buy_token(ALICE, 1000),
        Ok(Event::TokenPurchased(1000, 828, ALICE))
    );
    assert_eq!(pallet.curve(), Some(pool(2000, 1000, 828, 1000)));
    assert_eq!(pallet.balance_of(ALICE), 828);
}

#[test]
fn second_initialization_changes_nothing() {
    let mut pallet = Pallet::new();
    pallet.base_init(ALICE, 1000).unwrap();
    assert_eq!(pallet.base_init(BOB, 5), Ok(None));
    assert_eq!(pallet.curve(), Some(pool(2000, 1000, 0, 0)));
    assert_eq!(pallet.base_init(ALICE, u128::MAX), Ok(None));
    assert_eq!(pallet.curve(), Some(pool(2000, 1000, 0, 0)));
    pallet.vstoken_buy_token(BOB, 1000).unwrap();
    assert_eq!(pallet.base_init(BOB, 7), Ok(None));
    assert_eq!(pallet.curve(), Some(pool(2000, 1000, 828, 1000)));
    assert_eq!(pallet.balance_of(BOB), 828);
}

#[test]
fn initialization_refused_for_overflow() {
    let mut pallet = Pallet::new();
    assert_eq!(pallet.base_init(ALICE, u128::MAX / 2 + 1), Err(Error::ArithmeticOverflow));
    assert_eq!(pallet.curve(), None);
    assert_eq!(
        pallet.base_init(BOB, 3),
        Ok(Some(Event::CurveInitialized(6, 3, BOB)))
    );
    assert_eq!(pallet.curve(), Some(pool(6, 3, 0, 0)));
}

#[test]
fn trades_refused_before_initialization() {
    let mut pallet = Pallet::new();
    assert_eq!(pallet.vstoken_buy_token(ALICE, 1000), Err(Error::CurveNotInitialized));
    assert_eq!(pallet.token_buy_vstoken(ALICE, 1), Err(Error::CurveNotInitialized));
    assert_eq!(pallet.token_buy_vstoken(ALICE, 0), Err(Error::CurveNotInitialized));
    assert_eq!(pallet.curve(), None);
    assert_eq!(pallet.balance_of(ALICE), 0);
}

#[test]
fn sale_refused_for_want_of_tokens() {
    let mut pallet = initialized(1000);
    assert_eq!(pallet.token_buy_vstoken(ALICE, 1), Err(Error::InsufficientTokenBalance));
    pallet.vstoken_buy_token(ALICE, 1000).unwrap();
    assert_eq!(pallet.token_buy_vstoken(ALICE, 829), Err(Error::InsufficientTokenBalance));
    assert_eq!(pallet.token_buy_vstoken(BOB, 1), Err(Error::InsufficientTokenBalance));
    assert_eq!(pallet.curve(), Some(pool(2000, 1000, 828, 1000)));
    assert_eq!(pallet.balance_of(ALICE), 828);
    assert_eq!(pallet.balance_of(BOB), 0);
}

#[test]
fn purchase_refused_for_precision() {
    let mut empty = initialized(0);
    assert_eq!(empty.curve(), Some(pool(0, 0, 0, 0)));
    assert_eq!(empty.vstoken_buy_token(ALICE, 1000), Err(Error::PrecisionFailure));
    assert_eq!(empty.curve(), Some(pool(0, 0, 0, 0)));
    assert_eq!(empty.balance_of(ALICE), 0);
    let mut pallet = initialized(1000);
    assert_eq!(pallet.vstoken_buy_token(ALICE, 1 << 63), Err(Error::PrecisionFailure));
    assert_eq!(pallet.vstoken_buy_token(ALICE, u128::MAX), Err(Error::PrecisionFailure));
    assert_eq!(pallet.curve(), Some(pool(2000, 1000, 0, 0)));
}

#[test]
fn sale_refused_for_precision() {
    let mut empty = initialized(0);
    assert_eq!(empty.token_buy_vstoken(ALICE, 0), Err(Error::PrecisionFailure));
    assert_eq!(empty.curve(), Some(pool(0, 0, 0, 0)));
}

#[test]
fn purchase_credits_the_buyer_again() {
    let mut pallet = initialized(1000);
    pallet.vstoken_buy_token(ALICE, 1000).unwrap();
    assert_eq!(
        pallet.vstoken_buy_token(ALICE, 500),
        Ok(Event::TokenPurchased(500, 333, ALICE))
    );
    assert_eq!(pallet.balance_of(ALICE), 1161);
    assert_eq!(pallet.curve(), Some(pool(2000, 1000, 1161, 1500)));
}

#[test]
fn round_trip_returns_the_deposit_within_one() {
    let mut pallet = initialized(1000);
    let minted = match pallet.vstoken_buy_token(ALICE, 1000) {
        Ok(Event::TokenPurchased(_, minted, _)) => minted,
        other => panic!("unexpected {:?}", other),
    };
    assert_eq!(minted, 828);
    assert_eq!(
        pallet.token_buy_vstoken(ALICE, minted),
        Ok(Event::TokenSold(828, 999, ALICE))
    );
    assert_eq!(pallet.curve(), Some(pool(2000, 1000, 0, 1)));
    assert_eq!(pallet.balance_of(ALICE), 0);
}

#[test]
fn round_trips_stay_within_one() {
    for base in [1000u128, 1_000_000, 1_000_000_000_000] {
        for percent in [1u128, 10, 50, 100] {
            let deposit = base * percent / 100;
            let mut pallet = initialized(base);
            let minted = match pallet.vstoken_buy_token(BOB, deposit) {
                Ok(Event::TokenPurchased(_, minted, _)) => minted,
                other => panic!("unexpected {:?}", other),
            };
            let returned = match pallet.token_buy_vstoken(BOB, minted) {
                Ok(Event::TokenSold(_, returned, _)) => returned,
                other => panic!("unexpected {:?}", other),
            };
            assert!(returned <= deposit, "base {} deposit {}", base, deposit);
            assert!(deposit - returned <= 1, "base {} deposit {}", base, deposit);
        }
    }
}

#[test]
fn larger_deposit_mints_more() {
    let mut small = initialized(1000);
    let mut large = initialized(1000);
    assert_eq!(small.vstoken_buy_token(ALICE, 100), Ok(Event::TokenPurchased(100, 97, ALICE)));
    assert_eq!(large.vstoken_buy_token(ALICE, 200), Ok(Event::TokenPurchased(200, 190, ALICE)));
}

#[test]
fn ledger_adds_up_to_the_real_supply() {
    let mut pallet = initialized(1000);
    assert_eq!(pallet.vstoken_buy_token(ALICE, 1000), Ok(Event::TokenPurchased(1000, 828, ALICE)));
    assert_eq!(pallet.vstoken_buy_token(BOB, 500), Ok(Event::TokenPurchased(500, 333, BOB)));
    assert_eq!(pallet.token_buy_vstoken(ALICE, 400), Ok(Event::TokenSold(400, 592, ALICE)));
    assert_eq!(pallet.vstoken_buy_token(BOB, 250), Ok(Event::TokenPurchased(250, 175, BOB)));
    assert_eq!(pallet.token_buy_vstoken(BOB, 508), Ok(Event::TokenSold(508, 682, BOB)));
    assert_eq!(pallet.token_buy_vstoken(CAROL, 1), Err(Error::InsufficientTokenBalance));
    assert_eq!(pallet.curve(), Some(pool(2000, 1000, 428, 476)));
    assert_eq!(pallet.balance_of(ALICE), 428);
    assert_eq!(pallet.balance_of(BOB), 0);
    assert_eq!(pallet.balance_of(CAROL), 0);
}

#[test]
fn ledger_adds_up_after_many_trades() {
    let mut pallet = initialized(1_000_000);
    let accounts = [ALICE, BOB, CAROL, 77];
    let mut state = 0x1234_5678_9ABC_DEF1u64;
    for _ in 0..500 {
        state ^= state << 13;
        state ^= state >> 7;
        state ^= state << 17;
        let who = accounts[(state % 4) as usize];
        let amount = ((state >> 8) % 50_000) as u128;
        let before = (pallet.curve(), accounts.map(|a| pallet.balance_of(a)));
        let result = if (state >> 40) % 2 == 0 {
            pallet.vstoken_buy_token(who, amount)
        } else {
            pallet.token_buy_vstoken(who, amount)
        };
        if result.is_err() {
            assert_eq!(before, (pallet.curve(), accounts.map(|a| pallet.balance_of(a))));
        }
        let curve = pallet.curve().unwrap();
        let total: u128 = accounts.iter().map(|a| pallet.balance_of(*a)).sum();
        assert_eq!(curve.real_supply, total);
        assert_eq!(curve.base_supply, 2_000_000);
        assert_eq!(curve.base_balance, 1_000_000);
    }
}

#[test]
fn sale_of_nothing_leaves_an_entry_of_zero() {
    let mut pallet = initialized(1000);
    assert_eq!(pallet.token_buy_vstoken(BOB, 0), Ok(Event::TokenSold(0, 0, BOB)));
    assert_eq!(pallet.balance_of(BOB), 0);
    assert_eq!(pallet.curve(), Some(pool(2000, 1000, 0, 0)));
}

#[test]
fn small_deposit_on_a_dear_pool_mints_nothing() {
    let mut pallet = initialized(1000);
    assert_eq!(
        pallet.vstoken_buy_token(ALICE, 5000),
        Ok(Event::TokenPurchased(5000, 2898, ALICE))
    );
    assert_eq!(pallet.vstoken_buy_token(BOB, 2), Ok(Event::TokenPurchased(2, 0, BOB)));
    assert_eq!(pallet.token_buy_vstoken(BOB, 0), Ok(Event::TokenSold(0, 0, BOB)));
    assert_eq!(pallet.curve(), Some(pool(2000, 1000, 2898, 5002)));
    assert_eq!(pallet.balance_of(BOB), 0);
}

#[test]
fn types_are_reachable_from_the_module_paths() {
    let pallet = bonding_curve::pallet::Pallet::new();
    assert_eq!(pallet.curve(), None::<bonding_curve::curve::CurveState>);
    let who: bonding_curve::AccountId = 3;
    assert_eq!(
        bonding_curve::exchange::Event::TokenSold(1, 2, who),
        Event::TokenSold(1, 2, 3)
    );
    assert_eq!(bonding_curve::curve::Error::PrecisionFailure, Error::PrecisionFailure);
}
