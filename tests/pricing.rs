use leverage_market::errors::MarketError;
use leverage_market::pricing::{
    asset_amount_from_usd, checked_pow10, oracle_pair, liquidation_price, pnl_percent, price_from_oracle, usd_from_asset_amount,
};
use leverage_market::settlement::{percent_of, pnl_usd, split_liquidation, surviving_usd};

fn is_overflow<T>(r: Result<T, MarketError>) -> bool {
    matches!(r, Err(MarketError::Overflow(_)))
}

#[test]
fn pow10_fits_up_to_38() {
    assert_eq!(checked_pow10(0), Some(1));
    assert_eq!(checked_pow10(6), Some(1_000_000));
    assert_eq!(checked_pow10(38), Some(100_000_000_000_000_000_000_000_000_000_000_000_000));
    assert_eq!(checked_pow10(39), None);
}

#[test]
fn usd_value_of_amount() {
    assert_eq!(usd_from_asset_amount(100_000_000, 6, 1_000_000), Ok(100_000_000));
    // 2.5 units of a 9-decimal asset at $3.
    assert_eq!(usd_from_asset_amount(2_500_000_000, 9, 3_000_000), Ok(7_500_000));
    // Rounds down.
    assert_eq!(usd_from_asset_amount(1, 1, 5), Ok(0));
}

#[test]
fn usd_value_overflows() {
    assert!(is_overflow(usd_from_asset_amount(u128::MAX, 0, 2)));
    assert!(is_overflow(usd_from_asset_amount(1, 39, 1)));
}

#[test]
fn amount_of_usd_value() {
    assert_eq!(asset_amount_from_usd(7_500_000, 3_000_000, 9), Ok(2_500_000_000));
    assert_eq!(asset_amount_from_usd(50_000_000, 1_100_000, 6), Ok(45_454_545));
}

#[test]
fn amount_of_usd_value_fails() {
    assert!(is_overflow(asset_amount_from_usd(1, 0, 6)));
    assert!(is_overflow(asset_amount_from_usd(1, 1, 39)));
    assert!(is_overflow(asset_amount_from_usd(u128::MAX, 1, 1)));
}

#[test]
fn pnl_of_long_and_short() {
    assert_eq!(pnl_percent(1_000_000, 1_100_000, 5, true), Ok(50));
    assert_eq!(pnl_percent(1_000_000, 1_100_000, 5, false), Ok(-50));
    assert_eq!(pnl_percent(1_000_000, 900_000, 5, true), Ok(-50));
    assert_eq!(pnl_percent(1_000_000, 1_000_000, 125, false), Ok(0));
}

#[test]
fn pnl_rounds_toward_zero() {
    assert_eq!(pnl_percent(3, 2, 1, true), Ok(-33));
    assert_eq!(pnl_percent(3, 4, 1, true), Ok(33));
}

#[test]
fn pnl_fails_on_zero_or_huge_price() {
    assert!(is_overflow(pnl_percent(0, 1, 1, true)));
    assert!(is_overflow(pnl_percent(u128::MAX, 1, 1, true)));
    assert!(is_overflow(pnl_percent(1, i128::MAX as u128, 255, true)));
}

#[test]
fn liquidation_price_long_and_short() {
    assert_eq!(liquidation_price(1_000_000, 5, -80, true), Ok(840_000));
    assert_eq!(liquidation_price(1_000_000, 5, -80, false), Ok(1_160_000));
    assert_eq!(liquidation_price(1_000_000, 1, 0, true), Ok(1_000_000));
}

#[test]
fn liquidation_price_fails() {
    assert!(is_overflow(liquidation_price(1_000_000, 0, -80, true)));
    assert!(is_overflow(liquidation_price(100, 1, -128, true)));
    assert!(is_overflow(liquidation_price(u128::MAX, 1, -80, true)));
}

#[test]
fn oracle_price_is_cut_to_six_decimals() {
    assert_eq!(price_from_oracle(Some((7, 1_500_000_000_000_000_000))), Ok(1_500_000));
    assert_eq!(price_from_oracle(Some((0, 999_999_999_999))), Ok(0));
    assert_eq!(price_from_oracle(None), Err(MarketError::OracleFailed));
}

#[test]
fn usd_pnl_and_survivor() {
    assert_eq!(pnl_usd(50, 100_000_000), Ok(50_000_000));
    assert_eq!(pnl_usd(-33, 10), Ok(-3));
    assert_eq!(surviving_usd(-80, 100_000_000), Ok(20_000_000));
    assert_eq!(surviving_usd(-100, 100_000_000), Ok(0));
    assert!(is_overflow(surviving_usd(-150, 100_000_000)));
    assert_eq!(surviving_usd(20, 100), Ok(120));
    assert!(is_overflow(pnl_usd(2, u128::MAX)));
}

#[test]
fn percent_without_overflow() {
    assert_eq!(percent_of(1000, 30), 300);
    assert_eq!(percent_of(333, 10), 33);
    assert_eq!(percent_of(u128::MAX, 100), u128::MAX);
    assert_eq!(percent_of(u128::MAX, 50), u128::MAX / 2);
}

#[test]
fn liquidation_split_adds_up() {
    let s = split_liquidation(1000, 200, 10, 30);
    assert_eq!((s.to_owner, s.to_protocol, s.to_liquidator, s.to_pool), (180, 6, 14, 800));
    assert_eq!(s.to_owner + s.to_protocol + s.to_liquidator + s.to_pool, 1000);
}

#[test]
fn liquidation_split_rounding_goes_to_pool() {
    let s = split_liquidation(1000, 333, 10, 50);
    assert_eq!((s.to_owner, s.to_protocol, s.to_liquidator, s.to_pool), (300, 16, 16, 668));
    assert_eq!(s.to_owner + s.to_protocol + s.to_liquidator + s.to_pool, 1000);
    let all = split_liquidation(u128::MAX, u128::MAX, 100, 100);
    assert_eq!(all.to_protocol, u128::MAX);
    assert_eq!(all.to_owner + all.to_liquidator + all.to_pool, 0);
}

#[test]
fn oracle_pair_drops_wrapper_letter() {
    assert_eq!(oracle_pair("wAZERO"), "AZERO/USD");
    assert_eq!(oracle_pair("w"), "/USD");
    assert_eq!(oracle_pair("ETH"), "TH/USD");
}
