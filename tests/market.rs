use leverage_market::account::AccountId;
use leverage_market::errors::{MarketError, VaultError};
use leverage_market::market::Market;
use leverage_market::vault::Vault;

fn acct(n: u8) -> AccountId {
    AccountId([n; 32])
}

const ADMIN: u8 = 1;
const VAULT: u8 = 2;
const MARKET: u8 = 3;
const UNDERLYING: u8 = 4;
const USER: u8 = 5;
const OWNER: u8 = 6;
const LIQUIDATOR: u8 = 7;
const WAZERO: u8 = 8;

const PRICE: u128 = 1_000_000;

fn fresh_market() -> Market {
    Market::new(
        acct(OWNER),
        acct(MARKET),
        Some(String::from("Pool share")),
        Some(String::from("PS")),
        6,
        acct(UNDERLYING),
        acct(10),
        acct(VAULT),
        acct(WAZERO),
        -80,
        10,
        30,
    )
}

fn fresh_vault() -> Vault {
    let mut v = Vault::new(acct(ADMIN), acct(VAULT));
    v.add_market(acct(ADMIN), acct(MARKET)).unwrap();
    v.add_asset(acct(ADMIN), acct(UNDERLYING)).unwrap();
    v.add_asset(acct(ADMIN), acct(WAZERO)).unwrap();
    v
}

/// A market with 500,000,000 underlying units of liquidity and a long
/// position 0 of `USER`: 100,000,000 units at leverage 5, entered at PRICE.
fn with_position() -> (Market, Vault) {
    let mut m = fresh_market();
    let mut v = fresh_vault();
    m.deposit(acct(LIQUIDATOR), 500_000_000, 0).unwrap();
    let o = m.open(&mut v, acct(USER), acct(UNDERLYING), 100_000_000, true, 5, PRICE, 6, PRICE, 42).unwrap();
    assert_eq!(o.id, 0);
    (m, v)
}

#[test]
fn first_deposit_mints_one_for_one() {
    let mut m = fresh_market();
    let (t, mv) = m.deposit(acct(USER), 300, 0).unwrap();
    assert_eq!((t.from, t.to, t.value), (None, Some(acct(USER)), 300));
    assert_eq!((mv.asset, mv.from, mv.to, mv.amount), (acct(UNDERLYING), acct(USER), acct(MARKET), 300));
    assert_eq!(m.total_supply(), 300);
}

#[test]
fn later_deposit_mints_in_proportion() {
    let mut m = fresh_market();
    m.deposit(acct(USER), 1000, 0).unwrap();
    // The pool has grown to 2000 through settlements: half the shares per unit.
    let (t, _) = m.deposit(acct(OWNER), 500, 2000).unwrap();
    assert_eq!(t.value, 250);
    assert_eq!(m.total_supply(), 1250);
}

#[test]
fn split_deposit_equals_single_deposit() {
    let mut split = fresh_market();
    let a = split.deposit(acct(USER), 300, 0).unwrap().0.value;
    let b = split.deposit(acct(USER), 200, 300).unwrap().0.value;
    let mut single = fresh_market();
    let c = single.deposit(acct(USER), 500, 0).unwrap().0.value;
    assert_eq!(a + b, c);
    assert_eq!(split.total_supply(), 500);
    assert_eq!(single.total_supply(), 500);
}

#[test]
fn deposit_failures() {
    let mut m = fresh_market();
    m.deposit(acct(USER), 10, 0).unwrap();
    assert!(matches!(m.deposit(acct(USER), 10, 0), Err(MarketError::Overflow(_))));
    assert!(matches!(m.deposit(acct(USER), u128::MAX, 10), Err(MarketError::Overflow(_))));
    let mut full = fresh_market();
    full.deposit(acct(USER), u128::MAX, 0).unwrap();
    assert_eq!(full.deposit(acct(USER), 1, u128::MAX).unwrap_err(), MarketError::MintFailed);
    assert_eq!(full.total_supply(), u128::MAX);
}

#[test]
fn withdraw_pays_share_of_pool() {
    let mut m = fresh_market();
    m.deposit(acct(USER), 1000, 0).unwrap();
    let (burn, paid) = m.withdraw(acct(USER), 400, 1500).unwrap();
    assert_eq!((burn.from, burn.to, burn.value), (Some(acct(USER)), None, 400));
    assert_eq!((paid.asset, paid.from, paid.to, paid.amount), (acct(UNDERLYING), acct(MARKET), acct(USER), 600));
    assert_eq!(m.total_supply(), 600);
}

#[test]
fn withdraw_failures() {
    let mut m = fresh_market();
    assert!(matches!(m.withdraw(acct(USER), 1, 100), Err(MarketError::Overflow(_))));
    m.deposit(acct(USER), 1000, 0).unwrap();
    assert_eq!(m.withdraw(acct(USER), 1001, 1000).unwrap_err(), MarketError::BurnFailed);
    assert_eq!(m.total_supply(), 1000);
}

#[test]
fn open_needs_liquidity() {
    let mut m = fresh_market();
    let mut v = fresh_vault();
    let r = m.open(&mut v, acct(USER), acct(UNDERLYING), 100, true, 5, PRICE, 6, PRICE, 1);
    assert_eq!(r.err(), Some(MarketError::MissingDeposits));
    assert!(m.view_position(acct(USER), 0).is_none());
}

#[test]
fn open_records_position_and_custody() {
    let mut m = fresh_market();
    let mut v = fresh_vault();
    m.deposit(acct(LIQUIDATOR), 500_000_000, 0).unwrap();
    let o = m.open(&mut v, acct(USER), acct(UNDERLYING), 100_000_000, true, 5, 2_000_000, 6, PRICE, 42).unwrap();
    assert_eq!(o.id, 0);
    assert_eq!((o.approval.owner, o.approval.spender, o.approval.amount), (acct(MARKET), acct(VAULT), 100_000_000));
    assert_eq!(o.moves.len(), 2);
    assert_eq!((o.moves[0].from, o.moves[0].to, o.moves[0].amount), (acct(USER), acct(MARKET), 100_000_000));
    assert_eq!((o.moves[1].from, o.moves[1].to, o.moves[1].amount), (acct(MARKET), acct(VAULT), 100_000_000));
    let p = m.view_position(acct(USER), 0).unwrap();
    assert_eq!(p.collateral_amount, 100_000_000);
    assert_eq!(p.collateral_usd, 200_000_000);
    assert_eq!(p.entry_price, PRICE);
    assert_eq!(p.liquidation_price, 840_000);
    assert_eq!(p.block_open, 42);
    assert_eq!(v.user_collateral(acct(MARKET), acct(USER), 0), Some((100_000_000, acct(UNDERLYING))));
    let second = m.open(&mut v, acct(USER), acct(UNDERLYING), 5, false, 2, PRICE, 6, PRICE, 43).unwrap();
    assert_eq!(second.id, 1);
    let other = m.open(&mut v, acct(OWNER), acct(UNDERLYING), 5, false, 2, PRICE, 6, PRICE, 43).unwrap();
    assert_eq!(other.id, 0);
    assert_eq!(m.view_positions(acct(USER)).len(), 2);
}

#[test]
fn open_failures_leave_no_trace() {
    let mut m = fresh_market();
    let mut v = fresh_vault();
    m.deposit(acct(LIQUIDATOR), 1000, 0).unwrap();
    let r = m.open(&mut v, acct(USER), acct(99), 100, true, 5, PRICE, 6, PRICE, 1);
    assert_eq!(r.err(), Some(MarketError::VaultError(VaultError::AssetNotFound)));
    let r = m.open(&mut v, acct(USER), acct(UNDERLYING), 0, true, 5, PRICE, 6, PRICE, 1);
    assert_eq!(r.err(), Some(MarketError::VaultError(VaultError::AmountIsZero)));
    let r = m.open(&mut v, acct(USER), acct(UNDERLYING), 100, true, 0, PRICE, 6, PRICE, 1);
    assert!(matches!(r.err(), Some(MarketError::Overflow(_))));
    let mut unregistered = Vault::new(acct(ADMIN), acct(VAULT));
    unregistered.add_asset(acct(ADMIN), acct(UNDERLYING)).unwrap();
    let r = m.open(&mut unregistered, acct(USER), acct(UNDERLYING), 100, true, 5, PRICE, 6, PRICE, 1);
    assert_eq!(r.err(), Some(MarketError::VaultError(VaultError::MarketNotFound)));
    assert!(m.view_position(acct(USER), 0).is_none());
    assert_eq!(v.user_collateral(acct(MARKET), acct(USER), 0), None);
    // The failed attempts used no id.
    let o = m.open(&mut v, acct(USER), acct(UNDERLYING), 100, true, 5, PRICE, 6, PRICE, 1).unwrap();
    assert_eq!(o.id, 0);
}

#[test]
fn open_native_uses_wrapped_asset() {
    let mut m = fresh_market();
    let mut v = fresh_vault();
    m.deposit(acct(LIQUIDATOR), 1000, 0).unwrap();
    let o = m.open_native(&mut v, acct(USER), 700, false, 3, PRICE, 12, PRICE, 9).unwrap();
    assert_eq!(o.moves[1].asset, acct(WAZERO));
    assert_eq!(m.view_position(acct(USER), o.id).unwrap().collateral_asset, acct(WAZERO));
    assert_eq!(v.user_collateral(acct(MARKET), acct(USER), o.id), Some((700, acct(WAZERO))));
}

#[test]
fn close_at_entry_price_returns_collateral() {
    let (mut m, mut v) = with_position();
    let c = m.close(&mut v, acct(USER), 0, PRICE, 6, PRICE, 6).unwrap();
    assert_eq!((c.settlement.to_owner, c.settlement.to_pool, c.settlement.profit), (100_000_000, 0, 0));
    assert_eq!(c.moves.len(), 1);
    assert_eq!((c.moves[0].from, c.moves[0].to, c.moves[0].amount), (acct(VAULT), acct(USER), 100_000_000));
    assert!(m.view_position(acct(USER), 0).is_none());
    assert_eq!(v.user_collateral(acct(MARKET), acct(USER), 0), None);
    // Ids are not reused.
    let o = m.open(&mut v, acct(USER), acct(UNDERLYING), 10, true, 5, PRICE, 6, PRICE, 50).unwrap();
    assert_eq!(o.id, 1);
}

#[test]
fn close_with_ten_percent_gain_at_leverage_five() {
    let (mut m, mut v) = with_position();
    assert_eq!(m.view_position_pnl(acct(USER), 0, 1_100_000), Ok(50));
    let c = m.close(&mut v, acct(USER), 0, 1_100_000, 6, 1_100_000, 6).unwrap();
    // 50% of a $100 collateral is $50, bought at $1.10: 45.454545 units.
    assert_eq!((c.settlement.to_owner, c.settlement.to_pool, c.settlement.profit), (100_000_000, 0, 45_454_545));
    assert_eq!(c.moves.len(), 2);
    assert_eq!((c.moves[0].from, c.moves[0].to, c.moves[0].amount), (acct(VAULT), acct(USER), 100_000_000));
    assert_eq!(
        (c.moves[1].asset, c.moves[1].from, c.moves[1].to, c.moves[1].amount),
        (acct(UNDERLYING), acct(MARKET), acct(USER), 45_454_545)
    );
    assert_eq!(v.user_collateral(acct(MARKET), acct(USER), 0), None);
}

#[test]
fn close_with_loss_sweeps_rest_to_pool() {
    let (mut m, mut v) = with_position();
    let c = m.close(&mut v, acct(USER), 0, 900_000, 6, PRICE, 6).unwrap();
    assert_eq!((c.settlement.to_owner, c.settlement.to_pool, c.settlement.profit), (50_000_000, 50_000_000, 0));
    assert_eq!((c.moves[0].to, c.moves[0].amount), (acct(USER), 50_000_000));
    assert_eq!((c.moves[1].to, c.moves[1].amount), (acct(MARKET), 50_000_000));
    assert_eq!(v.user_collateral(acct(MARKET), acct(USER), 0), None);
}

#[test]
fn close_with_total_loss_pays_owner_nothing() {
    let (mut m, mut v) = with_position();
    let c = m.close(&mut v, acct(USER), 0, 800_000, 6, PRICE, 6).unwrap();
    assert_eq!((c.settlement.to_owner, c.settlement.to_pool), (0, 100_000_000));
    assert_eq!(c.moves.len(), 1);
    assert_eq!((c.moves[0].to, c.moves[0].amount), (acct(MARKET), 100_000_000));
}

#[test]
fn close_unknown_position() {
    let (mut m, mut v) = with_position();
    assert_eq!(m.close(&mut v, acct(OWNER), 0, PRICE, 6, PRICE, 6).err(), Some(MarketError::PositionNotFound));
    assert_eq!(m.close(&mut v, acct(USER), 1, PRICE, 6, PRICE, 6).err(), Some(MarketError::PositionNotFound));
    assert!(matches!(m.close(&mut v, acct(USER), 0, 1_100_000, 39, PRICE, 6).err(), Some(MarketError::Overflow(_))));
    assert!(m.view_position(acct(USER), 0).is_some());
}

#[test]
fn liquidation_threshold_boundary() {
    let (m, _v) = with_position();
    assert_eq!(m.view_position_pnl(acct(USER), 0, 840_000), Ok(-80));
    assert_eq!(m.is_liquidatable(acct(USER), 0, 840_000), Ok(true));
    assert_eq!(m.view_position_pnl(acct(USER), 0, 842_000), Ok(-79));
    assert_eq!(m.is_liquidatable(acct(USER), 0, 842_000), Ok(false));
    assert_eq!(m.is_liquidatable(acct(USER), 5, 842_000), Err(MarketError::PositionNotFound));
}

#[test]
fn liquidate_above_threshold_is_refused() {
    let (mut m, mut v) = with_position();
    let r = m.liquidate(&mut v, acct(LIQUIDATOR), acct(USER), 0, 842_000, PRICE, 6);
    assert_eq!(r.err(), Some(MarketError::NotLiquidatable));
    assert!(m.view_position(acct(USER), 0).is_some());
    assert_eq!(v.user_collateral(acct(MARKET), acct(USER), 0), Some((100_000_000, acct(UNDERLYING))));
    let r = m.liquidate(&mut v, acct(LIQUIDATOR), acct(USER), 3, 800_000, PRICE, 6);
    assert_eq!(r.err(), Some(MarketError::PositionNotFound));
}

#[test]
fn liquidate_divides_collateral() {
    let (mut m, mut v) = with_position();
    let l = m.liquidate(&mut v, acct(LIQUIDATOR), acct(USER), 0, 840_000, PRICE, 6).unwrap();
    let s = l.split;
    assert_eq!((s.to_owner, s.to_protocol, s.to_liquidator, s.to_pool), (18_000_000, 600_000, 1_400_000, 80_000_000));
    assert_eq!(s.to_owner + s.to_protocol + s.to_liquidator + s.to_pool, 100_000_000);
    let to: Vec<(AccountId, u128)> = l.moves.iter().map(|x| (x.to, x.amount)).collect();
    assert_eq!(
        to,
        vec![
            (acct(USER), 18_000_000),
            (acct(OWNER), 600_000),
            (acct(LIQUIDATOR), 1_400_000),
            (acct(MARKET), 80_000_000)
        ]
    );
    assert!(m.view_position(acct(USER), 0).is_none());
    assert_eq!(v.user_collateral(acct(MARKET), acct(USER), 0), None);
}

#[test]
fn views_of_positions() {
    let (mut m, mut v) = with_position();
    m.open(&mut v, acct(USER), acct(UNDERLYING), 50, false, 2, PRICE, 6, PRICE, 43).unwrap();
    let all = m.view_all(acct(USER), 1_100_000).unwrap();
    let mut pnls: Vec<(u128, i128, u128)> = all.iter().map(|(p, pnl, at)| (p.id, *pnl, *at)).collect();
    pnls.sort();
    assert_eq!(pnls, vec![(0, 50, 1_100_000), (1, -20, 1_100_000)]);
    assert!(m.view_all(acct(OWNER), 1_100_000).unwrap().is_empty());
    assert!(matches!(m.view_all(acct(USER), u128::MAX), Err(MarketError::Overflow(_))));
    assert_eq!(m.view_liquidation_price(PRICE, 5, false), Ok(1_160_000));
    assert_eq!(m.get_price(Some((1, 2_000_000_000_000_000_000))), Ok(2_000_000));
    assert_eq!(m.get_price(None), Err(MarketError::OracleFailed));
    assert_eq!(m.view_underlying_asset(), acct(UNDERLYING));
    let (name, symbol, decimals) = m.view_market_data();
    assert_eq!((name.unwrap(), symbol.unwrap(), decimals), (String::from("Pool share"), String::from("PS"), 6));
}

#[test]
fn default_market_is_empty() {
    let m = Market::default(acct(OWNER), acct(MARKET));
    assert_eq!(m.total_supply(), 0);
    assert_eq!(m.owner(), acct(OWNER));
    assert_eq!(m.view_underlying_asset(), AccountId::zero());
    assert!(m.view_positions(acct(USER)).is_empty());
}

#[test]
fn close_with_loss_beyond_collateral_fails() {
    let (mut m, mut v) = with_position();
    assert_eq!(m.view_position_pnl(acct(USER), 0, 700_000), Ok(-150));
    let r = m.close(&mut v, acct(USER), 0, 700_000, 6, PRICE, 6);
    assert!(matches!(r.err(), Some(MarketError::Overflow(_))));
    assert!(m.view_position(acct(USER), 0).is_some());
    assert_eq!(v.user_collateral(acct(MARKET), acct(USER), 0), Some((100_000_000, acct(UNDERLYING))));
}

#[test]
fn close_refuses_more_than_the_deposit() {
    let (mut m, mut v) = with_position();
    // $50 survives, but the collateral now trades at $0.40: 125 units.
    let r = m.close(&mut v, acct(USER), 0, 900_000, 6, 400_000, 6);
    assert_eq!(r.err(), Some(MarketError::VaultError(VaultError::InsufficientBalance)));
    assert!(m.view_position(acct(USER), 0).is_some());
    assert_eq!(v.user_collateral(acct(MARKET), acct(USER), 0), Some((100_000_000, acct(UNDERLYING))));
}

#[test]
fn liquidate_refuses_more_than_the_deposit() {
    let (mut m, mut v) = with_position();
    let r = m.liquidate(&mut v, acct(LIQUIDATOR), acct(USER), 0, 840_000, 100_000, 6);
    assert_eq!(r.err(), Some(MarketError::VaultError(VaultError::InsufficientBalance)));
    assert!(m.view_position(acct(USER), 0).is_some());
    assert_eq!(v.user_collateral(acct(MARKET), acct(USER), 0), Some((100_000_000, acct(UNDERLYING))));
}

#[test]
fn liquidate_beyond_total_loss_sweeps_all_to_pool() {
    let (mut m, mut v) = with_position();
    let l = m.liquidate(&mut v, acct(LIQUIDATOR), acct(USER), 0, 700_000, PRICE, 6).unwrap();
    let s = l.split;
    assert_eq!((s.to_owner, s.to_protocol, s.to_liquidator, s.to_pool), (0, 0, 0, 100_000_000));
    assert_eq!(l.moves.len(), 1);
    assert_eq!((l.moves[0].to, l.moves[0].amount), (acct(MARKET), 100_000_000));
    assert_eq!(v.user_collateral(acct(MARKET), acct(USER), 0), None);
}

#[test]
fn open_refuses_zero_price() {
    let mut m = fresh_market();
    let mut v = fresh_vault();
    m.deposit(acct(LIQUIDATOR), 1000, 0).unwrap();
    let r = m.open(&mut v, acct(USER), acct(UNDERLYING), 100, true, 5, PRICE, 6, 0, 1);
    assert!(matches!(r.err(), Some(MarketError::Overflow(_))));
    assert!(m.view_position(acct(USER), 0).is_none());
    assert_eq!(v.user_collateral(acct(MARKET), acct(USER), 0), None);
}

#[test]
fn market_metadata_and_addresses() {
    let m = fresh_market();
    assert_eq!(m.oracle(), acct(10));
    assert_eq!(m.vault(), acct(VAULT));
    assert_eq!(m.wazero(), acct(WAZERO));
    assert_eq!(m.account(), acct(MARKET));
}
