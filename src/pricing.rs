//! Fixed-point conversions between asset amounts and USD values.
//!
//! Prices are USD with `PRICE_DECIMALS` decimals. Every step is checked: a
//! result that does not fit is reported as `MarketError::Overflow`.
use vstd::prelude::*;
use vstd::string::{StrSliceExecFns, StringExecFns};
use crate::errors::MarketError;

verus! {

/// Decimals of the prices that the oracle reports.
pub const ORACLE_DECIMALS: u8 = 18;

/// Decimals of the prices that the engine works with.
pub const PRICE_DECIMALS: u8 = 6;

pub open spec fn pow10(n: nat) -> nat
    decreases n,
{
    if n == 0 {
        1
    } else {
        10 * pow10((n - 1) as nat)
    }
}

/// Division rounding toward zero, as Rust's signed `/` does (for `b > 0`).
pub open spec fn div_trunc(a: int, b: int) -> int {
    if a >= 0 {
        a / b
    } else {
        -((-a) / b)
    }
}

/// `+1` for a long position, `-1` for a short one.
pub open spec fn direction(is_long: bool) -> int {
    if is_long {
        1
    } else {
        -1
    }
}

pub open spec fn fits_i128(x: int) -> bool {
    i128::MIN <= x <= i128::MAX
}

/// The signed price move of a position, scaled by leverage and by 100.
pub open spec fn pnl_scaled(old_price: int, new_price: int, leverage: int, is_long: bool) -> int {
    (new_price - old_price) * direction(is_long) * leverage * 100
}

/// The profit or loss of a position, in whole percent of its collateral.
pub open spec fn pnl_value(old_price: int, new_price: int, leverage: int, is_long: bool) -> int {
    div_trunc(pnl_scaled(old_price, new_price, leverage, is_long), old_price)
}

pub open spec fn pnl_defined(old_price: int, new_price: int, leverage: int, is_long: bool) -> bool {
    &&& 0 < old_price <= i128::MAX
    &&& new_price <= i128::MAX
    &&& fits_i128(pnl_scaled(old_price, new_price, leverage, is_long))
}

/// The price at which a position of the given entry price, leverage and
/// threshold (a signed percentage) reaches its liquidation threshold.
pub open spec fn liquidation_level(entry: int, leverage: int, threshold: int, is_long: bool) -> int {
    entry + direction(is_long) * div_trunc(div_trunc(entry * threshold, leverage), 100)
}

pub open spec fn liquidation_defined(entry: int, leverage: int, threshold: int, is_long: bool) -> bool {
    &&& entry <= i128::MAX
    &&& leverage > 0
    &&& fits_i128(entry * threshold)
    &&& 0 <= liquidation_level(entry, leverage, threshold, is_long) <= i128::MAX
}

/// Whether `usd_from_asset_amount` succeeds.
pub open spec fn usd_defined(amount: int, decimals: nat, price: int) -> bool {
    amount * price <= u128::MAX && pow10(decimals) <= u128::MAX
}

pub open spec fn usd_value(amount: int, decimals: nat, price: int) -> int {
    amount * price / (pow10(decimals) as int)
}

/// Whether `asset_amount_from_usd` succeeds.
pub open spec fn amount_defined(usd: int, price: int, decimals: nat) -> bool {
    pow10(decimals) <= u128::MAX && usd * pow10(decimals) <= u128::MAX && price > 0
}

pub open spec fn amount_value(usd: int, price: int, decimals: nat) -> int {
    usd * pow10(decimals) / price
}

pub proof fn lemma_pow10_positive(n: nat)
    ensures
        pow10(n) >= 1,
    decreases n,
{
    if n > 0 {
        lemma_pow10_positive((n - 1) as nat);
    }
}

pub proof fn lemma_pow10_monotonic(m: nat, n: nat)
    requires
        m <= n,
    ensures
        pow10(m) <= pow10(n),
    decreases n - m,
{
    if m < n {
        lemma_pow10_monotonic(m, (n - 1) as nat);
        lemma_pow10_positive((n - 1) as nat);
    }
}

/// `10^n`, or `None` where it does not fit in `u128`.
pub fn checked_pow10(n: u8) -> (r: Option<u128>)
    ensures
        r is Some <==> pow10(n as nat) <= u128::MAX,
        r matches Some(p) ==> p == pow10(n as nat),
{
    let mut p: u128 = 1;
    let mut i: u8 = 0;
    while i < n
        invariant
            i <= n,
            p == pow10(i as nat),
        decreases n - i,
    {
        match p.checked_mul(10) {
            Some(q) => {
                p = q;
                i = i + 1;
            },
            None => {
                proof {
                    lemma_pow10_monotonic((i + 1) as nat, n as nat);
                }
                return None;
            },
        }
    }
    Some(p)
}

/// USD value of `amount` units of an asset with `decimals` decimals priced
/// at `price`: `amount * price / 10^decimals`.
pub fn usd_from_asset_amount(amount: u128, decimals: u8, price: u128) -> (r: Result<u128, MarketError>)
    ensures
        r is Ok <==> usd_defined(amount as int, decimals as nat, price as int),
        r matches Ok(v) ==> v == usd_value(amount as int, decimals as nat, price as int),
        r matches Err(e) ==> e is Overflow,
{
    let product = match amount.checked_mul(price) {
        Some(x) => x,
        None => return Err(MarketError::Overflow("usd_from_asset_amount: product")),
    };
    let scale = match checked_pow10(decimals) {
        Some(x) => x,
        None => return Err(MarketError::Overflow("usd_from_asset_amount: scale")),
    };
    proof {
        lemma_pow10_positive(decimals as nat);
    }
    Ok(product / scale)
}

/// Units of an asset with `decimals` decimals worth `usd` at `price`:
/// `usd * 10^decimals / price`.
pub fn asset_amount_from_usd(usd: u128, price: u128, decimals: u8) -> (r: Result<u128, MarketError>)
    ensures
        r is Ok <==> amount_defined(usd as int, price as int, decimals as nat),
        r matches Ok(v) ==> v == amount_value(usd as int, price as int, decimals as nat),
        r matches Err(e) ==> e is Overflow,
{
    let scale = match checked_pow10(decimals) {
        Some(x) => x,
        None => return Err(MarketError::Overflow("asset_amount_from_usd: scale")),
    };
    let product = match usd.checked_mul(scale) {
        Some(x) => x,
        None => return Err(MarketError::Overflow("asset_amount_from_usd: product")),
    };
    if price == 0 {
        return Err(MarketError::Overflow("asset_amount_from_usd: price"));
    }
    Ok(product / price)
}

/// Profit or loss in whole percent of the collateral for a position opened
/// at `old_price` and valued at `new_price`:
/// `(new - old) * direction * leverage * 100 / old`, rounded toward zero.
pub fn pnl_percent(old_price: u128, new_price: u128, leverage: u8, is_long: bool) -> (r: Result<i128, MarketError>)
    ensures
        r is Ok <==> pnl_defined(old_price as int, new_price as int, leverage as int, is_long),
        r matches Ok(v) ==> v == pnl_value(old_price as int, new_price as int, leverage as int, is_long),
        r matches Err(e) ==> e is Overflow,
{
    if old_price == 0 || old_price > i128::MAX as u128 || new_price > i128::MAX as u128 {
        return Err(MarketError::Overflow("pnl_percent: price"));
    }
    let moved: i128 = new_price as i128 - old_price as i128;
    let directed: i128 = if is_long { moved } else { -moved };
    proof {
        let m = moved as int;
        let dir = direction(is_long);
        assert(directed as int == m * dir) by (nonlinear_arith)
            requires
                dir == 1 || dir == -1,
                dir == 1 ==> directed == m,
                dir == -1 ==> directed == -m;
    }
    let lev = leverage as i128;
    let levered = match directed.checked_mul(lev) {
        Some(x) => x,
        None => {
            proof {
                let d = directed as int;
                let l = lev as int;
                assert(d * l * 100 > i128::MAX || d * l * 100 < i128::MIN) by (nonlinear_arith)
                    requires d * l > i128::MAX || d * l < i128::MIN;
                assert(pnl_scaled(old_price as int, new_price as int, leverage as int, is_long)
                    == d * l * 100);
            }
            return Err(MarketError::Overflow("pnl_percent: leverage"));
        },
    };
    let scaled = match levered.checked_mul(100) {
        Some(x) => x,
        None => return Err(MarketError::Overflow("pnl_percent: percent")),
    };
    assert(scaled as int == pnl_scaled(old_price as int, new_price as int, leverage as int, is_long));
    let old = old_price as i128;
    match scaled.checked_div(old) {
        Some(x) => Ok(x),
        None => Err(MarketError::Overflow("pnl_percent: division")),
    }
}

/// Price at which a position reaches `threshold` percent of PnL:
/// `entry + direction * (entry * threshold / leverage / 100)`, each division
/// rounded toward zero. A level below zero is reported as an overflow.
pub fn liquidation_price(entry_price: u128, leverage: u8, threshold: i8, is_long: bool) -> (r: Result<u128, MarketError>)
    ensures
        r is Ok <==> liquidation_defined(entry_price as int, leverage as int, threshold as int, is_long),
        r matches Ok(v) ==> v == liquidation_level(entry_price as int, leverage as int, threshold as int, is_long),
        r matches Err(e) ==> e is Overflow,
{
    if entry_price > i128::MAX as u128 {
        return Err(MarketError::Overflow("liquidation_price: entry"));
    }
    let entry = entry_price as i128;
    let weighted = match entry.checked_mul(threshold as i128) {
        Some(x) => x,
        None => return Err(MarketError::Overflow("liquidation_price: threshold")),
    };
    let per_leverage = match weighted.checked_div(leverage as i128) {
        Some(x) => x,
        None => return Err(MarketError::Overflow("liquidation_price: leverage")),
    };
    let offset = match per_leverage.checked_div(100) {
        Some(x) => x,
        None => return Err(MarketError::Overflow("liquidation_price: percent")),
    };
    assert(offset as int == div_trunc(div_trunc(entry_price * threshold, leverage as int), 100));
    proof {
        let w = weighted as int;
        let l = leverage as int;
        assert(0 <= div_trunc(w, l) <= w || w <= div_trunc(w, l) <= 0) by (nonlinear_arith)
            requires l > 0;
    }
    let directed: i128 = if is_long { offset } else { -offset };
    assert(directed as int == direction(is_long) * offset);
    assert(directed as int + entry as int == liquidation_level(
        entry_price as int, leverage as int, threshold as int, is_long));
    let level = match directed.checked_add(entry) {
        Some(x) => x,
        None => return Err(MarketError::Overflow("liquidation_price: sum")),
    };
    if level < 0 {
        return Err(MarketError::Overflow("liquidation_price: negative"));
    }
    Ok(level as u128)
}

/// The engine's price for an oracle reply: the 18-decimal oracle price cut
/// to `PRICE_DECIMALS` decimals. A missing pair is `OracleFailed`.
pub fn price_from_oracle(reply: Option<(u64, u128)>) -> (r: Result<u128, MarketError>)
    ensures
        reply is None <==> r == Err::<u128, MarketError>(MarketError::OracleFailed),
        reply matches Some((_, p)) ==> r == Ok::<u128, MarketError>(
            ((p as int) / (pow10((ORACLE_DECIMALS - PRICE_DECIMALS) as nat) as int)) as u128),
{
    match reply {
        None => Err(MarketError::OracleFailed),
        Some((_timestamp, price)) => {
            let scale = match checked_pow10(ORACLE_DECIMALS - PRICE_DECIMALS) {
                Some(x) => x,
                None => {
                    proof {
                        reveal_with_fuel(pow10, 13);
                    }
                    return Err(MarketError::OracleFailed);
                },
            };
            proof {
                lemma_pow10_positive((ORACLE_DECIMALS - PRICE_DECIMALS) as nat);
            }
            Ok(price / scale)
        },
    }
}

/// The oracle pair of a token: its symbol without the first character (the
/// wrapper's letter, as in "wAZERO"), against USD ("AZERO/USD").
pub fn oracle_pair(symbol: &str) -> (r: String)
    requires
        symbol@.len() >= 1,
    ensures
        r@ == symbol@.subrange(1, symbol@.len() as int) + "/USD"@,
{
    let n = symbol.unicode_len();
    let unwrapped = String::from_str(symbol.substring_char(1, n));
    unwrapped.concat("/USD")
}

} // verus!
