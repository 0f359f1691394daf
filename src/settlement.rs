//! How a closed or liquidated position's collateral is divided.
use vstd::prelude::*;
use crate::errors::MarketError;
use crate::position::Position;
use crate::pricing::{
    amount_defined, amount_value, asset_amount_from_usd, div_trunc, fits_i128, pnl_defined, pnl_percent,
    pnl_value,
};

verus! {

/// The USD profit (positive) or loss (negative) of `pnl` percent of
/// `collateral_usd`, rounded toward zero.
pub open spec fn pnl_usd_value(pnl: int, collateral_usd: int) -> int {
    div_trunc(pnl * collateral_usd, 100)
}

pub open spec fn pnl_usd_defined(pnl: int, collateral_usd: int) -> bool {
    collateral_usd <= i128::MAX && fits_i128(pnl * collateral_usd)
}

/// The USD value of the collateral after `pnl` percent; negative when the
/// loss exceeds the collateral.
pub open spec fn surviving_usd_value(pnl: int, collateral_usd: int) -> int {
    collateral_usd + pnl_usd_value(pnl, collateral_usd)
}

/// `pnl` percent of `collateral_usd`, rounded toward zero.
pub fn pnl_usd(pnl: i128, collateral_usd: u128) -> (r: Result<i128, MarketError>)
    ensures
        r is Ok <==> pnl_usd_defined(pnl as int, collateral_usd as int),
        r matches Ok(v) ==> v == pnl_usd_value(pnl as int, collateral_usd as int),
        r matches Err(e) ==> e is Overflow,
{
    if collateral_usd > i128::MAX as u128 {
        return Err(MarketError::Overflow("pnl_usd: collateral"));
    }
    let product = match pnl.checked_mul(collateral_usd as i128) {
        Some(x) => x,
        None => return Err(MarketError::Overflow("pnl_usd: product")),
    };
    match product.checked_div(100) {
        Some(x) => Ok(x),
        None => Err(MarketError::Overflow("pnl_usd: percent")),
    }
}

/// What is left of `collateral_usd` after `pnl` percent. A loss beyond the
/// collateral has no such value and fails.
pub fn surviving_usd(pnl: i128, collateral_usd: u128) -> (r: Result<u128, MarketError>)
    ensures
        r is Ok <==> pnl_usd_defined(pnl as int, collateral_usd as int) && surviving_usd_value(
            pnl as int,
            collateral_usd as int,
        ) >= 0,
        r matches Ok(v) ==> v == surviving_usd_value(pnl as int, collateral_usd as int),
        r matches Err(e) ==> e is Overflow,
{
    let change = pnl_usd(pnl, collateral_usd)?;
    let base = collateral_usd as i128;
    if change < 0 && -change > base {
        Err(MarketError::Overflow("surviving_usd: loss beyond collateral"))
    } else if change < 0 {
        Ok((base + change) as u128)
    } else {
        if change > i128::MAX - base {
            Ok(collateral_usd + change as u128)
        } else {
            Ok((base + change) as u128)
        }
    }
}

/// The three payouts of a close: collateral back to the owner, collateral
/// swept into the pool, and profit paid from the pool in the underlying
/// asset.
#[derive(Clone, Copy, Debug)]
pub struct Settlement {
    pub to_owner: u128,
    pub to_pool: u128,
    pub profit: u128,
}

/// The settlement of closing `p` at `price` of the underlying asset and
/// `collateral_price` of its collateral; `None` where a step overflows.
///
/// A gain returns all collateral and pays the gain's USD value in the
/// underlying asset. A loss returns the surviving USD value in collateral
/// and sweeps the rest into the pool; a loss beyond the whole collateral has
/// no settlement. No change returns all collateral. When the collateral's
/// own price fell, the owner's part may exceed the collateral held (the
/// pool's part is then zero); `close` refuses such a settlement.
pub open spec fn close_settlement_spec(
    p: Position,
    price: u128,
    decimals: u8,
    collateral_price: u128,
    collateral_decimals: u8,
) -> Option<Settlement> {
    let pnl = pnl_value(p.entry_price as int, price as int, p.leverage as int, p.is_long);
    if !pnl_defined(p.entry_price as int, price as int, p.leverage as int, p.is_long) {
        None
    } else if pnl == 0 {
        Some(Settlement { to_owner: p.collateral_amount, to_pool: 0, profit: 0 })
    } else if !pnl_usd_defined(pnl, p.collateral_usd as int) {
        None
    } else if pnl > 0 {
        let usd = pnl_usd_value(pnl, p.collateral_usd as int);
        if !amount_defined(usd, price as int, decimals as nat) {
            None
        } else {
            Some(
                Settlement {
                    to_owner: p.collateral_amount,
                    to_pool: 0,
                    profit: amount_value(usd, price as int, decimals as nat) as u128,
                },
            )
        }
    } else {
        let usd = surviving_usd_value(pnl, p.collateral_usd as int);
        if usd < 0 || !amount_defined(usd, collateral_price as int, collateral_decimals as nat) {
            None
        } else {
            let worth = amount_value(usd, collateral_price as int, collateral_decimals as nat);
            Some(
                Settlement {
                    to_owner: worth as u128,
                    to_pool: if worth <= p.collateral_amount {
                        (p.collateral_amount - worth) as u128
                    } else {
                        0
                    },
                    profit: 0,
                },
            )
        }
    }
}

/// Computes the settlement of closing `p`; see `close_settlement_spec`.
pub fn close_settlement(p: &Position, price: u128, decimals: u8, collateral_price: u128, collateral_decimals: u8) -> (r:
    Result<Settlement, MarketError>)
    ensures
        r is Ok <==> close_settlement_spec(*p, price, decimals, collateral_price, collateral_decimals) is Some,
        r matches Ok(s) ==> close_settlement_spec(*p, price, decimals, collateral_price, collateral_decimals)
            == Some(s),
        r matches Err(e) ==> e is Overflow,
{
    let pnl = pnl_percent(p.entry_price, price, p.leverage, p.is_long)?;
    if pnl == 0 {
        return Ok(Settlement { to_owner: p.collateral_amount, to_pool: 0, profit: 0 });
    }
    if pnl > 0 {
        let usd = pnl_usd(pnl, p.collateral_usd)?;
        proof {
            let a = pnl as int;
            let c = p.collateral_usd as int;
            assert(a * c >= 0) by (nonlinear_arith)
                requires a > 0, c >= 0;
        }
        let profit = asset_amount_from_usd(usd as u128, price, decimals)?;
        Ok(Settlement { to_owner: p.collateral_amount, to_pool: 0, profit })
    } else {
        let usd = surviving_usd(pnl, p.collateral_usd)?;
        let worth = asset_amount_from_usd(usd, collateral_price, collateral_decimals)?;
        let to_pool = if worth <= p.collateral_amount {
            p.collateral_amount - worth
        } else {
            0
        };
        Ok(Settlement { to_owner: worth, to_pool, profit: 0 })
    }
}

/// `x * pct / 100`, computed without an intermediate product that could
/// overflow.
pub fn percent_of(x: u128, pct: u8) -> (r: u128)
    requires
        pct <= 100,
    ensures
        r == x * pct / 100,
        r <= x,
{
    let q = x / 100;
    let rem = x % 100;
    proof {
        let p = pct as int;
        let xi = x as int;
        let qi = q as int;
        let ri = rem as int;
        assert(xi == 100 * qi + ri);
        assert(xi * p == 100 * (qi * p) + ri * p) by (nonlinear_arith)
            requires xi == 100 * qi + ri;
        assert((100 * (qi * p) + ri * p) / 100 == qi * p + (ri * p) / 100) by (nonlinear_arith)
            requires 0 <= ri < 100, 0 <= p <= 100, qi >= 0;
        assert(ri * p <= 9900 && qi * p <= xi) by (nonlinear_arith)
            requires xi == 100 * qi + ri, 0 <= ri < 100, 0 <= p <= 100, qi >= 0;
        assert(qi * p + (ri * p) / 100 <= xi) by (nonlinear_arith)
            requires xi == 100 * qi + ri, 0 <= ri < 100, 0 <= p <= 100, qi >= 0;
    }
    q * (pct as u128) + rem * (pct as u128) / 100
}

/// How a liquidated position's collateral is divided: the owner's remainder,
/// the protocol's fee, the liquidator's reward, and the pool's sweep.
#[derive(Clone, Copy, Debug)]
pub struct LiquidationSplit {
    pub to_owner: u128,
    pub to_protocol: u128,
    pub to_liquidator: u128,
    pub to_pool: u128,
}

/// The split that `split_liquidation` computes.
pub open spec fn liquidation_split_spec(collateral_amount: u128, leftover: u128, penalty: u8, fee: u8) -> LiquidationSplit {
    let seize = leftover * penalty / 100;
    let to_owner = leftover - seize;
    let to_protocol = seize * fee / 100;
    let to_liquidator = seize * (100 - fee) / 100;
    LiquidationSplit {
        to_owner: to_owner as u128,
        to_protocol: to_protocol as u128,
        to_liquidator: to_liquidator as u128,
        to_pool: (collateral_amount - to_owner - to_protocol - to_liquidator) as u128,
    }
}

/// The collateral units that survive a liquidation of `p` at `price`: the
/// surviving USD value of its collateral, converted at `collateral_price`;
/// `None` where a step overflows. A loss beyond the whole collateral leaves
/// nothing: the pool then takes all of it. The result may exceed the
/// collateral held (when the collateral's own price fell); `liquidate` then
/// refuses.
pub open spec fn liquidation_leftover_spec(p: Position, price: u128, collateral_price: u128, collateral_decimals: u8) -> Option<u128> {
    let pnl = pnl_value(p.entry_price as int, price as int, p.leverage as int, p.is_long);
    if !pnl_defined(p.entry_price as int, price as int, p.leverage as int, p.is_long) || !pnl_usd_defined(pnl, p.collateral_usd as int) {
        None
    } else {
        let left = surviving_usd_value(pnl, p.collateral_usd as int);
        let usd = if left < 0 {
            0
        } else {
            left
        };
        if !amount_defined(usd, collateral_price as int, collateral_decimals as nat) {
            None
        } else {
            Some(amount_value(usd, collateral_price as int, collateral_decimals as nat) as u128)
        }
    }
}

/// Computes `liquidation_leftover_spec` for a position whose PnL at `price`
/// is `pnl`.
pub fn liquidation_leftover(p: &Position, pnl: i128, price: u128, collateral_price: u128, collateral_decimals: u8) -> (r: Result<u128, MarketError>)
    requires
        pnl_defined(p.entry_price as int, price as int, p.leverage as int, p.is_long),
        pnl == pnl_value(p.entry_price as int, price as int, p.leverage as int, p.is_long),
    ensures
        r is Ok <==> liquidation_leftover_spec(*p, price, collateral_price, collateral_decimals) is Some,
        r matches Ok(v) ==> liquidation_leftover_spec(*p, price, collateral_price, collateral_decimals) == Some(v),
        r matches Err(e) ==> e is Overflow,
{
    let change = pnl_usd(pnl, p.collateral_usd)?;
    let usd: u128 = if change < 0 && -change > p.collateral_usd as i128 {
        0
    } else {
        surviving_usd(pnl, p.collateral_usd)?
    };
    asset_amount_from_usd(usd, collateral_price, collateral_decimals)
}

/// Divides `collateral_amount`, of which `leftover` survives the loss.
/// `penalty` percent of the leftover is seized and split between protocol
/// (`fee` percent) and liquidator (the rest); the owner keeps the remainder
/// of the leftover; the pool takes everything else, the rounding loss of the
/// split included. The four parts add up to `collateral_amount` exactly, and
/// the pool's part exceeds the lost collateral by at most one unit.
pub fn split_liquidation(collateral_amount: u128, leftover: u128, penalty: u8, fee: u8) -> (r: LiquidationSplit)
    requires
        leftover <= collateral_amount,
        penalty <= 100,
        fee <= 100,
    ensures
        ({
            let seize = leftover * penalty / 100;
            &&& r.to_owner == leftover - seize
            &&& r.to_protocol == seize * fee / 100
            &&& r.to_liquidator == seize * (100 - fee) / 100
        }),
        r == liquidation_split_spec(collateral_amount, leftover, penalty, fee),
        r.to_owner + r.to_protocol + r.to_liquidator + r.to_pool == collateral_amount,
        collateral_amount - leftover <= r.to_pool <= collateral_amount - leftover + 1,
{
    let seize = percent_of(leftover, penalty);
    let to_protocol = percent_of(seize, fee);
    let to_liquidator = percent_of(seize, 100 - fee);
    proof {
        let s = seize as int;
        let f = fee as int;
        assert(s * f / 100 + s * (100 - f) / 100 >= s - 1) by (nonlinear_arith)
            requires s >= 0, 0 <= f <= 100;
        assert(s * f / 100 + s * (100 - f) / 100 <= s) by (nonlinear_arith)
            requires s >= 0, 0 <= f <= 100;
    }
    let to_owner = leftover - seize;
    let to_pool = collateral_amount - to_owner - to_protocol - to_liquidator;
    LiquidationSplit { to_owner, to_protocol, to_liquidator, to_pool }
}

/// The parts of a liquidation add up to the position's collateral exactly:
/// owner, protocol, liquidator and pool. Rounding loses nothing; the pool's
/// part exceeds the collateral lost to the price move by the rounding of the
/// seized amount's split, at most one unit.
pub proof fn lemma_liquidation_conserves(collateral_amount: u128, leftover: u128, penalty: u8, fee: u8)
    requires
        leftover <= collateral_amount,
        penalty <= 100,
        fee <= 100,
    ensures
        ({
            let s = liquidation_split_spec(collateral_amount, leftover, penalty, fee);
            &&& s.to_owner + s.to_protocol + s.to_liquidator + s.to_pool == collateral_amount
            &&& collateral_amount - leftover <= s.to_pool <= collateral_amount - leftover + 1
        }),
{
    let l = leftover as int;
    let p = penalty as int;
    let f = fee as int;
    assert(0 <= l * p / 100 <= l) by (nonlinear_arith)
        requires l >= 0, 0 <= p <= 100;
    let seize = l * p / 100;
    assert(seize * f / 100 + seize * (100 - f) / 100 >= seize - 1) by (nonlinear_arith)
        requires seize >= 0, 0 <= f <= 100;
    assert(seize * f / 100 + seize * (100 - f) / 100 <= seize) by (nonlinear_arith)
        requires seize >= 0, 0 <= f <= 100;
    assert(seize * f / 100 >= 0 && seize * (100 - f) / 100 >= 0) by (nonlinear_arith)
        requires seize >= 0, 0 <= f <= 100;
}

} // verus!
