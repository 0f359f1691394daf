use vstd::prelude::*;
use crate::account::AccountId;

verus! {

/// A leveraged position: `collateral_amount` units of `collateral_asset`,
/// worth `collateral_usd` when opened at `entry_price` of the underlying
/// asset, with its liquidation price fixed at opening.
#[derive(Clone, Copy, Debug)]
pub struct Position {
    pub user: AccountId,
    pub id: u128,
    pub collateral_amount: u128,
    pub collateral_asset: AccountId,
    pub collateral_usd: u128,
    pub entry_price: u128,
    pub leverage: u8,
    pub is_long: bool,
    pub block_open: u32,
    pub liquidation_price: u128,
}

impl Position {
    pub fn new(
        user: AccountId,
        id: u128,
        collateral_amount: u128,
        collateral_asset: AccountId,
        collateral_usd: u128,
        entry_price: u128,
        leverage: u8,
        is_long: bool,
        block_open: u32,
        liquidation_price: u128,
    ) -> (r: Position)
        ensures
            r == (Position {
                user,
                id,
                collateral_amount,
                collateral_asset,
                collateral_usd,
                entry_price,
                leverage,
                is_long,
                block_open,
                liquidation_price,
            }),
    {
        Position {
            user,
            id,
            collateral_amount,
            collateral_asset,
            collateral_usd,
            entry_price,
            leverage,
            is_long,
            block_open,
            liquidation_price,
        }
    }
}

} // verus!
