use vstd::prelude::*;
use crate::account::AccountId;

verus! {

/// A movement of a fungible asset. A mint has no `from`, a burn no `to`.
#[derive(Clone, Copy, Debug)]
pub struct Transfer {
    pub from: Option<AccountId>,
    pub to: Option<AccountId>,
    pub value: u128,
}

/// An allowance granted by `owner` to `spender`.
#[derive(Clone, Copy, Debug)]
pub struct Approval {
    pub owner: AccountId,
    pub spender: AccountId,
    pub amount: u128,
}

/// A transfer of `amount` units of `asset` from `from` to `to`, to be
/// carried out by the asset's own contract.
#[derive(Clone, Copy, Debug)]
pub struct AssetMove {
    pub asset: AccountId,
    pub from: AccountId,
    pub to: AccountId,
    pub amount: u128,
}

} // verus!
