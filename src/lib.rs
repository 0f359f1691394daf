//! A leveraged-trading settlement engine: a pooled liquidity market whose
//! positions are collateralised in a custody vault.

pub mod account;
pub mod errors;
pub mod events;
pub mod pricing;
pub mod vault;
pub mod position;
pub mod settlement;
pub mod book;
pub mod market;
pub mod manager;
