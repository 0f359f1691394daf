use vstd::prelude::*;

verus! {

/// Failures of the custody vault.
#[derive(Clone, Copy, Debug, PartialEq, Eq, Structural)]
pub enum VaultError {
    AmountIsZero,
    AssetAlreadyExist,
    AssetNotFound,
    /// A deposit would take a balance past `u128::MAX`.
    BalanceOverflow,
    CollateralNotFound,
    DifferentCollateralAsset,
    InsufficientBalance,
    MarketAlreadyExist,
    MarketNotFound,
    NotAdmin,
    TransferError,
}

/// Failures of the position engine.
///
/// `Overflow` carries a tag naming the computation that failed.
#[derive(Clone, Copy, Debug, PartialEq, Eq)]
pub enum MarketError {
    ApproveFailed,
    BurnFailed,
    LangError,
    MintFailed,
    MissingDeposits,
    NotLiquidatable,
    NotSupported,
    Overflow(&'static str),
    PositionNotFound,
    TransferFailed,
    OracleFailed,
    VaultError(VaultError),
}

/// Failures of the registry that wires markets and assets into the vault.
#[derive(Clone, Copy, Debug, PartialEq, Eq, Structural)]
pub enum ManagerError {
    NotOwner,
    VaultError(VaultError),
}

/// Failures of the native-currency wrapper.
#[derive(Clone, Copy, Debug, PartialEq, Eq, Structural)]
pub enum WrapperError {
    AmountIsZero,
    BurningFailed,
    InsufficientBalance,
    MintingFailed,
    TransferFailed,
}

} // verus!
