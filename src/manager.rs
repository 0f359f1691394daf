//! The registry that administers the vault: it registers collateral assets
//! and the markets it deploys.
use vstd::prelude::*;
use crate::account::{AccountId, copy_accounts};
use crate::errors::ManagerError;
use crate::vault::Vault;

verus! {

/// The vault's administrator, owned by `owner`.
pub struct Manager {
    version: u8,
    owner: AccountId,
    account: AccountId,
    oracle: AccountId,
    wazero: AccountId,
    vault: AccountId,
    markets: Vec<AccountId>,
    incremented_id: u128,
}

impl Manager {
    pub closed spec fn owner_id(&self) -> AccountId {
        self.owner
    }

    /// The manager's own account: the vault's admin.
    pub closed spec fn account_id(&self) -> AccountId {
        self.account
    }

    pub closed spec fn vault_id(&self) -> AccountId {
        self.vault
    }

    /// The markets deployed so far, in order.
    pub closed spec fn deployed(&self) -> Seq<AccountId> {
        self.markets@
    }

    pub closed spec fn counter(&self) -> u128 {
        self.incremented_id
    }

    pub closed spec fn version_number(&self) -> u8 {
        self.version
    }

    pub closed spec fn oracle_id(&self) -> AccountId {
        self.oracle
    }

    pub closed spec fn wazero_id(&self) -> AccountId {
        self.wazero
    }

    pub fn new(version: u8, owner: AccountId, account: AccountId, vault: AccountId, oracle: AccountId, wazero: AccountId) -> (r:
        Manager)
        ensures
            r.owner_id() == owner,
            r.account_id() == account,
            r.vault_id() == vault,
            r.deployed() == Seq::<AccountId>::empty(),
            r.counter() == 0,
            r.version_number() == version,
            r.oracle_id() == oracle,
            r.wazero_id() == wazero,
    {
        Manager { version, owner, account, oracle, wazero, vault, markets: Vec::new(), incremented_id: 0 }
    }

    pub fn view_vault(&self) -> (r: AccountId)
        ensures
            r == self.vault_id(),
    {
        self.vault
    }

    pub fn view_markets(&self) -> (r: Vec<AccountId>)
        ensures
            r@ == self.deployed(),
    {
        copy_accounts(&self.markets)
    }

    pub fn version(&self) -> (r: u8)
        ensures
            r == self.version_number(),
    {
        self.version
    }

    pub fn oracle(&self) -> (r: AccountId)
        ensures
            r == self.oracle_id(),
    {
        self.oracle
    }

    pub fn wazero(&self) -> (r: AccountId)
        ensures
            r == self.wazero_id(),
    {
        self.wazero
    }

    /// Returns the counter and advances it, saturating at `u128::MAX`.
    pub fn increment_id(&mut self) -> (r: u128)
        ensures
            r == old(self).counter(),
            final(self).counter() == if r == u128::MAX {
                r
            } else {
                (r + 1) as u128
            },
            final(self).owner_id() == old(self).owner_id(),
            final(self).account_id() == old(self).account_id(),
            final(self).vault_id() == old(self).vault_id(),
            final(self).deployed() == old(self).deployed(),
    {
        let id = self.incremented_id;
        self.incremented_id = self.incremented_id.saturating_add(1);
        id
    }

    /// Registers `asset` as collateral in the vault. Only the owner may.
    pub fn add_collateral_asset(&mut self, caller: AccountId, vault: &mut Vault, asset: AccountId) -> (r: Result<
        (),
        ManagerError,
    >)
        requires
            old(vault).wf(),
        ensures
            final(vault).wf(),
            *final(self) == *old(self),
            final(vault).balances() == old(vault).balances(),
            final(vault).markets() == old(vault).markets(),
            caller != old(self).owner_id() ==> r == Err::<(), ManagerError>(ManagerError::NotOwner) && *final(vault)
                == *old(vault),
            caller == old(self).owner_id() && old(self).account_id() != old(vault).admin_id() ==> r == Err::<
                (),
                ManagerError,
            >(ManagerError::VaultError(crate::errors::VaultError::NotAdmin)),
            caller == old(self).owner_id() && old(self).account_id() == old(vault).admin_id() && old(
                vault,
            ).assets().contains(asset) ==> r == Err::<(), ManagerError>(
                ManagerError::VaultError(crate::errors::VaultError::AssetAlreadyExist),
            ),
            r is Ok <==> caller == old(self).owner_id() && old(self).account_id() == old(vault).admin_id() && !old(
                vault,
            ).assets().contains(asset),
            r is Ok ==> final(vault).assets() == old(vault).assets().push(asset),
            r is Err ==> final(vault).assets() == old(vault).assets(),
    {
        if !(caller == self.owner) {
            return Err(ManagerError::NotOwner);
        }
        match vault.add_asset(self.account, asset) {
            Ok(()) => Ok(()),
            Err(e) => Err(ManagerError::VaultError(e)),
        }
    }

    /// Records `market`, a market the owner has just deployed, and gives it
    /// access to the vault.
    pub fn deploy_market(&mut self, caller: AccountId, vault: &mut Vault, market: AccountId) -> (r: Result<
        AccountId,
        ManagerError,
    >)
        requires
            old(vault).wf(),
        ensures
            final(vault).wf(),
            final(self).owner_id() == old(self).owner_id(),
            final(self).account_id() == old(self).account_id(),
            final(self).vault_id() == old(self).vault_id(),
            final(self).counter() == old(self).counter(),
            final(vault).balances() == old(vault).balances(),
            final(vault).assets() == old(vault).assets(),
            caller != old(self).owner_id() ==> r == Err::<AccountId, ManagerError>(ManagerError::NotOwner),
            caller == old(self).owner_id() && old(self).account_id() != old(vault).admin_id() ==> r == Err::<
                AccountId,
                ManagerError,
            >(ManagerError::VaultError(crate::errors::VaultError::NotAdmin)),
            caller == old(self).owner_id() && old(self).account_id() == old(vault).admin_id() && old(
                vault,
            ).markets().contains(market) ==> r == Err::<AccountId, ManagerError>(
                ManagerError::VaultError(crate::errors::VaultError::MarketAlreadyExist),
            ),
            r is Ok <==> caller == old(self).owner_id() && old(self).account_id() == old(vault).admin_id() && !old(
                vault,
            ).markets().contains(market),
            r is Ok ==> r == Ok::<AccountId, ManagerError>(market) && final(self).deployed() == old(
                self,
            ).deployed().push(market) && final(vault).markets() == old(vault).markets().push(market),
            r is Err ==> *final(self) == *old(self) && final(vault).markets() == old(vault).markets(),
    {
        if !(caller == self.owner) {
            return Err(ManagerError::NotOwner);
        }
        match vault.add_market(self.account, market) {
            Ok(()) => {
                self.markets.push(market);
                Ok(market)
            },
            Err(e) => Err(ManagerError::VaultError(e)),
        }
    }
}

} // verus!
