use leverage_market::account::AccountId;
use leverage_market::errors::{ManagerError, VaultError};
use leverage_market::manager::Manager;
use leverage_market::vault::Vault;

fn acct(n: u8) -> AccountId {
    AccountId([n; 32])
}

const OWNER: u8 = 1;
const MANAGER: u8 = 2;
const VAULT: u8 = 3;

fn setup() -> (Manager, Vault) {
    let m = Manager::new(1, acct(OWNER), acct(MANAGER), acct(VAULT), acct(4), acct(5));
    let v = Vault::new(acct(MANAGER), acct(VAULT));
    (m, v)
}

#[test]
fn manager_registers_assets() {
    let (mut m, mut v) = setup();
    assert_eq!(m.add_collateral_asset(acct(9), &mut v, acct(20)), Err(ManagerError::NotOwner));
    assert_eq!(m.add_collateral_asset(acct(OWNER), &mut v, acct(20)), Ok(()));
    assert_eq!(
        m.add_collateral_asset(acct(OWNER), &mut v, acct(20)),
        Err(ManagerError::VaultError(VaultError::AssetAlreadyExist))
    );
    assert_eq!(v.supported_collateral_assets(), vec![acct(20)]);
}

#[test]
fn manager_deploys_markets() {
    let (mut m, mut v) = setup();
    assert_eq!(m.deploy_market(acct(9), &mut v, acct(30)), Err(ManagerError::NotOwner));
    assert_eq!(m.deploy_market(acct(OWNER), &mut v, acct(30)), Ok(acct(30)));
    assert_eq!(
        m.deploy_market(acct(OWNER), &mut v, acct(30)),
        Err(ManagerError::VaultError(VaultError::MarketAlreadyExist))
    );
    assert_eq!(m.view_markets(), vec![acct(30)]);
    assert_eq!(v.markets_with_access(), vec![acct(30)]);
    assert_eq!(m.view_vault(), acct(VAULT));
}

#[test]
fn manager_must_administer_vault() {
    let (mut m, _) = setup();
    let mut other = Vault::new(acct(OWNER), acct(VAULT));
    assert_eq!(
        m.deploy_market(acct(OWNER), &mut other, acct(30)),
        Err(ManagerError::VaultError(VaultError::NotAdmin))
    );
    assert!(m.view_markets().is_empty());
}

#[test]
fn manager_counter_advances() {
    let (mut m, _) = setup();
    assert_eq!(m.increment_id(), 0);
    assert_eq!(m.increment_id(), 1);
    assert_eq!(m.increment_id(), 2);
}
