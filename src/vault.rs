//! The custody ledger: collateral balances keyed by (market, user, position),
//! movable only by registered markets, in registered assets.
use vstd::prelude::*;
use crate::account::{AccountId, contains_account, copy_accounts};
use crate::errors::VaultError;
use crate::events::AssetMove;

verus! {

/// The key of a balance entry: the market that deposited it, the user and
/// the user's position id in that market.
#[derive(Clone, Copy, Debug)]
pub struct CollateralKey {
    pub market: AccountId,
    pub user: AccountId,
    pub id: u128,
}

/// A balance entry: how much of which asset is held.
#[derive(Clone, Copy, Debug)]
pub struct Collateral {
    pub balance: u128,
    pub asset: AccountId,
}

pub open spec fn collateral_key(market: AccountId, user: AccountId, id: u128) -> CollateralKey {
    CollateralKey { market, user, id }
}

fn same_key(a: &CollateralKey, b: &CollateralKey) -> (r: bool)
    ensures
        r == (*a == *b),
{
    a.id == b.id && a.market == b.market && a.user == b.user
}

/// The custody ledger. Balances are keyed by (market, user, id); only a
/// registered market moves the balances under its own key, and only in
/// registered assets. The admin registers markets and assets.
#[derive(Clone)]
pub struct Vault {
    admin: AccountId,
    account: AccountId,
    entries: Vec<(CollateralKey, Collateral)>,
    markets: Vec<AccountId>,
    assets: Vec<AccountId>,
    ledger: Ghost<Map<CollateralKey, Collateral>>,
}

impl Vault {
    /// The account allowed to register assets and markets.
    pub closed spec fn admin_id(&self) -> AccountId {
        self.admin
    }

    /// The vault's own account, which holds the custody.
    pub closed spec fn account_id(&self) -> AccountId {
        self.account
    }

    /// Every balance entry.
    pub closed spec fn balances(&self) -> Map<CollateralKey, Collateral> {
        self.ledger@
    }

    /// The markets allowed to deposit and withdraw, in order of registration.
    pub closed spec fn markets(&self) -> Seq<AccountId> {
        self.markets@
    }

    /// The assets accepted as collateral, in order of registration.
    pub closed spec fn assets(&self) -> Seq<AccountId> {
        self.assets@
    }

    /// The ledger holds each key once, and every entry is positive, in a
    /// registered asset, deposited by a registered market.
    pub closed spec fn wf(&self) -> bool {
        &&& forall|i: int|
            0 <= i < self.entries@.len() ==> #[trigger] self.ledger@.contains_key(self.entries@[i].0)
                && self.ledger@[self.entries@[i].0] == self.entries@[i].1
        &&& forall|k: CollateralKey|
            #[trigger] self.ledger@.contains_key(k) ==> exists|i: int|
                0 <= i < self.entries@.len() && #[trigger] self.entries@[i].0 == k
        &&& forall|i: int, j: int|
            0 <= i < j < self.entries@.len() ==> #[trigger] self.entries@[i].0 != #[trigger] self.entries@[j].0
        &&& forall|k: CollateralKey| #[trigger]
            self.ledger@.contains_key(k) ==> entry_sound(self.ledger@[k], k, self.markets@, self.assets@)
    }

    /// Every entry of a well-formed vault is sound.
    pub proof fn lemma_entry_sound(&self, k: CollateralKey)
        requires
            self.wf(),
            self.balances().contains_key(k),
        ensures
            entry_sound(self.balances()[k], k, self.markets(), self.assets()),
    {
    }

    /// What `deposit` rejects, in the order it checks.
    pub open spec fn deposit_error(
        &self,
        caller: AccountId,
        user: AccountId,
        id: u128,
        asset: AccountId,
        amount: u128,
    ) -> Option<VaultError> {
        let k = collateral_key(caller, user, id);
        if !self.markets().contains(caller) {
            Some(VaultError::MarketNotFound)
        } else if !self.assets().contains(asset) {
            Some(VaultError::AssetNotFound)
        } else if amount == 0 {
            Some(VaultError::AmountIsZero)
        } else if self.balances().contains_key(k) && self.balances()[k].asset != asset {
            Some(VaultError::DifferentCollateralAsset)
        } else if self.balances().contains_key(k) && self.balances()[k].balance + amount > u128::MAX {
            Some(VaultError::BalanceOverflow)
        } else {
            None
        }
    }

    /// What `withdraw` rejects, in the order it checks.
    pub open spec fn withdraw_error(&self, caller: AccountId, user: AccountId, id: u128, amount: u128) -> Option<
        VaultError,
    > {
        let k = collateral_key(caller, user, id);
        if !self.markets().contains(caller) {
            Some(VaultError::MarketNotFound)
        } else if !self.balances().contains_key(k) {
            Some(VaultError::CollateralNotFound)
        } else if !self.assets().contains(self.balances()[k].asset) {
            Some(VaultError::AssetNotFound)
        } else if amount == 0 {
            Some(VaultError::AmountIsZero)
        } else if amount > self.balances()[k].balance {
            Some(VaultError::InsufficientBalance)
        } else {
            None
        }
    }

    /// The balances after a deposit that passed its checks: the amount is
    /// added to the key's balance.
    pub open spec fn deposited(&self, caller: AccountId, user: AccountId, id: u128, asset: AccountId, amount: u128) -> Map<
        CollateralKey,
        Collateral,
    > {
        let k = collateral_key(caller, user, id);
        let before: int = if self.balances().contains_key(k) {
            self.balances()[k].balance as int
        } else {
            0
        };
        self.balances().insert(k, Collateral { balance: (before + amount) as u128, asset })
    }

    /// The balances after a withdrawal that passed its checks: the amount is
    /// taken off the key's balance, and an emptied entry is removed.
    pub open spec fn withdrawn(&self, caller: AccountId, user: AccountId, id: u128, amount: u128) -> Map<
        CollateralKey,
        Collateral,
    > {
        let k = collateral_key(caller, user, id);
        let held = self.balances()[k];
        if amount == held.balance {
            self.balances().remove(k)
        } else {
            self.balances().insert(k, Collateral { balance: (held.balance - amount) as u128, asset: held.asset })
        }
    }

    /// An empty vault administered by `admin`, holding custody as `account`.
    pub fn new(admin: AccountId, account: AccountId) -> (r: Vault)
        ensures
            r.wf(),
            r.admin_id() == admin,
            r.account_id() == account,
            r.balances() == Map::<CollateralKey, Collateral>::empty(),
            r.markets() == Seq::<AccountId>::empty(),
            r.assets() == Seq::<AccountId>::empty(),
    {
        let r = Vault {
            admin,
            account,
            entries: Vec::new(),
            markets: Vec::new(),
            assets: Vec::new(),
            ledger: Ghost(Map::empty()),
        };
        assert(r.markets@ =~= Seq::<AccountId>::empty());
        r
    }

    pub fn admin(&self) -> (r: AccountId)
        ensures
            r == self.admin_id(),
    {
        self.admin
    }

    pub fn account(&self) -> (r: AccountId)
        ensures
            r == self.account_id(),
    {
        self.account
    }

    fn find(&self, k: &CollateralKey) -> (r: Option<usize>)
        requires
            self.wf(),
        ensures
            r matches Some(i) ==> i < self.entries@.len() && self.entries@[i as int].0 == *k,
            r is None ==> !self.ledger@.contains_key(*k),
    {
        let mut i: usize = 0;
        while i < self.entries.len()
            invariant
                self.wf(),
                0 <= i <= self.entries@.len(),
                forall|j: int| 0 <= j < i ==> self.entries@[j].0 != *k,
            decreases self.entries@.len() - i,
        {
            if same_key(&self.entries[i].0, k) {
                return Some(i);
            }
            i = i + 1;
        }
        proof {
            if self.ledger@.contains_key(*k) {
                let j = choose|j: int| 0 <= j < self.entries@.len() && #[trigger] self.entries@[j].0 == *k;
                assert(self.entries@[j].0 == *k);
            }
        }
        None
    }

    /// The balance and asset held for (market, user, id), if any.
    pub fn user_collateral(&self, market: AccountId, user: AccountId, id: u128) -> (r: Option<(u128, AccountId)>)
        requires
            self.wf(),
        ensures
            r is Some <==> self.balances().contains_key(collateral_key(market, user, id)),
            r matches Some((b, a)) ==> b == self.balances()[collateral_key(market, user, id)].balance
                && a == self.balances()[collateral_key(market, user, id)].asset,
    {
        let k = CollateralKey { market, user, id };
        match self.find(&k) {
            Some(i) => {
                let c = self.entries[i].1;
                assert(self.ledger@.contains_key(self.entries@[i as int].0));
                Some((c.balance, c.asset))
            },
            None => None,
        }
    }

    pub fn supported_collateral_assets(&self) -> (r: Vec<AccountId>)
        ensures
            r@ == self.assets(),
    {
        copy_accounts(&self.assets)
    }

    pub fn markets_with_access(&self) -> (r: Vec<AccountId>)
        ensures
            r@ == self.markets(),
    {
        copy_accounts(&self.markets)
    }

    /// Registers `asset` as collateral. Only the admin may, and only once.
    pub fn add_asset(&mut self, caller: AccountId, asset: AccountId) -> (r: Result<(), VaultError>)
        requires
            old(self).wf(),
        ensures
            final(self).wf(),
            final(self).admin_id() == old(self).admin_id(),
            final(self).account_id() == old(self).account_id(),
            final(self).balances() == old(self).balances(),
            final(self).markets() == old(self).markets(),
            caller != old(self).admin_id() ==> r == Err::<(), VaultError>(VaultError::NotAdmin),
            caller == old(self).admin_id() && old(self).assets().contains(asset) ==> r == Err::<(), VaultError>(
                VaultError::AssetAlreadyExist,
            ),
            r is Ok <==> caller == old(self).admin_id() && !old(self).assets().contains(asset),
            r is Ok ==> final(self).assets() == old(self).assets().push(asset),
            r is Err ==> final(self).assets() == old(self).assets(),
    {
        if !(caller == self.admin) {
            return Err(VaultError::NotAdmin);
        }
        if contains_account(&self.assets, &asset) {
            return Err(VaultError::AssetAlreadyExist);
        }
        let ghost before = self.assets@;
        self.assets.push(asset);
        proof {
            assert(self.ledger@ == old(self).ledger@ && self.entries@ == old(self).entries@);
            assert forall|a: AccountId| before.contains(a) implies self.assets@.contains(a) by {
                let j = choose|j: int| 0 <= j < before.len() && before[j] == a;
                assert(self.assets@[j] == a);
            }
            assert forall|k: CollateralKey| #[trigger] self.ledger@.contains_key(k) implies entry_sound(
                self.ledger@[k],
                k,
                self.markets@,
                self.assets@,
            ) by {
                assert(entry_sound(self.ledger@[k], k, self.markets@, before));
            }
        }
        Ok(())
    }

    /// Gives `market` access to deposits and withdrawals. Only the admin may,
    /// and only once.
    pub fn add_market(&mut self, caller: AccountId, market: AccountId) -> (r: Result<(), VaultError>)
        requires
            old(self).wf(),
        ensures
            final(self).wf(),
            final(self).admin_id() == old(self).admin_id(),
            final(self).account_id() == old(self).account_id(),
            final(self).balances() == old(self).balances(),
            final(self).assets() == old(self).assets(),
            caller != old(self).admin_id() ==> r == Err::<(), VaultError>(VaultError::NotAdmin),
            caller == old(self).admin_id() && old(self).markets().contains(market) ==> r == Err::<
                (),
                VaultError,
            >(VaultError::MarketAlreadyExist),
            r is Ok <==> caller == old(self).admin_id() && !old(self).markets().contains(market),
            r is Ok ==> final(self).markets() == old(self).markets().push(market),
            r is Err ==> final(self).markets() == old(self).markets(),
    {
        if !(caller == self.admin) {
            return Err(VaultError::NotAdmin);
        }
        if contains_account(&self.markets, &market) {
            return Err(VaultError::MarketAlreadyExist);
        }
        let ghost before = self.markets@;
        self.markets.push(market);
        proof {
            assert(self.ledger@ == old(self).ledger@ && self.entries@ == old(self).entries@);
            assert forall|a: AccountId| before.contains(a) implies self.markets@.contains(a) by {
                let j = choose|j: int| 0 <= j < before.len() && before[j] == a;
                assert(self.markets@[j] == a);
            }
            assert forall|k: CollateralKey| #[trigger] self.ledger@.contains_key(k) implies entry_sound(
                self.ledger@[k],
                k,
                self.markets@,
                self.assets@,
            ) by {
                assert(entry_sound(self.ledger@[k], k, before, self.assets@));
            }
        }
        Ok(())
    }

    /// Takes `amount` of `asset` into custody for (caller, user, id). The
    /// caller is the depositing market; the returned move pulls the asset
    /// from it into the vault's account.
    pub fn deposit(&mut self, caller: AccountId, user: AccountId, id: u128, asset: AccountId, amount: u128) -> (r:
        Result<AssetMove, VaultError>)
        requires
            old(self).wf(),
        ensures
            final(self).wf(),
            final(self).admin_id() == old(self).admin_id(),
            final(self).account_id() == old(self).account_id(),
            final(self).markets() == old(self).markets(),
            final(self).assets() == old(self).assets(),
            match old(self).deposit_error(caller, user, id, asset, amount) {
                Some(e) => r == Err::<AssetMove, VaultError>(e) && *final(self) == *old(self),
                None => {
                    &&& r matches Ok(m) && m.asset == asset && m.from == caller && m.to == old(self).account_id()
                        && m.amount == amount
                    &&& final(self).balances() == old(self).deposited(caller, user, id, asset, amount)
                },
            },
    {
        if !contains_account(&self.markets, &caller) {
            return Err(VaultError::MarketNotFound);
        }
        if !contains_account(&self.assets, &asset) {
            return Err(VaultError::AssetNotFound);
        }
        if amount == 0 {
            return Err(VaultError::AmountIsZero);
        }
        let k = CollateralKey { market: caller, user, id };
        match self.find(&k) {
            Some(i) => {
                let held = self.entries[i].1;
                assert(self.ledger@.contains_key(self.entries@[i as int].0));
                if !(held.asset == asset) {
                    return Err(VaultError::DifferentCollateralAsset);
                }
                let total = match held.balance.checked_add(amount) {
                    Some(x) => x,
                    None => return Err(VaultError::BalanceOverflow),
                };
                let c = Collateral { balance: total, asset };
                let ghost old_entries = self.entries@;
                self.entries.set(i, (k, c));
                proof {
                    self.ledger@ = self.ledger@.insert(k, c);
                    assert forall|q: CollateralKey| #[trigger] self.ledger@.contains_key(q) implies exists|j: int|
                        0 <= j < self.entries@.len() && #[trigger] self.entries@[j].0 == q by {
                        let j = choose|j: int| 0 <= j < old_entries.len() && #[trigger] old_entries[j].0 == q;
                        assert(self.entries@[j].0 == q);
                    }
                }
            },
            None => {
                let c = Collateral { balance: amount, asset };
                let ghost old_entries = self.entries@;
                self.entries.push((k, c));
                proof {
                    self.ledger@ = self.ledger@.insert(k, c);
                    assert forall|q: CollateralKey| #[trigger] self.ledger@.contains_key(q) implies exists|j: int|
                        0 <= j < self.entries@.len() && #[trigger] self.entries@[j].0 == q by {
                        if q == k {
                            assert(self.entries@[old_entries.len() as int].0 == q);
                        } else {
                            let j = choose|j: int| 0 <= j < old_entries.len() && #[trigger] old_entries[j].0 == q;
                            assert(self.entries@[j].0 == q);
                        }
                    }
                }
            },
        }
        Ok(AssetMove { asset, from: caller, to: self.account, amount })
    }

    /// Releases `amount` held for (caller, user, id) to `receiver`. The entry
    /// goes when its balance reaches zero.
    #[verifier::spinoff_prover]
    pub fn withdraw(&mut self, caller: AccountId, user: AccountId, id: u128, amount: u128, receiver: AccountId) -> (r:
        Result<AssetMove, VaultError>)
        requires
            old(self).wf(),
        ensures
            final(self).wf(),
            final(self).admin_id() == old(self).admin_id(),
            final(self).account_id() == old(self).account_id(),
            final(self).markets() == old(self).markets(),
            final(self).assets() == old(self).assets(),
            match old(self).withdraw_error(caller, user, id, amount) {
                Some(e) => r == Err::<AssetMove, VaultError>(e) && *final(self) == *old(self),
                None => {
                    let held = old(self).balances()[collateral_key(caller, user, id)];
                    &&& r matches Ok(m) && m.asset == held.asset && m.from == old(self).account_id() && m.to
                        == receiver && m.amount == amount
                    &&& final(self).balances() == old(self).withdrawn(caller, user, id, amount)
                },
            },
    {
        if !contains_account(&self.markets, &caller) {
            return Err(VaultError::MarketNotFound);
        }
        let k = CollateralKey { market: caller, user, id };
        let i = match self.find(&k) {
            Some(i) => i,
            None => return Err(VaultError::CollateralNotFound),
        };
        let held = self.entries[i].1;
        if !contains_account(&self.assets, &held.asset) {
            return Err(VaultError::AssetNotFound);
        }
        if amount == 0 {
            return Err(VaultError::AmountIsZero);
        }
        if amount > held.balance {
            return Err(VaultError::InsufficientBalance);
        }
        let ghost old_entries = self.entries@;
        if amount == held.balance {
            self.entries.swap_remove(i);
            proof {
                self.ledger@ = self.ledger@.remove(k);
                let n = old_entries.len() - 1;
                assert forall|j: int| 0 <= j < self.entries@.len() implies #[trigger] self.entries@[j]
                    == if j == i { old_entries[n] } else { old_entries[j] } by {}
                assert forall|q: CollateralKey| #[trigger] self.ledger@.contains_key(q) implies exists|j: int|
                    0 <= j < self.entries@.len() && #[trigger] self.entries@[j].0 == q by {
                    let j = choose|j: int| 0 <= j < old_entries.len() && #[trigger] old_entries[j].0 == q;
                    if j == n {
                        assert(self.entries@[i as int].0 == q);
                    } else {
                        assert(self.entries@[j].0 == q);
                    }
                }
                assert forall|a: int, b: int| 0 <= a < b < self.entries@.len() implies #[trigger] self.entries@[a].0
                    != #[trigger] self.entries@[b].0 by {
                    let oa = if a == i { n } else { a };
                    let ob = if b == i { n } else { b };
                    assert(oa != ob);
                    if oa < ob {
                        assert(old_entries[oa].0 != old_entries[ob].0);
                    } else {
                        assert(old_entries[ob].0 != old_entries[oa].0);
                    }
                }
                assert forall|j: int| 0 <= j < self.entries@.len() implies #[trigger] self.ledger@.contains_key(
                    self.entries@[j].0,
                ) && self.ledger@[self.entries@[j].0] == self.entries@[j].1 by {
                    let oj = if j == i { n } else { j };
                    assert(self.entries@[j] == old_entries[oj]);
                    assert(oj != i);
                    if oj < i {
                        assert(old_entries[oj].0 != old_entries[i as int].0);
                    } else {
                        assert(old_entries[i as int].0 != old_entries[oj].0);
                    }
                    assert(old(self).ledger@.contains_key(old_entries[oj].0));
                    assert(old_entries[oj].0 != k);
                    assert(self.ledger@.contains_key(old_entries[oj].0));
                }
                assert forall|q: CollateralKey| #[trigger] self.ledger@.contains_key(q) implies entry_sound(
                    self.ledger@[q],
                    q,
                    self.markets@,
                    self.assets@,
                ) by {
                    assert(old(self).ledger@.contains_key(q));
                }
                assert(self.wf());
            }
        } else {
            let c = Collateral { balance: held.balance - amount, asset: held.asset };
            self.entries.set(i, (k, c));
            proof {
                self.ledger@ = self.ledger@.insert(k, c);
                assert forall|q: CollateralKey| #[trigger] self.ledger@.contains_key(q) implies exists|j: int|
                    0 <= j < self.entries@.len() && #[trigger] self.entries@[j].0 == q by {
                    let j = choose|j: int| 0 <= j < old_entries.len() && #[trigger] old_entries[j].0 == q;
                    assert(self.entries@[j].0 == q);
                }
                assert(self.wf());
            }
        }
        Ok(AssetMove { asset: held.asset, from: self.account, to: receiver, amount })
    }
}

/// An entry is positive, in a registered asset, and keyed by a registered
/// market.
pub open spec fn entry_sound(c: Collateral, k: CollateralKey, markets: Seq<AccountId>, assets: Seq<AccountId>) -> bool {
    &&& c.balance > 0
    &&& assets.contains(c.asset)
    &&& markets.contains(k.market)
}

/// Withdrawing, right after a deposit into an empty key, the amount just
/// deposited passes every check of `withdraw` and removes the entry: the
/// ledger is as it was before the deposit.
pub proof fn lemma_withdraw_all_after_deposit(
    before: Vault,
    after_deposit: Vault,
    market: AccountId,
    user: AccountId,
    id: u128,
    asset: AccountId,
    amount: u128,
)
    requires
        before.wf(),
        !before.balances().contains_key(collateral_key(market, user, id)),
        before.deposit_error(market, user, id, asset, amount) is None,
        after_deposit.markets() == before.markets(),
        after_deposit.assets() == before.assets(),
        after_deposit.balances() == before.deposited(market, user, id, asset, amount),
    ensures
        after_deposit.withdraw_error(market, user, id, amount) is None,
        after_deposit.withdrawn(market, user, id, amount) == before.balances(),
        !after_deposit.withdrawn(market, user, id, amount).contains_key(collateral_key(market, user, id)),
{
    let k = collateral_key(market, user, id);
    assert(after_deposit.balances()[k].balance == amount);
    assert(after_deposit.withdrawn(market, user, id, amount) =~= before.balances());
}

/// A withdrawal of more than the stored balance is refused with
/// `InsufficientBalance` (and `withdraw` then leaves the ledger unchanged).
pub proof fn lemma_overdraw_rejected(v: Vault, market: AccountId, user: AccountId, id: u128, amount: u128)
    requires
        v.wf(),
        v.markets().contains(market),
        v.balances().contains_key(collateral_key(market, user, id)),
        amount > v.balances()[collateral_key(market, user, id)].balance,
    ensures
        v.withdraw_error(market, user, id, amount) == Some(VaultError::InsufficientBalance),
{
    v.lemma_entry_sound(collateral_key(market, user, id));
}

/// A deposit of another asset under a funded key is refused with
/// `DifferentCollateralAsset` (and `deposit` then leaves the ledger
/// unchanged).
pub proof fn lemma_other_asset_rejected(
    v: Vault,
    market: AccountId,
    user: AccountId,
    id: u128,
    asset: AccountId,
    amount: u128,
)
    requires
        v.wf(),
        v.markets().contains(market),
        v.assets().contains(asset),
        amount > 0,
        v.balances().contains_key(collateral_key(market, user, id)),
        v.balances()[collateral_key(market, user, id)].asset != asset,
    ensures
        v.deposit_error(market, user, id, asset, amount) == Some(VaultError::DifferentCollateralAsset),
{
}

} // verus!
