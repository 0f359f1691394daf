//! The position engine: a liquidity pool in one underlying asset, against
//! which users open leveraged positions collateralised in the vault.
use vstd::prelude::*;
use crate::account::AccountId;
use crate::errors::{MarketError, VaultError};
use crate::book::{IdCounters, PositionBook, key_of};
use crate::events::{Approval, AssetMove, Transfer};
use crate::position::Position;
use crate::settlement::{
    LiquidationSplit, Settlement, close_settlement, close_settlement_spec, liquidation_leftover,
    liquidation_leftover_spec, liquidation_split_spec, split_liquidation,
};
use crate::pricing::{ORACLE_DECIMALS, PRICE_DECIMALS, pow10, price_from_oracle, pnl_defined, pnl_percent, pnl_value, liquidation_defined, liquidation_level, liquidation_price, usd_defined, usd_from_asset_amount, usd_value};
use crate::vault::{Collateral, CollateralKey, Vault, collateral_key};

verus! {

/// A market: its pool of the underlying asset (tracked by share supply;
/// the pool balance itself lives with the token), its open positions and
/// the next position id of each owner.
#[derive(Clone)]
pub struct Market {
    owner: AccountId,
    account: AccountId,
    name: Option<String>,
    symbol: Option<String>,
    decimals: u8,
    underlying_asset: AccountId,
    oracle: AccountId,
    vault: AccountId,
    wazero: AccountId,
    liquidation_threshold: i8,
    liquidation_penalty: u8,
    protocol_fee: u8,
    total_shares: u128,
    positions: PositionBook,
    next_ids: IdCounters,
}

/// Shares minted for depositing `amount` into a pool holding `pool_balance`
/// against `total` shares: one for one into an empty pool, else in
/// proportion, rounded down.
pub open spec fn shares_for_deposit(amount: int, total: int, pool_balance: int) -> int {
    if total == 0 {
        amount
    } else {
        amount * total / pool_balance
    }
}

pub open spec fn deposit_defined(amount: int, total: int, pool_balance: int) -> bool {
    total == 0 || (amount * total <= u128::MAX && pool_balance > 0)
}

/// Underlying units paid for burning `shares` of `total` from a pool holding
/// `pool_balance`, rounded down.
pub open spec fn amount_for_shares(shares: int, total: int, pool_balance: int) -> int {
    shares * pool_balance / total
}

/// What a successful `open` did: the id given to the position, the
/// allowance the market grants the vault, and the collateral moves, in order
/// (from the caller to the market, then from the market into custody).
pub struct Opened {
    pub id: u128,
    pub approval: Approval,
    pub moves: Vec<AssetMove>,
}

/// What a successful `close` did: the settlement, and the moves that carry
/// it out, in order (collateral to the owner, collateral swept into the pool,
/// profit from the pool to the owner; a zero part makes no move).
pub struct Closed {
    pub settlement: Settlement,
    pub moves: Vec<AssetMove>,
}

/// What a successful `liquidate` did: the split, and the moves that carry it
/// out, in order (to the owner, the protocol, the liquidator, the pool; a
/// zero part makes no move).
pub struct Liquidated {
    pub split: LiquidationSplit,
    pub moves: Vec<AssetMove>,
}

fn copy_text(t: &Option<String>) -> (r: Option<String>)
    ensures
        r == *t,
{
    match t {
        Some(s) => Some(s.clone()),
        None => None,
    }
}

/// The amount the vault holds under `k` (zero when there is no entry).
pub open spec fn held(vault: Vault, k: CollateralKey) -> int {
    if vault.balances().contains_key(k) {
        vault.balances()[k].balance as int
    } else {
        0
    }
}

/// A move of `amount` units, or none when `amount` is zero.
pub open spec fn move_if(asset: AccountId, from: AccountId, to: AccountId, amount: u128) -> Seq<AssetMove> {
    if amount > 0 {
        seq![AssetMove { asset, from, to, amount }]
    } else {
        Seq::empty()
    }
}

/// The position that `open` records.
pub open spec fn opened_position(
    user: AccountId,
    id: u128,
    collateral_asset: AccountId,
    collateral_amount: u128,
    is_long: bool,
    leverage: u8,
    collateral_price: u128,
    collateral_decimals: u8,
    price: u128,
    threshold: i8,
    block: u32,
) -> Position {
    Position {
        user,
        id,
        collateral_amount,
        collateral_asset,
        collateral_usd: usd_value(collateral_amount as int, collateral_decimals as nat, collateral_price as int) as u128,
        entry_price: price,
        leverage,
        is_long,
        block_open: block,
        liquidation_price: liquidation_level(price as int, leverage as int, threshold as int, is_long) as u128,
    }
}

/// What `open` does, from `before` and `vault_before` to `after`,
/// `vault_after` and the result `r`.
pub open spec fn open_outcome(
    before: Market,
    after: Market,
    vault_before: Vault,
    vault_after: Vault,
    caller: AccountId,
    collateral_asset: AccountId,
    collateral_amount: u128,
    is_long: bool,
    leverage: u8,
    collateral_price: u128,
    collateral_decimals: u8,
    price: u128,
    block: u32,
    r: Result<Opened, MarketError>,
) -> bool {
    let id = before.next_id(caller);
    let account = before.account_id();
    let ck = collateral_key(account, caller, id);
    if before.share_supply() == 0 {
        r == Err::<Opened, MarketError>(MarketError::MissingDeposits) && after == before
            && vault_after == vault_before
    } else if !usd_defined(collateral_amount as int, collateral_decimals as nat, collateral_price as int)
        || !liquidation_defined(price as int, leverage as int, before.threshold() as int, is_long)
        || price == 0 || id == u128::MAX {
        r matches Err(MarketError::Overflow(_)) && after == before && vault_after == vault_before
    } else if vault_before.deposit_error(account, caller, id, collateral_asset, collateral_amount) is Some {
        r == Err::<Opened, MarketError>(
            MarketError::VaultError(
                vault_before.deposit_error(account, caller, id, collateral_asset, collateral_amount)->0,
            ),
        ) && after == before && vault_after == vault_before
    } else {
        &&& r matches Ok(o) && o.id == id && o.approval == (Approval {
            owner: account,
            spender: vault_before.account_id(),
            amount: collateral_amount,
        }) && o.moves@ == Seq::<AssetMove>::empty().push(
            AssetMove { asset: collateral_asset, from: caller, to: account, amount: collateral_amount },
        ).push(AssetMove { asset: collateral_asset, from: account, to: vault_before.account_id(), amount: collateral_amount })
        &&& after.book() == before.book().insert(
            (caller, id),
            opened_position(
                caller,
                id,
                collateral_asset,
                collateral_amount,
                is_long,
                leverage,
                collateral_price,
                collateral_decimals,
                price,
                before.threshold(),
                block,
            ),
        )
        &&& after.next_id(caller) == id + 1
        &&& forall|u: AccountId| u != caller ==> after.next_id(u) == before.next_id(u)
        &&& vault_after.balances() == vault_before.balances().insert(
            ck,
            Collateral { balance: collateral_amount, asset: collateral_asset },
        )
    }
}

impl Market {
    /// Every open position has exactly its collateral in the vault under
    /// (market, owner, id), and every vault entry of this market belongs to an
    /// open position.
    pub open spec fn custody_matches(&self, vault: Vault) -> bool {
        &&& forall|k: (AccountId, u128)| #[trigger]
            self.book().contains_key(k) ==> vault.balances().contains_key(
                collateral_key(self.account_id(), k.0, k.1),
            ) && vault.balances()[collateral_key(self.account_id(), k.0, k.1)] == (Collateral {
                balance: self.book()[k].collateral_amount,
                asset: self.book()[k].collateral_asset,
            })
        &&& forall|ck: CollateralKey| #[trigger]
            vault.balances().contains_key(ck) && ck.market == self.account_id() ==> self.book().contains_key(
                (ck.user, ck.id),
            )
    }

    /// The vault's registries, administration and account are unchanged.
    pub open spec fn vault_frame(before: Vault, after: Vault) -> bool {
        &&& after.admin_id() == before.admin_id()
        &&& after.account_id() == before.account_id()
        &&& after.markets() == before.markets()
        &&& after.assets() == before.assets()
    }

    pub closed spec fn owner_id(&self) -> AccountId {
        self.owner
    }

    /// The market's own account: it holds the pool and receives swept
    /// collateral.
    pub closed spec fn account_id(&self) -> AccountId {
        self.account
    }

    /// Decimals of the market's share token.
    pub closed spec fn token_decimals(&self) -> u8 {
        self.decimals
    }

    /// Name of the market's share token.
    pub closed spec fn token_name(&self) -> Option<String> {
        self.name
    }

    /// Symbol of the market's share token.
    pub closed spec fn token_symbol(&self) -> Option<String> {
        self.symbol
    }

    /// The price oracle's account.
    pub closed spec fn oracle_id(&self) -> AccountId {
        self.oracle
    }

    /// The vault's account.
    pub closed spec fn vault_id(&self) -> AccountId {
        self.vault
    }

    pub closed spec fn underlying(&self) -> AccountId {
        self.underlying_asset
    }

    pub closed spec fn wrapped_native(&self) -> AccountId {
        self.wazero
    }

    pub closed spec fn threshold(&self) -> i8 {
        self.liquidation_threshold
    }

    pub closed spec fn penalty(&self) -> u8 {
        self.liquidation_penalty
    }

    pub closed spec fn fee(&self) -> u8 {
        self.protocol_fee
    }

    /// Pool shares in circulation.
    pub closed spec fn share_supply(&self) -> u128 {
        self.total_shares
    }

    /// Open positions, by (owner, id).
    pub closed spec fn book(&self) -> Map<(AccountId, u128), Position> {
        self.positions@
    }

    /// The id that `user`'s next position gets.
    pub closed spec fn next_id(&self, user: AccountId) -> u128 {
        self.next_ids.of(user)
    }

    /// Both tables are well formed, every open position's id lies below its
    /// owner's next id (ids are never reused), and the liquidation
    /// percentages are at most 100.
    pub closed spec fn wf(&self) -> bool {
        &&& self.positions.wf()
        &&& self.next_ids.wf()
        &&& forall|k: (AccountId, u128)| #[trigger]
            self.positions@.contains_key(k) ==> k.1 < self.next_ids.of(k.0)
        &&& self.liquidation_penalty <= 100
        &&& self.protocol_fee <= 100
    }

    /// A market in `underlying_asset`, owned by `owner` and trading as
    /// `account`, with no liquidity and no positions.
    pub fn new(
        owner: AccountId,
        account: AccountId,
        name: Option<String>,
        symbol: Option<String>,
        decimals: u8,
        underlying_asset: AccountId,
        oracle: AccountId,
        vault: AccountId,
        wazero: AccountId,
        liquidation_threshold: i8,
        liquidation_penalty: u8,
        protocol_fee: u8,
    ) -> (r: Market)
        requires
            liquidation_penalty <= 100,
            protocol_fee <= 100,
        ensures
            r.wf(),
            r.owner_id() == owner,
            r.account_id() == account,
            r.underlying() == underlying_asset,
            r.wrapped_native() == wazero,
            r.threshold() == liquidation_threshold,
            r.penalty() == liquidation_penalty,
            r.fee() == protocol_fee,
            r.token_name() == name,
            r.token_symbol() == symbol,
            r.token_decimals() == decimals,
            r.oracle_id() == oracle,
            r.vault_id() == vault,
            r.share_supply() == 0,
            r.book() == Map::<(AccountId, u128), Position>::empty(),
            forall|u: AccountId| r.next_id(u) == 0,
    {
        Market {
            owner,
            account,
            name,
            symbol,
            decimals,
            underlying_asset,
            oracle,
            vault,
            wazero,
            liquidation_threshold,
            liquidation_penalty,
            protocol_fee,
            total_shares: 0,
            positions: PositionBook::new(),
            next_ids: IdCounters::new(),
        }
    }

    /// A market with every address unset and every parameter zero.
    pub fn default(owner: AccountId, account: AccountId) -> (r: Market)
        ensures
            r.wf(),
            r.owner_id() == owner,
            r.account_id() == account,
            r.threshold() == 0,
            r.penalty() == 0,
            r.fee() == 0,
            r.share_supply() == 0,
            r.book() == Map::<(AccountId, u128), Position>::empty(),
    {
        Market::new(
            owner,
            account,
            None,
            None,
            0,
            AccountId::zero(),
            AccountId::zero(),
            AccountId::zero(),
            AccountId::zero(),
            0,
            0,
            0,
        )
    }

    /// Name, symbol and decimals of the market's share token.
    pub fn view_market_data(&self) -> (r: (Option<String>, Option<String>, u8))
        ensures
            r == (self.token_name(), self.token_symbol(), self.token_decimals()),
    {
        (copy_text(&self.name), copy_text(&self.symbol), self.decimals)
    }

    pub fn view_underlying_asset(&self) -> (r: AccountId)
        ensures
            r == self.underlying(),
    {
        self.underlying_asset
    }

    pub fn owner(&self) -> (r: AccountId)
        ensures
            r == self.owner_id(),
    {
        self.owner
    }

    pub fn account(&self) -> (r: AccountId)
        ensures
            r == self.account_id(),
    {
        self.account
    }

    pub fn oracle(&self) -> (r: AccountId)
        ensures
            r == self.oracle_id(),
    {
        self.oracle
    }

    pub fn vault(&self) -> (r: AccountId)
        ensures
            r == self.vault_id(),
    {
        self.vault
    }

    pub fn wazero(&self) -> (r: AccountId)
        ensures
            r == self.wrapped_native(),
    {
        self.wazero
    }

    pub fn total_supply(&self) -> (r: u128)
        ensures
            r == self.share_supply(),
    {
        self.total_shares
    }

    /// Accounts for a deposit of `amount` underlying units by `caller` into
    /// a pool that held `pool_balance` before it, and returns the mint of
    /// pool shares owed to the caller with the move of the deposit into the
    /// pool.
    pub fn deposit(&mut self, caller: AccountId, amount: u128, pool_balance: u128) -> (r: Result<(Transfer, AssetMove), MarketError>)
        requires
            old(self).wf(),
        ensures
            final(self).wf(),
            final(self).book() == old(self).book(),
            forall|u: AccountId| final(self).next_id(u) == old(self).next_id(u),
            final(self).frame_eq(*old(self)),
            ({
                let total = old(self).share_supply() as int;
                let minted = shares_for_deposit(amount as int, total, pool_balance as int);
                if !deposit_defined(amount as int, total, pool_balance as int) {
                    r matches Err(MarketError::Overflow(_)) && final(self).share_supply() == old(self).share_supply()
                } else if total + minted > u128::MAX {
                    r == Err::<(Transfer, AssetMove), MarketError>(MarketError::MintFailed)
                        && final(self).share_supply() == old(self).share_supply()
                } else {
                    &&& r matches Ok((t, m)) && t.from is None && t.to == Some(caller) && t.value == minted
                        && m == (AssetMove {
                        asset: old(self).underlying(),
                        from: caller,
                        to: old(self).account_id(),
                        amount,
                    })
                    &&& final(self).share_supply() == total + minted
                }
            }),
    {
        let minted = if self.total_shares == 0 {
            amount
        } else {
            let product = match amount.checked_mul(self.total_shares) {
                Some(x) => x,
                None => return Err(MarketError::Overflow("deposit: product")),
            };
            match product.checked_div(pool_balance) {
                Some(x) => x,
                None => return Err(MarketError::Overflow("deposit: pool")),
            }
        };
        let total = match self.total_shares.checked_add(minted) {
            Some(x) => x,
            None => return Err(MarketError::MintFailed),
        };
        self.total_shares = total;
        Ok((
            Transfer { from: None, to: Some(caller), value: minted },
            AssetMove { asset: self.underlying_asset, from: caller, to: self.account, amount },
        ))
    }

    /// Accounts for `caller` redeeming `shares` pool shares from a pool that
    /// holds `pool_balance`, and returns the burn together with the move of
    /// the underlying units owed to the caller.
    pub fn withdraw(&mut self, caller: AccountId, shares: u128, pool_balance: u128) -> (r: Result<
        (Transfer, AssetMove),
        MarketError,
    >)
        requires
            old(self).wf(),
        ensures
            final(self).wf(),
            final(self).book() == old(self).book(),
            forall|u: AccountId| final(self).next_id(u) == old(self).next_id(u),
            final(self).frame_eq(*old(self)),
            ({
                let total = old(self).share_supply() as int;
                if total == 0 || shares * pool_balance > u128::MAX {
                    r matches Err(MarketError::Overflow(_)) && final(self).share_supply() == old(self).share_supply()
                } else if shares > total {
                    r == Err::<(Transfer, AssetMove), MarketError>(MarketError::BurnFailed)
                        && final(self).share_supply() == old(self).share_supply()
                } else {
                    &&& r matches Ok((t, paid)) && t.from == Some(caller) && t.to is None && t.value == shares
                        && paid == (AssetMove {
                        asset: old(self).underlying(),
                        from: old(self).account_id(),
                        to: caller,
                        amount: amount_for_shares(shares as int, total, pool_balance as int) as u128,
                    })
                    &&& final(self).share_supply() == total - shares
                }
            }),
    {
        let product = match shares.checked_mul(pool_balance) {
            Some(x) => x,
            None => return Err(MarketError::Overflow("withdraw: product")),
        };
        let paid = match product.checked_div(self.total_shares) {
            Some(x) => x,
            None => return Err(MarketError::Overflow("withdraw: supply")),
        };
        if shares > self.total_shares {
            return Err(MarketError::BurnFailed);
        }
        self.total_shares = self.total_shares - shares;
        Ok((
            Transfer { from: Some(caller), to: None, value: shares },
            AssetMove { asset: self.underlying_asset, from: self.account, to: caller, amount: paid },
        ))
    }

    /// Opens a position for `caller`: `collateral_amount` units of
    /// `collateral_asset` (priced at `collateral_price` with
    /// `collateral_decimals` decimals) back a bet of `leverage` times on the
    /// underlying asset, entered at `price`. The collateral goes into the
    /// vault under the caller's next id. Either every step happens or none.
    pub fn open(
        &mut self,
        vault: &mut Vault,
        caller: AccountId,
        collateral_asset: AccountId,
        collateral_amount: u128,
        is_long: bool,
        leverage: u8,
        collateral_price: u128,
        collateral_decimals: u8,
        price: u128,
        block: u32,
    ) -> (r: Result<Opened, MarketError>)
        requires
            old(self).wf(),
            old(vault).wf(),
            old(self).custody_matches(*old(vault)),
        ensures
            final(self).wf(),
            final(vault).wf(),
            final(self).custody_matches(*final(vault)),
            final(self).frame_eq(*old(self)),
            final(self).share_supply() == old(self).share_supply(),
            Market::vault_frame(*old(vault), *final(vault)),
            open_outcome(
                *old(self),
                *final(self),
                *old(vault),
                *final(vault),
                caller,
                collateral_asset,
                collateral_amount,
                is_long,
                leverage,
                collateral_price,
                collateral_decimals,
                price,
                block,
                r,
            ),
    {
        if self.total_shares == 0 {
            return Err(MarketError::MissingDeposits);
        }
        let collateral_usd = usd_from_asset_amount(collateral_amount, collateral_decimals, collateral_price)?;
        let liquidation = liquidation_price(price, leverage, self.liquidation_threshold, is_long)?;
        if price == 0 {
            return Err(MarketError::Overflow("open: zero price"));
        }
        let id = self.next_ids.get(&caller);
        if id == u128::MAX {
            return Err(MarketError::Overflow("open: id"));
        }
        let ghost ck = collateral_key(self.account, caller, id);
        proof {
            assert(!self.positions@.contains_key((caller, id)));
            assert(!vault.balances().contains_key(ck) || ck.market != self.account);
        }
        let deposited = match vault.deposit(self.account, caller, id, collateral_asset, collateral_amount) {
            Ok(m) => m,
            Err(e) => return Err(MarketError::VaultError(e)),
        };
        let p = Position::new(
            caller,
            id,
            collateral_amount,
            collateral_asset,
            collateral_usd,
            price,
            leverage,
            is_long,
            block,
            liquidation,
        );
        let ghost old_book = self.positions@;
        let ghost old_self = *self;
        self.positions.insert(p);
        self.next_ids.set(&caller, id + 1);
        proof {
            assert(vault.balances() =~= old(vault).balances().insert(
                ck,
                Collateral { balance: collateral_amount, asset: collateral_asset },
            ));
            assert forall|k: (AccountId, u128)| #[trigger] self.positions@.contains_key(k) implies k.1
                < self.next_ids.of(k.0) by {
                if k != (caller, id) {
                    assert(old_book.contains_key(k));
                }
            }
            assert forall|k: (AccountId, u128)| #[trigger] self.book().contains_key(k) implies vault.balances().contains_key(
                collateral_key(self.account_id(), k.0, k.1),
            ) && vault.balances()[collateral_key(self.account_id(), k.0, k.1)] == (Collateral {
                balance: self.book()[k].collateral_amount,
                asset: self.book()[k].collateral_asset,
            }) by {
                if k != (caller, id) {
                    assert(old_book.contains_key(k));
                    assert(old_self.book().contains_key(k));
                    assert(collateral_key(self.account, k.0, k.1) != ck);
                }
            }
            assert forall|c: CollateralKey| #[trigger]
                vault.balances().contains_key(c) && c.market == self.account_id() implies self.book().contains_key(
                (c.user, c.id),
            ) by {
                if c != ck {
                    assert(old(vault).balances().contains_key(c));
                }
            }
        }
        let mut moves: Vec<AssetMove> = Vec::new();
        moves.push(AssetMove { asset: collateral_asset, from: caller, to: self.account, amount: collateral_amount });
        moves.push(deposited);
        assert(moves@ =~= Seq::<AssetMove>::empty().push(
            AssetMove { asset: collateral_asset, from: caller, to: self.account, amount: collateral_amount },
        ).push(deposited));
        Ok(Opened { id, approval: Approval { owner: self.account, spender: vault.account(), amount: collateral_amount }, moves })
    }

    /// `open` with the market's wrapped native asset as collateral.
    pub fn open_native(
        &mut self,
        vault: &mut Vault,
        caller: AccountId,
        collateral_amount: u128,
        is_long: bool,
        leverage: u8,
        collateral_price: u128,
        collateral_decimals: u8,
        price: u128,
        block: u32,
    ) -> (r: Result<Opened, MarketError>)
        requires
            old(self).wf(),
            old(vault).wf(),
            old(self).custody_matches(*old(vault)),
        ensures
            final(self).wf(),
            final(vault).wf(),
            final(self).custody_matches(*final(vault)),
            final(self).frame_eq(*old(self)),
            final(self).share_supply() == old(self).share_supply(),
            Market::vault_frame(*old(vault), *final(vault)),
            open_outcome(
                *old(self),
                *final(self),
                *old(vault),
                *final(vault),
                caller,
                old(self).wrapped_native(),
                collateral_amount,
                is_long,
                leverage,
                collateral_price,
                collateral_decimals,
                price,
                block,
                r,
            ),
    {
        let asset = self.wazero;
        self.open(
            vault,
            caller,
            asset,
            collateral_amount,
            is_long,
            leverage,
            collateral_price,
            collateral_decimals,
            price,
            block,
        )
    }

    /// Withdraws `amount` (if not zero) of what the vault holds for this
    /// market under (user, id), to `receiver`.
    fn release(
        account: AccountId,
        vault: &mut Vault,
        user: AccountId,
        id: u128,
        amount: u128,
        receiver: AccountId,
        moves: &mut Vec<AssetMove>,
    )
        requires
            old(vault).wf(),
            amount <= held(*old(vault), collateral_key(account, user, id)),
        ensures
            final(vault).wf(),
            Market::vault_frame(*old(vault), *final(vault)),
            held(*final(vault), collateral_key(account, user, id)) == held(*old(vault), collateral_key(account, user, id))
                - amount,
            final(vault).balances().remove(collateral_key(account, user, id)) == old(vault).balances().remove(
                collateral_key(account, user, id),
            ),
            final(vault).balances().contains_key(collateral_key(account, user, id)) ==> final(vault).balances()[collateral_key(account, user, id)].asset
                == old(vault).balances()[collateral_key(account, user, id)].asset,
            final(moves)@ == old(moves)@ + move_if(
                old(vault).balances()[collateral_key(account, user, id)].asset,
                old(vault).account_id(),
                receiver,
                amount,
            ),
    {
        let ghost ck = collateral_key(account, user, id);
        if amount == 0 {
            assert(moves@ =~= old(moves)@ + Seq::<AssetMove>::empty());
            return;
        }
        proof {
            vault.lemma_entry_sound(ck);
        }
        match vault.withdraw(account, user, id, amount, receiver) {
            Ok(m) => {
                moves.push(m);
                proof {
                    assert(vault.balances().remove(ck) =~= old(vault).balances().remove(ck));
                }
            },
            Err(_) => {},
        }
    }

    /// Closes `caller`'s position `id` at `price` of the underlying asset
    /// (`decimals` decimals) and `collateral_price` of its collateral
    /// (`collateral_decimals` decimals), pays it out as
    /// `close_settlement_spec` says, and removes it with its custody entry.
    /// A settlement that owes the owner more collateral than the vault holds
    /// is refused with `InsufficientBalance`. Either every step happens or
    /// none.
    pub fn close(
        &mut self,
        vault: &mut Vault,
        caller: AccountId,
        id: u128,
        price: u128,
        decimals: u8,
        collateral_price: u128,
        collateral_decimals: u8,
    ) -> (r: Result<Closed, MarketError>)
        requires
            old(self).wf(),
            old(vault).wf(),
            old(self).custody_matches(*old(vault)),
        ensures
            final(self).wf(),
            final(vault).wf(),
            final(self).custody_matches(*final(vault)),
            final(self).frame_eq(*old(self)),
            final(self).share_supply() == old(self).share_supply(),
            forall|u: AccountId| final(self).next_id(u) == old(self).next_id(u),
            Market::vault_frame(*old(vault), *final(vault)),
            ({
                let k = (caller, id);
                let ck = collateral_key(old(self).account_id(), caller, id);
                let p = old(self).book()[k];
                if !old(self).book().contains_key(k) {
                    r == Err::<Closed, MarketError>(MarketError::PositionNotFound) && *final(self) == *old(self)
                        && *final(vault) == *old(vault)
                } else {
                    match close_settlement_spec(p, price, decimals, collateral_price, collateral_decimals) {
                        None => r matches Err(MarketError::Overflow(_)) && *final(self) == *old(self) && *final(vault)
                            == *old(vault),
                        Some(s) => if s.to_owner > p.collateral_amount {
                            r == Err::<Closed, MarketError>(MarketError::VaultError(VaultError::InsufficientBalance))
                                && *final(self) == *old(self) && *final(vault) == *old(vault)
                        } else {
                            &&& r matches Ok(c) && c.settlement == s && c.moves@ == move_if(
                                p.collateral_asset,
                                old(vault).account_id(),
                                caller,
                                s.to_owner,
                            ) + move_if(p.collateral_asset, old(vault).account_id(), old(self).account_id(), s.to_pool)
                                + move_if(old(self).underlying(), old(self).account_id(), caller, s.profit)
                            &&& final(self).book() == old(self).book().remove(k)
                            &&& final(vault).balances() == old(vault).balances().remove(ck)
                        },
                    }
                }
            }),
    {
        let p = match self.positions.get(&caller, id) {
            Some(p) => p,
            None => return Err(MarketError::PositionNotFound),
        };
        let settlement = close_settlement(&p, price, decimals, collateral_price, collateral_decimals)?;
        if settlement.to_owner > p.collateral_amount {
            return Err(MarketError::VaultError(VaultError::InsufficientBalance));
        }
        let ghost ck = collateral_key(self.account, caller, id);
        let ghost old_book = self.positions@;
        proof {
            self.positions.lemma_keys((caller, id));
            assert(self.book().contains_key((caller, id)));
        }
        let mut moves: Vec<AssetMove> = Vec::new();
        let vault_account = vault.account();
        Market::release(self.account, vault, caller, id, settlement.to_owner, caller, &mut moves);
        Market::release(self.account, vault, caller, id, settlement.to_pool, self.account, &mut moves);
        proof {
            if vault.balances().contains_key(ck) {
                vault.lemma_entry_sound(ck);
            }
            assert(vault.balances() =~= old(vault).balances().remove(ck));
        }
        if settlement.profit > 0 {
            moves.push(AssetMove { asset: self.underlying_asset, from: self.account, to: caller, amount: settlement.profit });
        }
        self.positions.remove(&caller, id);
        proof {
            assert(moves@ =~= move_if(p.collateral_asset, vault_account, caller, settlement.to_owner) + move_if(
                p.collateral_asset,
                vault_account,
                self.account,
                settlement.to_pool,
            ) + move_if(self.underlying_asset, self.account, caller, settlement.profit));
            assert forall|k: (AccountId, u128)| #[trigger] self.positions@.contains_key(k) implies k.1
                < self.next_ids.of(k.0) by {
                assert(old_book.contains_key(k));
            }
            assert forall|c: CollateralKey| #[trigger]
                vault.balances().contains_key(c) && c.market == self.account_id() implies self.book().contains_key(
                (c.user, c.id),
            ) by {
                assert(old(vault).balances().contains_key(c));
            }
        }
        Ok(Closed { settlement, moves })
    }

    /// Whether `user`'s position `id` may be liquidated at `price`: its PnL
    /// percentage is at or below the liquidation threshold.
    pub fn is_liquidatable(&self, user: AccountId, id: u128, price: u128) -> (r: Result<bool, MarketError>)
        requires
            self.wf(),
        ensures
            ({
                let k = (user, id);
                let p = self.book()[k];
                if !self.book().contains_key(k) {
                    r == Err::<bool, MarketError>(MarketError::PositionNotFound)
                } else if !pnl_defined(p.entry_price as int, price as int, p.leverage as int, p.is_long) {
                    r matches Err(MarketError::Overflow(_))
                } else {
                    r == Ok::<bool, MarketError>(
                        pnl_value(p.entry_price as int, price as int, p.leverage as int, p.is_long)
                            <= self.threshold(),
                    )
                }
            }),
    {
        let p = match self.positions.get(&user, id) {
            Some(p) => p,
            None => return Err(MarketError::PositionNotFound),
        };
        let pnl = pnl_percent(p.entry_price, price, p.leverage, p.is_long)?;
        Ok(pnl <= self.liquidation_threshold as i128)
    }

    /// Liquidates `user`'s position `id` on behalf of `caller` at `price` of
    /// the underlying asset and `collateral_price` of its collateral. The
    /// collateral that survives the loss (`liquidation_leftover_spec`) is
    /// divided as `liquidation_split_spec` says: the owner's remainder, the
    /// protocol's fee to the market owner, the reward to `caller`, the rest
    /// to the pool; the parts add up to the collateral. A leftover larger than
    /// the collateral held is refused with `InsufficientBalance`. The position
    /// and its custody entry are removed. Either every step happens or none.
    pub fn liquidate(
        &mut self,
        vault: &mut Vault,
        caller: AccountId,
        user: AccountId,
        id: u128,
        price: u128,
        collateral_price: u128,
        collateral_decimals: u8,
    ) -> (r: Result<Liquidated, MarketError>)
        requires
            old(self).wf(),
            old(vault).wf(),
            old(self).custody_matches(*old(vault)),
        ensures
            final(self).wf(),
            final(vault).wf(),
            final(self).custody_matches(*final(vault)),
            final(self).frame_eq(*old(self)),
            final(self).share_supply() == old(self).share_supply(),
            forall|u: AccountId| final(self).next_id(u) == old(self).next_id(u),
            Market::vault_frame(*old(vault), *final(vault)),
            ({
                let k = (user, id);
                let ck = collateral_key(old(self).account_id(), user, id);
                let p = old(self).book()[k];
                let pnl = pnl_value(p.entry_price as int, price as int, p.leverage as int, p.is_long);
                if !old(self).book().contains_key(k) {
                    r == Err::<Liquidated, MarketError>(MarketError::PositionNotFound) && *final(self) == *old(self)
                        && *final(vault) == *old(vault)
                } else if !pnl_defined(p.entry_price as int, price as int, p.leverage as int, p.is_long) {
                    r matches Err(MarketError::Overflow(_)) && *final(self) == *old(self) && *final(vault)
                        == *old(vault)
                } else if pnl > old(self).threshold() {
                    r == Err::<Liquidated, MarketError>(MarketError::NotLiquidatable) && *final(self) == *old(self)
                        && *final(vault) == *old(vault)
                } else {
                    match liquidation_leftover_spec(p, price, collateral_price, collateral_decimals) {
                        None => r matches Err(MarketError::Overflow(_)) && *final(self) == *old(self) && *final(vault)
                            == *old(vault),
                        Some(leftover) => if leftover > p.collateral_amount {
                            r == Err::<Liquidated, MarketError>(
                                MarketError::VaultError(VaultError::InsufficientBalance),
                            ) && *final(self) == *old(self) && *final(vault) == *old(vault)
                        } else {
                            let s = liquidation_split_spec(
                                p.collateral_amount,
                                leftover,
                                old(self).penalty(),
                                old(self).fee(),
                            );
                            let from = old(vault).account_id();
                            &&& r matches Ok(l) && l.split == s && l.moves@ == move_if(
                                p.collateral_asset,
                                from,
                                user,
                                s.to_owner,
                            ) + move_if(p.collateral_asset, from, old(self).owner_id(), s.to_protocol) + move_if(
                                p.collateral_asset,
                                from,
                                caller,
                                s.to_liquidator,
                            ) + move_if(p.collateral_asset, from, old(self).account_id(), s.to_pool)
                            &&& s.to_owner + s.to_protocol + s.to_liquidator + s.to_pool == p.collateral_amount
                            &&& final(self).book() == old(self).book().remove(k)
                            &&& final(vault).balances() == old(vault).balances().remove(ck)
                        },
                    }
                }
            }),
    {
        let p = match self.positions.get(&user, id) {
            Some(p) => p,
            None => return Err(MarketError::PositionNotFound),
        };
        let pnl = pnl_percent(p.entry_price, price, p.leverage, p.is_long)?;
        if pnl > self.liquidation_threshold as i128 {
            return Err(MarketError::NotLiquidatable);
        }
        let leftover = liquidation_leftover(&p, pnl, price, collateral_price, collateral_decimals)?;
        if leftover > p.collateral_amount {
            return Err(MarketError::VaultError(VaultError::InsufficientBalance));
        }
        let split = split_liquidation(p.collateral_amount, leftover, self.liquidation_penalty, self.protocol_fee);
        let ghost ck = collateral_key(self.account, user, id);
        let ghost old_book = self.positions@;
        proof {
            self.positions.lemma_keys((user, id));
            assert(self.book().contains_key((user, id)));
        }
        let mut moves: Vec<AssetMove> = Vec::new();
        let from = vault.account();
        Market::release(self.account, vault, user, id, split.to_owner, user, &mut moves);
        Market::release(self.account, vault, user, id, split.to_protocol, self.owner, &mut moves);
        Market::release(self.account, vault, user, id, split.to_liquidator, caller, &mut moves);
        Market::release(self.account, vault, user, id, split.to_pool, self.account, &mut moves);
        proof {
            if vault.balances().contains_key(ck) {
                vault.lemma_entry_sound(ck);
            }
            assert(vault.balances() =~= old(vault).balances().remove(ck));
        }
        self.positions.remove(&user, id);
        proof {
            let a = p.collateral_asset;
            assert(moves@ =~= move_if(a, from, user, split.to_owner) + move_if(a, from, self.owner, split.to_protocol)
                + move_if(a, from, caller, split.to_liquidator) + move_if(a, from, self.account, split.to_pool));
            assert forall|k: (AccountId, u128)| #[trigger] self.positions@.contains_key(k) implies k.1
                < self.next_ids.of(k.0) by {
                assert(old_book.contains_key(k));
            }
            assert forall|c: CollateralKey| #[trigger]
                vault.balances().contains_key(c) && c.market == self.account_id() implies self.book().contains_key(
                (c.user, c.id),
            ) by {
                assert(old(vault).balances().contains_key(c));
            }
        }
        Ok(Liquidated { split, moves })
    }

    /// The position `id` of `user`, if open.
    pub fn view_position(&self, user: AccountId, id: u128) -> (r: Option<Position>)
        requires
            self.wf(),
        ensures
            r is Some <==> self.book().contains_key((user, id)),
            r matches Some(p) ==> p == self.book()[(user, id)],
    {
        self.positions.get(&user, id)
    }

    /// The open positions of `user`, each once, in no particular order.
    pub fn view_positions(&self, user: AccountId) -> (r: Vec<Position>)
        requires
            self.wf(),
        ensures
            forall|i: int| 0 <= i < r@.len() ==> #[trigger] self.book().contains_key((user, r@[i].id))
                && self.book()[(user, r@[i].id)] == r@[i],
            forall|id: u128| #[trigger]
                self.book().contains_key((user, id)) ==> exists|i: int| 0 <= i < r@.len() && #[trigger] r@[i].id == id,
            forall|i: int, j: int| 0 <= i < j < r@.len() ==> #[trigger] r@[i].id != #[trigger] r@[j].id,
    {
        let r = self.positions.positions_of(&user);
        proof {
            assert forall|i: int| 0 <= i < r@.len() implies #[trigger] self.book().contains_key((user, r@[i].id))
                && self.book()[(user, r@[i].id)] == r@[i] by {
                assert(key_of(r@[i]) == (user, r@[i].id));
            }
        }
        r
    }

    /// The engine's price for an oracle reply on a pair: the oracle's
    /// 18-decimal price cut to 6 decimals; a missing pair is `OracleFailed`.
    pub fn get_price(&self, reply: Option<(u64, u128)>) -> (r: Result<u128, MarketError>)
        ensures
            reply is None <==> r == Err::<u128, MarketError>(MarketError::OracleFailed),
            reply matches Some((_, p)) ==> r == Ok::<u128, MarketError>(
                ((p as int) / (pow10((ORACLE_DECIMALS - PRICE_DECIMALS) as nat) as int)) as u128,
            ),
    {
        price_from_oracle(reply)
    }

    /// The liquidation price of a position entered at `entry_price` with
    /// `leverage` and direction `is_long`, at this market's threshold.
    pub fn view_liquidation_price(&self, entry_price: u128, leverage: u8, is_long: bool) -> (r: Result<u128, MarketError>)
        ensures
            r is Ok <==> liquidation_defined(entry_price as int, leverage as int, self.threshold() as int, is_long),
            r matches Ok(v) ==> v == liquidation_level(entry_price as int, leverage as int, self.threshold() as int, is_long),
            r matches Err(e) ==> e is Overflow,
    {
        liquidation_price(entry_price, leverage, self.liquidation_threshold, is_long)
    }

    /// The PnL percentage of `user`'s position `id` at `price`.
    pub fn view_position_pnl(&self, user: AccountId, id: u128, price: u128) -> (r: Result<i128, MarketError>)
        requires
            self.wf(),
        ensures
            ({
                let p = self.book()[(user, id)];
                if !self.book().contains_key((user, id)) {
                    r == Err::<i128, MarketError>(MarketError::PositionNotFound)
                } else if !pnl_defined(p.entry_price as int, price as int, p.leverage as int, p.is_long) {
                    r matches Err(MarketError::Overflow(_))
                } else {
                    r == Ok::<i128, MarketError>(
                        pnl_value(p.entry_price as int, price as int, p.leverage as int, p.is_long) as i128,
                    )
                }
            }),
    {
        let p = match self.positions.get(&user, id) {
            Some(p) => p,
            None => return Err(MarketError::PositionNotFound),
        };
        pnl_percent(p.entry_price, price, p.leverage, p.is_long)
    }

    /// Each open position of `user` with its PnL percentage and `price`;
    /// fails with `Overflow` if any PnL does not fit.
    pub fn view_all(&self, user: AccountId, price: u128) -> (r: Result<Vec<(Position, i128, u128)>, MarketError>)
        requires
            self.wf(),
        ensures
            r is Ok <==> forall|id: u128| #[trigger]
                self.book().contains_key((user, id)) ==> pnl_defined(
                    self.book()[(user, id)].entry_price as int,
                    price as int,
                    self.book()[(user, id)].leverage as int,
                    self.book()[(user, id)].is_long,
                ),
            r matches Ok(v) ==> {
                &&& forall|i: int| 0 <= i < v@.len() ==> {
                    let (p, pnl, at) = #[trigger] v@[i];
                    &&& self.book().contains_key((user, p.id)) && self.book()[(user, p.id)] == p
                    &&& pnl == pnl_value(p.entry_price as int, price as int, p.leverage as int, p.is_long)
                    &&& at == price
                }
                &&& forall|id: u128| #[trigger]
                    self.book().contains_key((user, id)) ==> exists|i: int| 0 <= i < v@.len() && #[trigger] v@[i].0.id == id
                &&& forall|i: int, j: int| 0 <= i < j < v@.len() ==> #[trigger] v@[i].0.id != #[trigger] v@[j].0.id
            },
            r matches Err(e) ==> e is Overflow,
    {
        let positions = self.view_positions(user);
        let mut out: Vec<(Position, i128, u128)> = Vec::new();
        let mut i: usize = 0;
        while i < positions.len()
            invariant
                self.wf(),
                0 <= i <= positions@.len(),
                out@.len() == i,
                forall|t: int| 0 <= t < positions@.len() ==> #[trigger] self.book().contains_key((user, positions@[t].id))
                    && self.book()[(user, positions@[t].id)] == positions@[t],
                forall|a: int, b: int| 0 <= a < b < positions@.len() ==> #[trigger] positions@[a].id != #[trigger] positions@[b].id,
                forall|t: int| 0 <= t < i ==> {
                    let (p, pnl, at) = #[trigger] out@[t];
                    &&& p == positions@[t]
                    &&& pnl_defined(p.entry_price as int, price as int, p.leverage as int, p.is_long)
                    &&& pnl == pnl_value(p.entry_price as int, price as int, p.leverage as int, p.is_long)
                    &&& at == price
                },
            decreases positions@.len() - i,
        {
            let p = positions[i];
            let pnl = match pnl_percent(p.entry_price, price, p.leverage, p.is_long) {
                Ok(v) => v,
                Err(e) => {
                    proof {
                        assert(self.book().contains_key((user, p.id)));
                    }
                    return Err(e);
                },
            };
            out.push((p, pnl, price));
            i = i + 1;
        }
        proof {
            assert forall|id: u128| #[trigger] self.book().contains_key((user, id)) implies pnl_defined(
                self.book()[(user, id)].entry_price as int,
                price as int,
                self.book()[(user, id)].leverage as int,
                self.book()[(user, id)].is_long,
            ) by {
                let t = choose|t: int| 0 <= t < positions@.len() && #[trigger] positions@[t].id == id;
                assert(out@[t].0 == positions@[t]);
            }
            assert forall|a: int, b: int| 0 <= a < b < out@.len() implies #[trigger] out@[a].0.id != #[trigger] out@[b].0.id by {
                assert(out@[a].0 == positions@[a] && out@[b].0 == positions@[b]);
            }
            assert forall|id: u128| #[trigger] self.book().contains_key((user, id)) implies exists|t: int|
                0 <= t < out@.len() && #[trigger] out@[t].0.id == id by {
                let t = choose|t: int| 0 <= t < positions@.len() && #[trigger] positions@[t].id == id;
                assert(out@[t].0 == positions@[t]);
            }
        }
        Ok(out)
    }

    /// The liquidation penalty and the protocol fee are percentages.
    pub proof fn lemma_percentages(&self)
        requires
            self.wf(),
        ensures
            self.penalty() <= 100,
            self.fee() <= 100,
    {
    }

    /// No position and no custody entry exists under an owner's next id.
    pub proof fn lemma_next_id_free(&self, vault: Vault, user: AccountId)
        requires
            self.wf(),
            self.custody_matches(vault),
        ensures
            !self.book().contains_key((user, self.next_id(user))),
            !vault.balances().contains_key(collateral_key(self.account_id(), user, self.next_id(user))),
    {
        assert(!self.positions@.contains_key((user, self.next_ids.of(user))));
    }

    /// The fields that only the constructor sets are unchanged.
    pub open spec fn frame_eq(&self, other: Market) -> bool {
        &&& self.owner_id() == other.owner_id()
        &&& self.account_id() == other.account_id()
        &&& self.underlying() == other.underlying()
        &&& self.wrapped_native() == other.wrapped_native()
        &&& self.threshold() == other.threshold()
        &&& self.penalty() == other.penalty()
        &&& self.fee() == other.fee()
    }
}

/// Depositing `a` and then `b` into an empty pool mints as many shares as
/// depositing `a + b` at once: the first deposit mints one for one, the
/// second (against supply `a` and a pool holding `a`) mints `b`, so the
/// supply ends at `a + b`, the amount the pool holds.
pub proof fn lemma_split_deposit(a: u128, b: u128)
    requires
        a > 0,
        b > 0,
        a + b <= u128::MAX,
        a * b <= u128::MAX,
    ensures
        deposit_defined(a as int, 0, 0),
        shares_for_deposit(a as int, 0, 0) == a,
        deposit_defined(b as int, a as int, a as int),
        shares_for_deposit(a as int, 0, 0) + shares_for_deposit(b as int, a as int, a as int) == shares_for_deposit(
            a + b,
            0,
            0,
        ),
        shares_for_deposit(a + b, 0, 0) == a + b,
{
    let ai = a as int;
    let bi = b as int;
    assert(bi * ai / ai == bi) by (nonlinear_arith)
        requires ai > 0;
}

/// Closing a position right after opening it, with the underlying price
/// unchanged, settles at zero PnL: the whole collateral goes back to the
/// owner, nothing to the pool and no profit. Removing the position and its
/// custody entry then leaves the book and the vault as before the open.
pub proof fn lemma_close_after_open_at_entry_price(
    before: Market,
    after: Market,
    vault_before: Vault,
    vault_after: Vault,
    caller: AccountId,
    collateral_asset: AccountId,
    collateral_amount: u128,
    is_long: bool,
    leverage: u8,
    collateral_price: u128,
    collateral_decimals: u8,
    price: u128,
    block: u32,
    opened: Opened,
    decimals: u8,
    later_collateral_price: u128,
    later_collateral_decimals: u8,
)
    requires
        before.wf(),
        vault_before.wf(),
        before.custody_matches(vault_before),
        open_outcome(
            before,
            after,
            vault_before,
            vault_after,
            caller,
            collateral_asset,
            collateral_amount,
            is_long,
            leverage,
            collateral_price,
            collateral_decimals,
            price,
            block,
            Ok(opened),
        ),
    ensures
        after.book().contains_key((caller, opened.id)),
        close_settlement_spec(
            after.book()[(caller, opened.id)],
            price,
            decimals,
            later_collateral_price,
            later_collateral_decimals,
        ) == Some(Settlement { to_owner: collateral_amount, to_pool: 0, profit: 0 }),
        after.book().remove((caller, opened.id)) == before.book(),
        vault_after.balances().remove(collateral_key(before.account_id(), caller, opened.id))
            == vault_before.balances(),
{
    let id = opened.id;
    let k = (caller, id);
    let ck = collateral_key(before.account_id(), caller, id);
    assert(!before.book().contains_key(k));
    assert(!vault_before.balances().contains_key(ck));
    let p = after.book()[k];
    lemma_pnl_at_entry_price(price as int, leverage as int, is_long);
    assert(after.book().remove(k) =~= before.book());
    assert(vault_after.balances().remove(ck) =~= vault_before.balances());
}

/// A position valued at its entry price has a PnL of exactly zero.
pub proof fn lemma_pnl_at_entry_price(price: int, leverage: int, is_long: bool)
    requires
        0 < price <= i128::MAX,
    ensures
        pnl_defined(price, price, leverage, is_long),
        pnl_value(price, price, leverage, is_long) == 0,
{
    assert(crate::pricing::pnl_scaled(price, price, leverage, is_long) == 0) by (nonlinear_arith);
}

/// A deposit into a funded pool never dilutes the other holders: after
/// minting `shares_for_deposit` shares for `amount`, the pool holds at least
/// as much per share as before (`(pool + amount) / (total + minted) >=
/// pool / total`, compared by cross-multiplication).
pub proof fn lemma_deposit_keeps_share_value(amount: u128, total: u128, pool_balance: u128)
    requires
        total > 0,
        pool_balance > 0,
    ensures
        (pool_balance + amount) * total >= pool_balance * (total + shares_for_deposit(
            amount as int,
            total as int,
            pool_balance as int,
        )),
{
    let a = amount as int;
    let t = total as int;
    let b = pool_balance as int;
    let m = a * t / b;
    assert(m * b <= a * t) by (nonlinear_arith)
        requires b > 0, m == a * t / b;
    assert((b + a) * t >= b * (t + m)) by (nonlinear_arith)
        requires m * b <= a * t;
}

/// A withdrawal never dilutes the remaining holders: after burning `shares`
/// and paying `amount_for_shares`, the pool holds at least as much per
/// remaining share as before.
pub proof fn lemma_withdraw_keeps_share_value(shares: u128, total: u128, pool_balance: u128)
    requires
        0 < shares <= total,
    ensures
        amount_for_shares(shares as int, total as int, pool_balance as int) <= pool_balance,
        (pool_balance - amount_for_shares(shares as int, total as int, pool_balance as int)) * total
            >= pool_balance * (total - shares),
{
    let s = shares as int;
    let t = total as int;
    let b = pool_balance as int;
    let paid = s * b / t;
    assert(paid * t <= s * b && paid <= b) by (nonlinear_arith)
        requires t > 0, 0 < s <= t, b >= 0, paid == s * b / t;
    assert((b - paid) * t >= b * (t - s)) by (nonlinear_arith)
        requires paid * t <= s * b;
}

} // verus!
