//! The engine's state and its operations.

use crate::ledger::ShareLedger;
use crate::pool::LiquidityPool;
use crate::types::{
    AccountId, AssetId, Balance, Credit, Error, Event, Settlement, Transfer,
    ADMIN_FUND, BOOTSTRAP_CREDIT,
};
use std::collections::HashMap;
use vstd::prelude::*;

verus! {

broadcast use vstd::std_specs::hash::group_hash_axioms;

/// The pool's tokens are `a` and `b`, in either order.
pub open spec fn pair_matches(pool: LiquidityPool, a: AssetId, b: AssetId) -> bool {
    (pool.token1 == a && pool.token2 == b) || (pool.token1 == b && pool.token2 == a)
}

/// The engine's state as mathematics: roles, pools in the order of their
/// ids (the first pool has id 1), and shares by pool id and account.
pub struct State {
    pub admin: Option<AccountId>,
    pub wallet: Option<AccountId>,
    pub admins: Set<AccountId>,
    pub users: Set<AccountId>,
    pub pools: Seq<LiquidityPool>,
    pub shares: Map<(u64, AccountId), u128>,
}

/// The credit and the event of the root admin's registration.
#[derive(Clone, Copy, Debug, PartialEq, Eq, Structural)]
pub struct Bootstrap {
    pub credit: Credit,
    pub event: Event,
}

/// A transfer out of the custodial wallet and its event.
#[derive(Clone, Copy, Debug, PartialEq, Eq, Structural)]
pub struct Payout {
    pub transfer: Transfer,
    pub event: Event,
}

impl State {
    /// The root admin and the wallet exist together, the root admin is an
    /// admin, nobody is admin before there is a root admin, every pool is
    /// well formed, no two pools share an unordered token pair, and shares
    /// are held only in pools that exist, by no account more than the pool
    /// has issued.
    pub open spec fn wf(self) -> bool {
        &&& (self.admin is Some <==> self.wallet is Some)
        &&& (self.admin matches Some(a) ==> self.admins.contains(a))
        &&& (self.admin is None ==> self.admins == Set::<AccountId>::empty())
        &&& self.pools.len() < u64::MAX
        &&& forall|i: int| 0 <= i < self.pools.len() ==> (#[trigger] self.pools[i]).wf()
        &&& forall|i: int, j: int|
            0 <= i < j < self.pools.len() ==> !pair_matches(
                #[trigger] self.pools[i],
                (#[trigger] self.pools[j]).token1,
                self.pools[j].token2,
            )
        &&& forall|k: (u64, AccountId)| #[trigger]
            self.shares.contains_key(k) ==> self.has_pool(k.0) && self.shares[k] <= self.pool(
                k.0,
            ).total_liquidity
    }

    /// A pool has this id.
    pub open spec fn has_pool(self, pool_id: u64) -> bool {
        1 <= pool_id <= self.pools.len()
    }

    /// The pool with this id.
    pub open spec fn pool(self, pool_id: u64) -> LiquidityPool
        recommends
            self.has_pool(pool_id),
    {
        self.pools[pool_id - 1]
    }

    /// Some pool trades `a` against `b`, in either order.
    pub open spec fn pair_registered(self, a: AssetId, b: AssetId) -> bool {
        exists|i: int| 0 <= i < self.pools.len() && pair_matches(#[trigger] self.pools[i], a, b)
    }

    /// The shares that `account` holds in the pool `pool_id`; none is zero.
    pub open spec fn share(self, pool_id: u64, account: AccountId) -> u128 {
        if self.shares.contains_key((pool_id, account)) {
            self.shares[(pool_id, account)]
        } else {
            0
        }
    }

    /// The state with the pool `pool_id` replaced.
    pub open spec fn with_pool(self, pool_id: u64, pool: LiquidityPool) -> State {
        State { pools: self.pools.update(pool_id - 1, pool), ..self }
    }

    /// What registering the root admin returns: it is refused once a wallet exists.
    pub open spec fn register_admin_spec(self, who: AccountId, wallet: AccountId) -> Result<
        Bootstrap,
        Error,
    > {
        if self.wallet is Some {
            Err(Error::AlreadyInitialized)
        } else {
            Ok(
                Bootstrap {
                    credit: Credit { account: wallet, amount: BOOTSTRAP_CREDIT },
                    event: Event::AdminRegistred { admin_account: who, exchange_wallet: wallet },
                },
            )
        }
    }

    /// The state after the root admin was registered.
    pub open spec fn after_register_admin(self, who: AccountId, wallet: AccountId) -> State {
        State {
            admin: Some(who),
            wallet: Some(wallet),
            admins: Set::<AccountId>::empty().insert(who),
            ..self
        }
    }

    /// What appointing an admin returns: only the root admin may, and only once for each account.
    pub open spec fn register_sub_admin_spec(self, who: AccountId, sub_admin: AccountId) -> Result<
        Event,
        Error,
    > {
        if self.admin != Some(who) {
            Err(Error::PermissionDenied)
        } else if self.admins.contains(sub_admin) {
            Err(Error::AlreadyRegistered)
        } else {
            Ok(Event::NewAdmin { who: sub_admin })
        }
    }

    /// The state after `sub_admin` was appointed.
    pub open spec fn after_register_sub_admin(self, sub_admin: AccountId) -> State {
        State { admins: self.admins.insert(sub_admin), ..self }
    }

    /// What registering a user returns: only an admin may, and only once for each account.
    pub open spec fn register_user_spec(self, who: AccountId, account: AccountId) -> Result<
        Credit,
        Error,
    > {
        if !self.admins.contains(who) {
            Err(Error::PermissionDenied)
        } else if self.users.contains(account) {
            Err(Error::AlreadyRegistered)
        } else {
            Ok(Credit { account, amount: BOOTSTRAP_CREDIT })
        }
    }

    /// The state after `account` was registered as a user.
    pub open spec fn after_register_user(self, account: AccountId) -> State {
        State { users: self.users.insert(account), ..self }
    }

    /// What registering a pool returns: the next id, unless the caller is
    /// no admin, the tokens are equal, or the pair is taken in either order.
    pub open spec fn register_liquidity_spec(
        self,
        who: AccountId,
        token1: AssetId,
        token2: AssetId,
    ) -> Result<u64, Error> {
        if !self.admins.contains(who) {
            Err(Error::PermissionDenied)
        } else if token1 == token2 {
            Err(Error::DuplicateToken)
        } else if self.pair_registered(token1, token2) {
            Err(Error::AlreadyRegistered)
        } else if self.pools.len() + 1 >= u64::MAX {
            Err(Error::StorageOverflow)
        } else {
            Ok((self.pools.len() + 1) as u64)
        }
    }

    /// The state after an empty pool for the two tokens was appended.
    pub open spec fn after_register_liquidity(self, token1: AssetId, token2: AssetId) -> State {
        State {
            pools: self.pools.push(
                LiquidityPool { token1, token2, reserve1: 0, reserve2: 0, total_liquidity: 0 },
            ),
            ..self
        }
    }

    /// The caller is an admin, the account a user, and the pool exists.
    pub open spec fn gate(self, who: AccountId, pool_id: u64, account: AccountId) -> Result<
        (),
        Error,
    > {
        if !self.admins.contains(who) {
            Err(Error::PermissionDenied)
        } else if !self.users.contains(account) {
            Err(Error::AccountNotFound)
        } else if !self.has_pool(pool_id) {
            Err(Error::NotFound)
        } else {
            Ok(())
        }
    }

    /// What a deposit on behalf of `account` returns: the two transfers into
    /// the wallet and the event, or the first check that fails.
    pub open spec fn add_liquidity_spec(
        self,
        who: AccountId,
        pool_id: u64,
        account: AccountId,
        amount1: Balance,
        amount2: Balance,
    ) -> Result<Settlement, Error> {
        let pool = self.pool(pool_id);
        match self.gate(who, pool_id, account) {
            Err(e) => Err(e),
            Ok(_) => match pool.deposit_spec(amount1, amount2) {
                Err(e) => Err(e),
                Ok(d) => Ok(
                    Settlement {
                        first: Transfer {
                            from: account,
                            to: self.wallet.unwrap(),
                            token: pool.token1,
                            amount: d.amount1,
                        },
                        second: Transfer {
                            from: account,
                            to: self.wallet.unwrap(),
                            token: pool.token2,
                            amount: d.amount2,
                        },
                        event: Event::AddLiquidity {
                            id: pool_id,
                            amount: d.shares,
                            by: account,
                            token1_balance: d.amount1,
                            token2_balance: d.amount2,
                        },
                    },
                ),
            },
        }
    }

    /// The state after the deposit: the pool has grown and the account's
    /// shares have grown by what was issued.
    pub open spec fn after_add_liquidity(
        self,
        pool_id: u64,
        account: AccountId,
        amount1: Balance,
        amount2: Balance,
    ) -> State {
        let pool = self.pool(pool_id);
        let d = pool.deposit_spec(amount1, amount2).unwrap();
        State {
            pools: self.pools.update(pool_id - 1, pool.with_deposit(d)),
            shares: self.shares.insert(
                (pool_id, account),
                (self.share(pool_id, account) + d.shares) as u128,
            ),
            ..self
        }
    }

    /// What withdrawing all of the account's shares returns: the two
    /// transfers out of the wallet and the event, or the first check that fails.
    pub open spec fn remove_liquidity_spec(
        self,
        who: AccountId,
        pool_id: u64,
        account: AccountId,
    ) -> Result<Settlement, Error> {
        let pool = self.pool(pool_id);
        let shares = self.share(pool_id, account);
        match self.gate(who, pool_id, account) {
            Err(e) => Err(e),
            Ok(_) => match pool.withdrawal_spec(shares) {
                Err(e) => Err(e),
                Ok(w) => Ok(
                    Settlement {
                        first: Transfer {
                            from: self.wallet.unwrap(),
                            to: account,
                            token: pool.token1,
                            amount: w.amount1,
                        },
                        second: Transfer {
                            from: self.wallet.unwrap(),
                            to: account,
                            token: pool.token2,
                            amount: w.amount2,
                        },
                        event: Event::RemoveLiquidity {
                            id: pool_id,
                            amount: shares,
                            by: account,
                            token1_balance: w.amount1,
                            token2_balance: w.amount2,
                        },
                    },
                ),
            },
        }
    }

    /// The state after the withdrawal: the pool has shrunk and the
    /// account's entry is gone.
    pub open spec fn after_remove_liquidity(self, pool_id: u64, account: AccountId) -> State {
        let pool = self.pool(pool_id);
        let shares = self.share(pool_id, account);
        let w = pool.withdrawal_spec(shares).unwrap();
        State {
            pools: self.pools.update(pool_id - 1, pool.with_withdrawal(shares, w)),
            shares: self.shares.remove((pool_id, account)),
            ..self
        }
    }

    /// What a swap on behalf of `account` returns: the transfer in, the
    /// transfer out and the event, or the first check that fails.
    pub open spec fn swap_token_spec(
        self,
        who: AccountId,
        pool_id: u64,
        account: AccountId,
        side: u8,
        amount_in: Balance,
    ) -> Result<Settlement, Error> {
        let pool = self.pool(pool_id);
        if !self.admins.contains(who) {
            Err(Error::PermissionDenied)
        } else if !self.users.contains(account) {
            Err(Error::AccountNotFound)
        } else if amount_in == 0 {
            Err(Error::InsufficientBalance)
        } else if !self.has_pool(pool_id) {
            Err(Error::NotFound)
        } else {
            match pool.swap_spec(side, amount_in) {
                Err(e) => Err(e),
                Ok(s) => Ok(
                    Settlement {
                        first: Transfer {
                            from: account,
                            to: self.wallet.unwrap(),
                            token: s.token_in,
                            amount: amount_in,
                        },
                        second: Transfer {
                            from: self.wallet.unwrap(),
                            to: account,
                            token: s.token_out,
                            amount: s.amount_out,
                        },
                        event: Event::TokenSwaped {
                            pool_id,
                            token_in: s.token_in,
                            token_out: s.token_out,
                            amount_in,
                            amount_out: s.amount_out,
                            account,
                        },
                    },
                ),
            }
        }
    }

    /// The state after the swap: only the pool's reserves have changed.
    pub open spec fn after_swap_token(self, pool_id: u64, side: u8, amount_in: Balance) -> State {
        let pool = self.pool(pool_id);
        let s = pool.swap_spec(side, amount_in).unwrap();
        self.with_pool(pool_id, pool.with_swap(side, amount_in, s.amount_out))
    }

    /// What an admin's raw transfer returns: the transfer to carry out.
    pub open spec fn withdraw_token_spec(
        self,
        who: AccountId,
        from: AccountId,
        to: AccountId,
        token: AssetId,
        amount: Balance,
    ) -> Result<Transfer, Error> {
        if !self.admins.contains(who) {
            Err(Error::PermissionDenied)
        } else if !self.users.contains(from) {
            Err(Error::AccountNotFound)
        } else {
            Ok(Transfer { from, to, token, amount })
        }
    }

    /// What the root admin's request for funds returns: the credit to make.
    pub open spec fn add_fund_spec(self, who: AccountId) -> Result<Credit, Error> {
        if self.admin != Some(who) {
            Err(Error::PermissionDenied)
        } else {
            Ok(Credit { account: who, amount: ADMIN_FUND })
        }
    }

    /// What the root admin's transfer out of the wallet returns.
    pub open spec fn transfer_token_to_spec(
        self,
        who: AccountId,
        amount: Balance,
        token_id: AssetId,
        to: AccountId,
    ) -> Result<Payout, Error> {
        if self.admin != Some(who) {
            Err(Error::PermissionDenied)
        } else {
            Ok(
                Payout {
                    transfer: Transfer { from: self.wallet.unwrap(), to, token: token_id, amount },
                    event: Event::TransferAmount { who, to, amount, token_id },
                },
            )
        }
    }
}

/// The engine: access control, pool registry and share ledger.
#[derive(Clone, Debug)]
pub struct Pallet {
    admin: Option<AccountId>,
    wallet: Option<AccountId>,
    admins: HashMap<AccountId, bool>,
    users: HashMap<AccountId, bool>,
    pools: Vec<LiquidityPool>,
    ledgers: Vec<ShareLedger>,
}

impl View for Pallet {
    type V = State;

    closed spec fn view(&self) -> State {
        State {
            admin: self.admin,
            wallet: self.wallet,
            admins: self.admins@.dom(),
            users: self.users@.dom(),
            pools: self.pools@,
            shares: Map::new(
                |k: (u64, AccountId)|
                    1 <= k.0 <= self.ledgers@.len() && self.ledgers@[k.0 - 1]@.contains_key(k.1),
                |k: (u64, AccountId)| self.ledgers@[k.0 - 1]@[k.1],
            ),
        }
    }
}

impl Pallet {
    /// The state is well formed, and every pool has issued exactly the
    /// shares that its accounts hold.
    pub open spec fn wf(&self) -> bool {
        self@.wf() && self.ledgers_agree()
    }

    /// Each pool has its ledger, whose balances add up to the pool's shares.
    pub closed spec fn ledgers_agree(&self) -> bool {
        &&& self.ledgers@.len() == self.pools@.len()
        &&& forall|i: int|
            0 <= i < self.ledgers@.len() ==> (#[trigger] self.ledgers@[i]).wf()
                && self.ledgers@[i].total() == self.pools@[i].total_liquidity
    }

    proof fn lemma_shares_bounded(&self)
        requires
            self.ledgers_agree(),
        ensures
            forall|k: (u64, AccountId)| #[trigger]
                self@.shares.contains_key(k) ==> self@.has_pool(k.0) && self@.shares[k]
                    <= self@.pool(k.0).total_liquidity,
    {
        assert forall|k: (u64, AccountId)| #[trigger] self@.shares.contains_key(k) implies self@.has_pool(
            k.0,
        ) && self@.shares[k] <= self@.pool(k.0).total_liquidity by {
            self.ledgers@[k.0 - 1].lemma_balances_bounded();
        }
    }

    /// An engine with no admin, no user and no pool.
    pub fn new() -> (r: Pallet)
        ensures
            r.wf(),
            r@.admin is None,
            r@.wallet is None,
            r@.admins == Set::<AccountId>::empty(),
            r@.users == Set::<AccountId>::empty(),
            r@.pools == Seq::<LiquidityPool>::empty(),
            r@.shares == Map::<(u64, AccountId), u128>::empty(),
    {
        let r = Pallet {
            admin: None,
            wallet: None,
            admins: HashMap::new(),
            users: HashMap::new(),
            pools: Vec::new(),
            ledgers: Vec::new(),
        };
        assert(r@.shares =~= Map::<(u64, AccountId), u128>::empty());
        assert(r@.admins =~= Set::<AccountId>::empty());
        assert(r@.users =~= Set::<AccountId>::empty());
        assert(r@.pools =~= Seq::<LiquidityPool>::empty());
        r
    }

    /// The root admin, once registered.
    pub fn admin_account(&self) -> (r: Option<AccountId>)
        ensures
            r == self@.admin,
    {
        self.admin
    }

    /// Whether `who` is the root admin.
    pub fn is_root(&self, who: AccountId) -> (r: bool)
        ensures
            r == (self@.admin == Some(who)),
    {
        match self.admin {
            Some(a) => a == who,
            None => false,
        }
    }

    /// The custodial wallet, once the root admin is registered.
    pub fn admin_wallet(&self) -> (r: Option<AccountId>)
        ensures
            r == self@.wallet,
    {
        self.wallet
    }

    /// The id that the next pool will get.
    pub fn next_pool_id(&self) -> (r: u64)
        requires
            self.wf(),
        ensures
            r == self@.pools.len() + 1,
    {
        self.pools.len() as u64 + 1
    }

    /// Whether `account` is an admin.
    pub fn admins(&self, account: AccountId) -> (r: bool)
        ensures
            r == self@.admins.contains(account),
    {
        self.admins.contains_key(&account)
    }

    /// Whether `account` is a registered user.
    pub fn users(&self, account: AccountId) -> (r: bool)
        ensures
            r == self@.users.contains(account),
    {
        self.users.contains_key(&account)
    }

    /// The pool with this id, if there is one.
    pub fn pools(&self, pool_id: u64) -> (r: Option<LiquidityPool>)
        ensures
            r == (if self@.has_pool(pool_id) {
                Some(self@.pool(pool_id))
            } else {
                None
            }),
    {
        if pool_id >= 1 && pool_id - 1 < self.pools.len() as u64 {
            Some(self.pools[(pool_id - 1) as usize])
        } else {
            None
        }
    }

    /// The shares that `account` holds in the pool `pool_id`.
    pub fn user_balances(&self, pool_id: u64, account: AccountId) -> (r: u128)
        requires
            self.wf(),
        ensures
            r == self@.share(pool_id, account),
    {
        if pool_id >= 1 && pool_id - 1 < self.ledgers.len() as u64 {
            self.ledgers[(pool_id - 1) as usize].balance(account)
        } else {
            0
        }
    }

    /// Whether some pool trades `token1` against `token2`, in either order.
    pub fn registred_pairs(&self, token1: AssetId, token2: AssetId) -> (r: bool)
        ensures
            r == self@.pair_registered(token1, token2),
    {
        let mut i: usize = 0;
        while i < self.pools.len()
            invariant
                i <= self.pools.len(),
                forall|j: int| 0 <= j < i ==> !pair_matches(#[trigger] self.pools@[j], token1, token2),
            decreases self.pools.len() - i,
        {
            let p = self.pools[i];
            if (p.token1 == token1 && p.token2 == token2) || (p.token1 == token2 && p.token2
                == token1) {
                assert(pair_matches(self@.pools[i as int], token1, token2));
                return true;
            }
            i += 1;
        }
        false
    }

    /// Registers the caller as root admin and sole admin, and `wallet` as the
    /// custodial wallet, which is credited with the bootstrap amount.
    pub fn register_admin(&mut self, who: AccountId, wallet: AccountId) -> (r: Result<
        Bootstrap,
        Error,
    >)
        requires
            old(self).wf(),
        ensures
            r == old(self)@.register_admin_spec(who, wallet),
            final(self)@ == (if r is Ok {
                old(self)@.after_register_admin(who, wallet)
            } else {
                old(self)@
            }),
            final(self).wf(),
    {
        if self.wallet.is_some() {
            return Err(Error::AlreadyInitialized);
        }
        self.admin = Some(who);
        self.admins.insert(who, true);
        self.wallet = Some(wallet);
        assert(self@ =~= old(self)@.after_register_admin(who, wallet));
        Ok(
            Bootstrap {
                credit: Credit {
                    account: wallet,
                    amount: Self::u128_to_native_currency_saturated(BOOTSTRAP_CREDIT),
                },
                event: Event::AdminRegistred { admin_account: who, exchange_wallet: wallet },
            },
        )
    }

    /// Registers a pool for two distinct tokens that no pool trades yet, and
    /// returns its id.
    pub fn register_liquidity(&mut self, who: AccountId, token1: AssetId, token2: AssetId) -> (r:
        Result<u64, Error>)
        requires
            old(self).wf(),
        ensures
            r == old(self)@.register_liquidity_spec(who, token1, token2),
            final(self)@ == (if r is Ok {
                old(self)@.after_register_liquidity(token1, token2)
            } else {
                old(self)@
            }),
            final(self).wf(),
    {
        if !self.admins.contains_key(&who) {
            return Err(Error::PermissionDenied);
        }
        if token1 == token2 {
            return Err(Error::DuplicateToken);
        }
        if self.registred_pairs(token1, token2) {
            return Err(Error::AlreadyRegistered);
        }
        let n = self.pools.len() as u64;
        if n >= u64::MAX - 1 {
            return Err(Error::StorageOverflow);
        }
        self.pools.push(LiquidityPool::new(token1, token2));
        self.ledgers.push(ShareLedger::new());
        proof {
            assert(self@.shares =~= old(self)@.shares);
            assert(self@ =~= old(self)@.after_register_liquidity(token1, token2));
            self.lemma_shares_bounded();
        }
        Ok(n + 1)
    }

    /// Deposits into a pool on behalf of a user and credits the shares issued.
    pub fn add_liquidity(
        &mut self,
        who: AccountId,
        pool_id: u64,
        account: AccountId,
        amount1: Balance,
        amount2: Balance,
    ) -> (r: Result<Settlement, Error>)
        requires
            old(self).wf(),
        ensures
            r == old(self)@.add_liquidity_spec(who, pool_id, account, amount1, amount2),
            final(self)@ == (if r is Ok {
                old(self)@.after_add_liquidity(pool_id, account, amount1, amount2)
            } else {
                old(self)@
            }),
            final(self).wf(),
    {
        if !self.admins.contains_key(&who) {
            return Err(Error::PermissionDenied);
        }
        if !self.users.contains_key(&account) {
            return Err(Error::AccountNotFound);
        }
        if !(pool_id >= 1 && pool_id - 1 < self.pools.len() as u64) {
            return Err(Error::NotFound);
        }
        let index = (pool_id - 1) as usize;
        let mut pool = self.pools[index];
        let d = match pool.deposit(amount1, amount2) {
            Ok(d) => d,
            Err(e) => {
                return Err(e);
            },
        };
        let wallet = self.wallet.unwrap();
        let before = self.pools[index];
        self.pools[index] = pool;
        self.ledgers[index].credit(account, d.shares);
        proof {
            let after = old(self)@.after_add_liquidity(pool_id, account, amount1, amount2);
            assert(self@.pools =~= after.pools);
            assert(self@.shares =~= after.shares);
            self.lemma_shares_bounded();
        }
        Ok(
            Settlement {
                first: Transfer { from: account, to: wallet, token: before.token1, amount: d.amount1 },
                second: Transfer {
                    from: account,
                    to: wallet,
                    token: before.token2,
                    amount: d.amount2,
                },
                event: Event::AddLiquidity {
                    id: pool_id,
                    amount: d.shares,
                    by: account,
                    token1_balance: d.amount1,
                    token2_balance: d.amount2,
                },
            },
        )
    }

    /// Withdraws all the shares that a user holds in a pool and deletes the
    /// user's entry.
    pub fn remove_liquidity(&mut self, who: AccountId, pool_id: u64, account: AccountId) -> (r:
        Result<Settlement, Error>)
        requires
            old(self).wf(),
        ensures
            r == old(self)@.remove_liquidity_spec(who, pool_id, account),
            old(self)@.gate(who, pool_id, account) is Ok ==> r is Ok,
            final(self)@ == (if r is Ok {
                old(self)@.after_remove_liquidity(pool_id, account)
            } else {
                old(self)@
            }),
            final(self).wf(),
    {
        if !self.admins.contains_key(&who) {
            return Err(Error::PermissionDenied);
        }
        if !self.users.contains_key(&account) {
            return Err(Error::AccountNotFound);
        }
        if !(pool_id >= 1 && pool_id - 1 < self.pools.len() as u64) {
            return Err(Error::NotFound);
        }
        let index = (pool_id - 1) as usize;
        let mut pool = self.pools[index];
        let shares = self.ledgers[index].balance(account);
        let w = match pool.withdraw(shares) {
            Ok(w) => w,
            Err(e) => {
                return Err(e);
            },
        };
        let wallet = self.wallet.unwrap();
        self.pools[index] = pool;
        self.ledgers[index].take(account);
        proof {
            let after = old(self)@.after_remove_liquidity(pool_id, account);
            assert(self@.pools =~= after.pools);
            assert(self@.shares =~= after.shares);
            self.lemma_shares_bounded();
        }
        Ok(
            Settlement {
                first: Transfer { from: wallet, to: account, token: pool.token1, amount: w.amount1 },
                second: Transfer { from: wallet, to: account, token: pool.token2, amount: w.amount2 },
                event: Event::RemoveLiquidity {
                    id: pool_id,
                    amount: shares,
                    by: account,
                    token1_balance: w.amount1,
                    token2_balance: w.amount2,
                },
            },
        )
    }

    /// Swaps on behalf of a user: `side` 1 offers the pool's first token,
    /// anything else its second.
    pub fn swap_token(
        &mut self,
        who: AccountId,
        pool_id: u64,
        account: AccountId,
        side: u8,
        amount_in: Balance,
    ) -> (r: Result<Settlement, Error>)
        requires
            old(self).wf(),
        ensures
            r == old(self)@.swap_token_spec(who, pool_id, account, side, amount_in),
            final(self)@ == (if r is Ok {
                old(self)@.after_swap_token(pool_id, side, amount_in)
            } else {
                old(self)@
            }),
            final(self).wf(),
    {
        if !self.admins.contains_key(&who) {
            return Err(Error::PermissionDenied);
        }
        if !self.users.contains_key(&account) {
            return Err(Error::AccountNotFound);
        }
        if amount_in == 0 {
            return Err(Error::InsufficientBalance);
        }
        if !(pool_id >= 1 && pool_id - 1 < self.pools.len() as u64) {
            return Err(Error::NotFound);
        }
        let index = (pool_id - 1) as usize;
        let mut pool = self.pools[index];
        let s = match pool.swap(side, amount_in) {
            Ok(s) => s,
            Err(e) => {
                return Err(e);
            },
        };
        let wallet = self.wallet.unwrap();
        self.pools[index] = pool;
        proof {
            assert(self@ =~= old(self)@.after_swap_token(pool_id, side, amount_in));
            self.lemma_shares_bounded();
        }
        Ok(
            Settlement {
                first: Transfer { from: account, to: wallet, token: s.token_in, amount: amount_in },
                second: Transfer {
                    from: wallet,
                    to: account,
                    token: s.token_out,
                    amount: s.amount_out,
                },
                event: Event::TokenSwaped {
                    pool_id,
                    token_in: s.token_in,
                    token_out: s.token_out,
                    amount_in,
                    amount_out: s.amount_out,
                    account,
                },
            },
        )
    }

    /// An admin's raw transfer from a registered user to any account.
    pub fn withdraw_token(
        &self,
        who: AccountId,
        from: AccountId,
        to: AccountId,
        token: AssetId,
        amount: Balance,
    ) -> (r: Result<Transfer, Error>)
        ensures
            r == self@.withdraw_token_spec(who, from, to, token, amount),
    {
        if !self.admins.contains_key(&who) {
            return Err(Error::PermissionDenied);
        }
        if !self.users.contains_key(&from) {
            return Err(Error::AccountNotFound);
        }
        Ok(Transfer { from, to, token, amount })
    }

    /// Registers a user, who is credited with the bootstrap amount.
    pub fn register_user(&mut self, who: AccountId, account: AccountId) -> (r: Result<
        Credit,
        Error,
    >)
        requires
            old(self).wf(),
        ensures
            r == old(self)@.register_user_spec(who, account),
            final(self)@ == (if r is Ok {
                old(self)@.after_register_user(account)
            } else {
                old(self)@
            }),
            final(self).wf(),
    {
        if !self.admins.contains_key(&who) {
            return Err(Error::PermissionDenied);
        }
        if self.users.contains_key(&account) {
            return Err(Error::AlreadyRegistered);
        }
        self.users.insert(account, true);
        assert(self@ =~= old(self)@.after_register_user(account));
        Ok(Credit { account, amount: Self::u128_to_native_currency_saturated(BOOTSTRAP_CREDIT) })
    }

    /// The root admin's request for native currency.
    pub fn add_fund(&self, who: AccountId) -> (r: Result<Credit, Error>)
        ensures
            r == self@.add_fund_spec(who),
    {
        if !self.is_root(who) {
            return Err(Error::PermissionDenied);
        }
        Ok(Credit { account: who, amount: Self::u128_to_native_currency_saturated(ADMIN_FUND) })
    }

    /// The root admin appoints another admin.
    pub fn register_sub_admin(&mut self, who: AccountId, sub_admin: AccountId) -> (r: Result<
        Event,
        Error,
    >)
        requires
            old(self).wf(),
        ensures
            r == old(self)@.register_sub_admin_spec(who, sub_admin),
            final(self)@ == (if r is Ok {
                old(self)@.after_register_sub_admin(sub_admin)
            } else {
                old(self)@
            }),
            final(self).wf(),
    {
        if !self.is_root(who) {
            return Err(Error::PermissionDenied);
        }
        if self.admins.contains_key(&sub_admin) {
            return Err(Error::AlreadyRegistered);
        }
        self.admins.insert(sub_admin, true);
        assert(self@ =~= old(self)@.after_register_sub_admin(sub_admin));
        Ok(Event::NewAdmin { who: sub_admin })
    }

    /// The root admin's transfer out of the custodial wallet.
    pub fn transfer_token_to(&self, who: AccountId, amount: Balance, token_id: AssetId, to: AccountId) -> (r:
        Result<Payout, Error>)
        requires
            self.wf(),
        ensures
            r == self@.transfer_token_to_spec(who, amount, token_id, to),
    {
        if !self.is_root(who) {
            return Err(Error::PermissionDenied);
        }
        let wallet = self.wallet.unwrap();
        Ok(
            Payout {
                transfer: Transfer { from: wallet, to, token: token_id, amount },
                event: Event::TransferAmount { who, to, amount, token_id },
            },
        )
    }
}

} // verus!
