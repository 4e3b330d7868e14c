//! Identifiers, errors, and what an operation hands back to the host.

use vstd::prelude::*;

verus! {

/// An authenticated account of the host ledger.
pub type AccountId = u64;

/// A fungible token of the host's asset ledger.
pub type AssetId = u32;

/// A quantity of a pool token.
pub type Balance = u128;

/// A quantity of the host's native currency.
pub type NativeBalance = u128;

/// Native currency credited to the custodial wallet and to each new user.
pub const BOOTSTRAP_CREDIT: u128 = 10000;

/// Native currency credited to the root admin on request.
pub const ADMIN_FUND: u128 = 1000000000000000000;

/// Why an operation was refused. A refused operation changes nothing.
#[derive(Clone, Copy, Debug, PartialEq, Eq, Structural)]
pub enum Error {
    /// The caller lacks the role that the operation asks for.
    PermissionDenied,
    /// The subject account is not a registered user.
    AccountNotFound,
    /// The admin, user or token pair is registered already.
    AlreadyRegistered,
    /// Both tokens of the pair are the same.
    DuplicateToken,
    /// An amount that must be positive is zero.
    InsufficientBalance,
    /// The deposit's ratio is outside the tolerance around the pool's.
    UnbalancedDeposit,
    /// The swap would take a whole reserve.
    InsufficientLiquidity,
    /// No pool has this id.
    NotFound,
    /// The root admin and the custodial wallet exist already.
    AlreadyInitialized,
    /// A balance would leave the 128-bit range.
    StorageOverflow,
}

/// An instruction to the asset ledger: move `amount` of `token` from `from` to `to`.
#[derive(Clone, Copy, Debug, PartialEq, Eq, Structural)]
pub struct Transfer {
    pub from: AccountId,
    pub to: AccountId,
    pub token: AssetId,
    pub amount: Balance,
}

/// An instruction to the native currency: credit `amount` to `account`.
#[derive(Clone, Copy, Debug, PartialEq, Eq, Structural)]
pub struct Credit {
    pub account: AccountId,
    pub amount: NativeBalance,
}

/// The notification of a completed operation.
#[allow(inconsistent_fields)]
#[derive(Clone, Copy, Debug, PartialEq, Eq, Structural)]
pub enum Event {
    AdminRegistred { admin_account: AccountId, exchange_wallet: AccountId },
    LiquidityRegistred { id: u64, token1: AssetId, token2: AssetId },
    AddLiquidity { id: u64, amount: u128, by: AccountId, token1_balance: Balance, token2_balance: Balance },
    RemoveLiquidity {
        id: u64,
        amount: u128,
        by: AccountId,
        token1_balance: Balance,
        token2_balance: Balance,
    },
    TokenSwaped {
        pool_id: u64,
        token_in: AssetId,
        token_out: AssetId,
        amount_in: Balance,
        amount_out: Balance,
        account: AccountId,
    },
    NewAdmin { who: AccountId },
    TransferAmount { who: AccountId, to: AccountId, amount: Balance, token_id: AssetId },
}

/// What the host has to carry out after a pool operation: two transfers, in
/// this order, and the event to publish once both have succeeded.
#[derive(Clone, Copy, Debug, PartialEq, Eq, Structural)]
pub struct Settlement {
    pub first: Transfer,
    pub second: Transfer,
    pub event: Event,
}

} // verus!
