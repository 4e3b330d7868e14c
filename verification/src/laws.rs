//! What holds across operations: of token pairs, of a deposit that is
//! withdrawn again, and of the product of the reserves under swaps.

use crate::pallet::{pair_matches, Payout, State};
use crate::pool::{after_fee, lemma_payout_bound, LiquidityPool, Withdrawal};
use crate::types::{AccountId, AssetId, Balance, Credit, Error, Event, Settlement, Transfer};
use crate::wide::{isqrt, lemma_isqrt_exists};
use vstd::arithmetic::div_mod::{lemma_div_multiples_vanish, lemma_fundamental_div_mod};
use vstd::prelude::*;

verus! {

/// Once a pool is registered for a pair of tokens, an admin's attempt to
/// register the pair again is refused as already registered, in the same
/// order and in the other.
pub proof fn lemma_pair_registers_once(s: State, who: AccountId, a: AssetId, b: AssetId)
    requires
        s.wf(),
        s.register_liquidity_spec(who, a, b) is Ok,
    ensures
        s.after_register_liquidity(a, b).wf(),
        s.after_register_liquidity(a, b).register_liquidity_spec(who, b, a) == Err::<u64, Error>(
            Error::AlreadyRegistered,
        ),
        s.after_register_liquidity(a, b).register_liquidity_spec(who, a, b) == Err::<u64, Error>(
            Error::AlreadyRegistered,
        ),
{
    let t = s.after_register_liquidity(a, b);
    let last = s.pools.len() as int;
    assert(t.pools[last].token1 == a && t.pools[last].token2 == b);
    assert forall|i: int, j: int| 0 <= i < j < t.pools.len() implies !pair_matches(
        #[trigger] t.pools[i],
        (#[trigger] t.pools[j]).token1,
        t.pools[j].token2,
    ) by {
        if j == last {
            assert(t.pools[i] == s.pools[i]);
        } else {
            assert(t.pools[i] == s.pools[i] && t.pools[j] == s.pools[j]);
        }
    }
    assert forall|i: int| 0 <= i < t.pools.len() implies (#[trigger] t.pools[i]).wf() by {
        if i < last {
            assert(t.pools[i] == s.pools[i]);
        }
    }
}

/// A caller who is no admin is denied every operation that asks for an
/// admin, and one who is not the root admin every operation that asks for
/// the root admin, whatever the other arguments are.
pub proof fn lemma_non_admin_is_denied(
    s: State,
    who: AccountId,
    pool_id: u64,
    account: AccountId,
    token1: AssetId,
    token2: AssetId,
    amount1: Balance,
    amount2: Balance,
    side: u8,
)
    requires
        s.wf(),
        !s.admins.contains(who),
    ensures
        s.register_sub_admin_spec(who, account) == Err::<Event, Error>(Error::PermissionDenied),
        s.register_user_spec(who, account) == Err::<Credit, Error>(Error::PermissionDenied),
        s.register_liquidity_spec(who, token1, token2) == Err::<u64, Error>(
            Error::PermissionDenied,
        ),
        s.add_liquidity_spec(who, pool_id, account, amount1, amount2) == Err::<Settlement, Error>(
            Error::PermissionDenied,
        ),
        s.remove_liquidity_spec(who, pool_id, account) == Err::<Settlement, Error>(
            Error::PermissionDenied,
        ),
        s.swap_token_spec(who, pool_id, account, side, amount1) == Err::<Settlement, Error>(
            Error::PermissionDenied,
        ),
        s.withdraw_token_spec(who, account, account, token1, amount1) == Err::<Transfer, Error>(
            Error::PermissionDenied,
        ),
        s.add_fund_spec(who) == Err::<Credit, Error>(Error::PermissionDenied),
        s.transfer_token_to_spec(who, amount1, token1, account) == Err::<Payout, Error>(
            Error::PermissionDenied,
        ),
{
}

/// A registered pair stays registered whatever is registered after it.
pub proof fn lemma_pair_stays_registered(
    s: State,
    a: AssetId,
    b: AssetId,
    token1: AssetId,
    token2: AssetId,
)
    requires
        s.pair_registered(a, b),
    ensures
        s.after_register_liquidity(token1, token2).pair_registered(a, b),
        s.pair_registered(b, a),
{
    let i = choose|i: int|
        0 <= i < s.pools.len() && pair_matches(#[trigger] s.pools[i], a, b);
    let t = s.after_register_liquidity(token1, token2);
    assert(t.pools[i] == s.pools[i]);
    assert(pair_matches(t.pools[i], a, b));
    assert(pair_matches(s.pools[i], b, a));
}

/// A deposit into an empty pool issues the integer square root of the
/// product of the two amounts, and withdrawing those shares at once pays
/// back exactly the two amounts and leaves the pool empty again: the
/// depositor gets no surplus.
pub proof fn lemma_deposit_then_withdraw(pool: LiquidityPool, x: Balance, y: Balance)
    requires
        pool.wf(),
        pool.total_liquidity == 0,
        pool.deposit_spec(x, y) is Ok,
    ensures
        ({
            let d = pool.deposit_spec(x, y).unwrap();
            let filled = pool.with_deposit(d);
            &&& d.amount1 == x && d.amount2 == y
            &&& d.shares == isqrt((x * y) as nat)
            &&& d.shares >= 1
            &&& filled.wf()
            &&& filled.withdrawal_spec(d.shares) == Ok::<Withdrawal, Error>(
                Withdrawal { amount1: x, amount2: y },
            )
            &&& filled.with_withdrawal(d.shares, Withdrawal { amount1: x, amount2: y }) == pool
        }),
{
    let d = pool.deposit_spec(x, y).unwrap();
    assert(x * pool.reserve2 == 0 && y * pool.reserve1 == 0) by (nonlinear_arith)
        requires
            pool.reserve1 == 0,
            pool.reserve2 == 0,
    ;
    let n = (x * y) as nat;
    assert(x * y >= 1) by (nonlinear_arith)
        requires
            x >= 1,
            y >= 1,
    ;
    lemma_isqrt_exists(n);
    let s = isqrt(n);
    assert(s >= 1) by (nonlinear_arith)
        requires
            n < (s + 1) * (s + 1),
            n >= 1,
    ;
    assert(d.shares == s);
    lemma_div_multiples_vanish(x as int, s as int);
    lemma_div_multiples_vanish(y as int, s as int);
    assert(s * x == x * s && s * y == y * s) by (nonlinear_arith);
}

/// Withdrawing never fails for an admin, a registered user and a pool that
/// exists: no account holds more shares than its pool has issued.
pub proof fn lemma_remove_liquidity_succeeds(
    s: State,
    who: AccountId,
    pool_id: u64,
    account: AccountId,
)
    requires
        s.wf(),
        s.gate(who, pool_id, account) is Ok,
    ensures
        s.remove_liquidity_spec(who, pool_id, account) is Ok,
        s.share(pool_id, account) <= s.pool(pool_id).total_liquidity,
{
    if s.shares.contains_key((pool_id, account)) {
        assert(s.shares[(pool_id, account)] <= s.pool(pool_id).total_liquidity);
    }
}

/// A user who deposits `x` and `y` into an empty pool and withdraws at once
/// is paid exactly `x` and `y`, and the pool is empty again.
pub proof fn lemma_add_then_remove_liquidity(
    s: State,
    who: AccountId,
    pool_id: u64,
    account: AccountId,
    x: Balance,
    y: Balance,
)
    requires
        s.wf(),
        s.has_pool(pool_id),
        s.pool(pool_id).total_liquidity == 0,
        s.add_liquidity_spec(who, pool_id, account, x, y) is Ok,
    ensures
        ({
            let t = s.after_add_liquidity(pool_id, account, x, y);
            let back = t.remove_liquidity_spec(who, pool_id, account);
            let u = t.after_remove_liquidity(pool_id, account);
            &&& s.share(pool_id, account) == 0
            &&& t.share(pool_id, account) == isqrt((x * y) as nat)
            &&& back is Ok
            &&& back.unwrap().first.amount == x
            &&& back.unwrap().second.amount == y
            &&& u.pool(pool_id) == s.pool(pool_id)
            &&& u.share(pool_id, account) == 0
        }),
{
    let pool = s.pool(pool_id);
    if s.shares.contains_key((pool_id, account)) {
        assert(s.shares[(pool_id, account)] <= pool.total_liquidity);
    }
    lemma_deposit_then_withdraw(pool, x, y);
}

/// A swap never lowers the product of the two reserves: the fee stays in
/// the pool.
pub proof fn lemma_swap_keeps_product(pool: LiquidityPool, side: u8, amount_in: Balance)
    requires
        pool.wf(),
        pool.swap_spec(side, amount_in) is Ok,
    ensures
        ({
            let s = pool.swap_spec(side, amount_in).unwrap();
            let after = pool.with_swap(side, amount_in, s.amount_out);
            &&& after.wf()
            &&& after.reserve1 * after.reserve2 >= pool.reserve1 * pool.reserve2
            &&& after.reserve_in(side) == pool.reserve_in(side) + amount_in
            &&& after.reserve_out(side) == pool.reserve_out(side) - s.amount_out
        }),
{
    let rin = pool.reserve_in(side) as int;
    let rout = pool.reserve_out(side) as int;
    let a = amount_in as int;
    let eff = after_fee(amount_in);
    let out = pool.amount_out(side, amount_in);
    let x = rout * eff;
    let d = rin + eff;
    assert(0 <= eff <= a);
    lemma_fundamental_div_mod(x, d);
    assert(x >= 0) by (nonlinear_arith)
        requires
            x == rout * eff,
            rout >= 0,
            eff >= 0,
    ;
    assert(0 <= x % d);
    assert(out >= 0) by (nonlinear_arith)
        requires
            out == x / d,
            x >= 0,
            d > 0,
    ;
    assert((rin + a) * (rout - out) >= rin * rout) by (nonlinear_arith)
        requires
            x == d * out + (x % d),
            0 <= x % d,
            x == rout * eff,
            d == rin + eff,
            0 <= eff <= a,
            0 <= out < rout,
            0 <= rin,
    ;
    assert((rout - out) * (rin + a) == (rin + a) * (rout - out)) by (nonlinear_arith);
    assert(rout * rin == rin * rout) by (nonlinear_arith);
}

/// A deposit leaves the pool's reserves and share count all zero or all
/// positive, and so do a withdrawal and a swap.
pub proof fn lemma_pool_stays_consistent(
    pool: LiquidityPool,
    amount1: Balance,
    amount2: Balance,
    shares: u128,
    side: u8,
    amount_in: Balance,
)
    requires
        pool.wf(),
    ensures
        pool.deposit_spec(amount1, amount2) matches Ok(d) ==> pool.with_deposit(d).wf(),
        pool.withdrawal_spec(shares) matches Ok(w) ==> pool.with_withdrawal(shares, w).wf(),
        pool.swap_spec(side, amount_in) matches Ok(s) ==> pool.with_swap(
            side,
            amount_in,
            s.amount_out,
        ).wf(),
{
    if pool.deposit_spec(amount1, amount2) is Ok {
        if pool.total_liquidity == 0 {
            lemma_deposit_then_withdraw(pool, amount1, amount2);
        }
    }
    if pool.withdrawal_spec(shares) is Ok && pool.total_liquidity > 0 {
        lemma_payout_bound(
            shares as int,
            pool.reserve1 as int,
            pool.total_liquidity as int,
        );
        lemma_payout_bound(
            shares as int,
            pool.reserve2 as int,
            pool.total_liquidity as int,
        );
    }
    if pool.swap_spec(side, amount_in) is Ok {
        lemma_swap_keeps_product(pool, side, amount_in);
    }
}

} // verus!
