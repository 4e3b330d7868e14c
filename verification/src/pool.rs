//! One liquidity pool: proportional deposits, withdrawals and swaps.

use crate::pallet::Pallet;
use crate::types::{AssetId, Balance, Error};
use crate::wide::{
    isqrt, is_floor_sqrt, lemma_product_fits, lesser, saturate, wide_add, wide_div, wide_lt,
    wide_mul, wide_sub,
};
use vstd::arithmetic::div_mod::{
    lemma_div_multiples_vanish, lemma_multiply_divide_le, lemma_multiply_divide_lt,
};
use vstd::prelude::*;

verus! {

/// Two reserves of distinct tokens and the number of shares issued on them.
#[derive(Clone, Copy, Debug, PartialEq, Eq, Structural)]
pub struct LiquidityPool {
    pub token1: AssetId,
    pub token2: AssetId,
    pub reserve1: Balance,
    pub reserve2: Balance,
    pub total_liquidity: u128,
}

/// What a deposit took, after balancing, and the shares issued for it.
#[derive(Clone, Copy, Debug, PartialEq, Eq, Structural)]
pub struct Deposit {
    pub amount1: Balance,
    pub amount2: Balance,
    pub shares: u128,
}

/// What a withdrawal pays out of each reserve.
#[derive(Clone, Copy, Debug, PartialEq, Eq, Structural)]
pub struct Withdrawal {
    pub amount1: Balance,
    pub amount2: Balance,
}

/// A priced swap: the token offered, the token paid and the amount paid.
#[derive(Clone, Copy, Debug, PartialEq, Eq, Structural)]
pub struct Swap {
    pub token_in: AssetId,
    pub token_out: AssetId,
    pub amount_out: Balance,
}

/// What is left of `amount_in` after the 2% fee.
pub open spec fn after_fee(amount_in: Balance) -> int {
    amount_in * 98 / 100
}

impl LiquidityPool {
    /// The tokens differ, and either both reserves and the share count are
    /// zero or none of them is.
    pub open spec fn wf(self) -> bool {
        &&& self.token1 != self.token2
        &&& (self.reserve1 == 0 <==> self.total_liquidity == 0)
        &&& (self.reserve2 == 0 <==> self.total_liquidity == 0)
    }

    /// The deposit's cross products are within 0.5% of each other.
    pub open spec fn balanced(self, amount1: Balance, amount2: Balance) -> bool {
        let p = amount1 * self.reserve2;
        let q = amount2 * self.reserve1;
        995 * q <= 1000 * p && 1000 * p <= 1005 * q
    }

    /// The first amount of a balanced deposit after clamping.
    pub open spec fn clamped1(self, amount1: Balance, amount2: Balance) -> int {
        if amount1 * self.reserve2 > amount2 * self.reserve1 {
            saturate(amount2 * self.reserve2 / (self.reserve1 as int))
        } else {
            amount1 as int
        }
    }

    /// The second amount of a balanced deposit after clamping.
    pub open spec fn clamped2(self, amount1: Balance, amount2: Balance) -> int {
        if amount2 * self.reserve1 > amount1 * self.reserve2 {
            saturate(amount1 * self.reserve1 / (self.reserve2 as int))
        } else {
            amount2 as int
        }
    }

    /// The shares issued for the clamped amounts `c1` and `c2`.
    pub open spec fn issued(self, c1: int, c2: int) -> int {
        if self.total_liquidity == 0 {
            isqrt((c1 * c2) as nat) as int
        } else {
            saturate(
                lesser(
                    c1 * self.total_liquidity / (self.reserve1 as int),
                    c2 * self.total_liquidity / (self.reserve2 as int),
                ),
            )
        }
    }

    /// The outcome of depositing `amount1` and `amount2`.
    pub open spec fn deposit_spec(self, amount1: Balance, amount2: Balance) -> Result<
        Deposit,
        Error,
    > {
        let c1 = self.clamped1(amount1, amount2);
        let c2 = self.clamped2(amount1, amount2);
        let shares = self.issued(c1, c2);
        if amount1 == 0 || amount2 == 0 {
            Err(Error::InsufficientBalance)
        } else if !self.balanced(amount1, amount2) {
            Err(Error::UnbalancedDeposit)
        } else if self.reserve1 + c1 > u128::MAX || self.reserve2 + c2 > u128::MAX
            || self.total_liquidity + shares > u128::MAX {
            Err(Error::StorageOverflow)
        } else {
            Ok(Deposit { amount1: c1 as u128, amount2: c2 as u128, shares: shares as u128 })
        }
    }

    /// The pool after the deposit `d`.
    pub open spec fn with_deposit(self, d: Deposit) -> LiquidityPool {
        LiquidityPool {
            reserve1: (self.reserve1 + d.amount1) as u128,
            reserve2: (self.reserve2 + d.amount2) as u128,
            total_liquidity: (self.total_liquidity + d.shares) as u128,
            ..self
        }
    }

    /// The outcome of withdrawing `shares`.
    pub open spec fn withdrawal_spec(self, shares: u128) -> Result<Withdrawal, Error> {
        if shares > self.total_liquidity {
            Err(Error::StorageOverflow)
        } else if self.total_liquidity == 0 {
            Ok(Withdrawal { amount1: 0, amount2: 0 })
        } else {
            Ok(
                Withdrawal {
                    amount1: (shares * self.reserve1 / (self.total_liquidity as int)) as u128,
                    amount2: (shares * self.reserve2 / (self.total_liquidity as int)) as u128,
                },
            )
        }
    }

    /// The pool after `shares` were withdrawn and `w` was paid for them.
    pub open spec fn with_withdrawal(self, shares: u128, w: Withdrawal) -> LiquidityPool {
        LiquidityPool {
            reserve1: (self.reserve1 - w.amount1) as u128,
            reserve2: (self.reserve2 - w.amount2) as u128,
            total_liquidity: (self.total_liquidity - shares) as u128,
            ..self
        }
    }

    /// The reserve that a swap on `side` pays into.
    pub open spec fn reserve_in(self, side: u8) -> Balance {
        if side == 1 {
            self.reserve1
        } else {
            self.reserve2
        }
    }

    /// The reserve that a swap on `side` pays out of.
    pub open spec fn reserve_out(self, side: u8) -> Balance {
        if side == 1 {
            self.reserve2
        } else {
            self.reserve1
        }
    }

    /// The constant-product output for `amount_in` offered on `side`.
    pub open spec fn amount_out(self, side: u8, amount_in: Balance) -> int {
        self.reserve_out(side) * after_fee(amount_in) / (self.reserve_in(side) + after_fee(
            amount_in,
        ))
    }

    /// The outcome of offering `amount_in` on `side`: 1 offers the first
    /// token, anything else the second.
    pub open spec fn swap_spec(self, side: u8, amount_in: Balance) -> Result<Swap, Error> {
        if amount_in == 0 {
            Err(Error::InsufficientBalance)
        } else if self.reserve_in(side) + after_fee(amount_in) == 0 {
            Err(Error::InsufficientLiquidity)
        } else if self.amount_out(side, amount_in) >= self.reserve_out(side) {
            Err(Error::InsufficientLiquidity)
        } else if self.reserve_in(side) + amount_in > u128::MAX {
            Err(Error::StorageOverflow)
        } else {
            Ok(
                Swap {
                    token_in: if side == 1 {
                        self.token1
                    } else {
                        self.token2
                    },
                    token_out: if side == 1 {
                        self.token2
                    } else {
                        self.token1
                    },
                    amount_out: self.amount_out(side, amount_in) as u128,
                },
            )
        }
    }

    /// The pool after `amount_in` came in on `side` and `amount_out` went out.
    pub open spec fn with_swap(self, side: u8, amount_in: Balance, amount_out: Balance) -> LiquidityPool {
        if side == 1 {
            LiquidityPool {
                reserve1: (self.reserve1 + amount_in) as u128,
                reserve2: (self.reserve2 - amount_out) as u128,
                ..self
            }
        } else {
            LiquidityPool {
                reserve2: (self.reserve2 + amount_in) as u128,
                reserve1: (self.reserve1 - amount_out) as u128,
                ..self
            }
        }
    }

    /// An empty pool for two distinct tokens.
    pub fn new(token1: AssetId, token2: AssetId) -> (r: LiquidityPool)
        requires
            token1 != token2,
        ensures
            r == (LiquidityPool { token1, token2, reserve1: 0, reserve2: 0, total_liquidity: 0 }),
            r.wf(),
    {
        LiquidityPool { token1, token2, reserve1: 0, reserve2: 0, total_liquidity: 0 }
    }

    /// Takes a deposit: checks the ratio against the pool's, clamps the
    /// larger side, issues shares and adds the amounts to the reserves.
    pub fn deposit(&mut self, amount1: Balance, amount2: Balance) -> (r: Result<Deposit, Error>)
        requires
            old(self).wf(),
        ensures
            r == old(self).deposit_spec(amount1, amount2),
            match r {
                Ok(d) => *final(self) == old(self).with_deposit(d),
                Err(_) => *final(self) == *old(self),
            },
            final(self).wf(),
    {
        if amount1 == 0 || amount2 == 0 {
            return Err(Error::InsufficientBalance);
        }
        let a1 = Pallet::assets_balance_to_u256_saturated(amount1);
        let a2 = Pallet::assets_balance_to_u256_saturated(amount2);
        let r1 = Pallet::assets_balance_to_u256_saturated(self.reserve1);
        let r2 = Pallet::assets_balance_to_u256_saturated(self.reserve2);
        let total = Pallet::u128_to_u256_saturated(self.total_liquidity);
        proof {
            lemma_product_fits(a1@, r2@);
            lemma_product_fits(a2@, r1@);
            lemma_product_fits(a2@, r2@);
            lemma_product_fits(a1@, r1@);
        }
        let p = wide_mul(a1, r2);
        let q = wide_mul(a2, r1);
        let tolerance = wide_div(q, Pallet::u128_to_u256_saturated(200));
        let balanced = if wide_lt(q, p) {
            !wide_lt(tolerance, wide_sub(p, q))
        } else if wide_lt(p, q) {
            !wide_lt(tolerance, wide_sub(q, p))
        } else {
            true
        };
        assert(balanced == self.balanced(amount1, amount2));
        if !balanced {
            return Err(Error::UnbalancedDeposit);
        }
        let mut c1 = amount1;
        let mut c2 = amount2;
        if wide_lt(q, p) {
            assert(r1@ > 0) by (nonlinear_arith)
                requires
                    q@ == a2@ * r1@,
                    q@ > 0,
            ;
            c1 = Pallet::u256_to_assets_balance_saturated(wide_div(wide_mul(a2, r2), r1));
        } else if wide_lt(p, q) {
            assert(r2@ > 0) by (nonlinear_arith)
                requires
                    p@ == a1@ * r2@,
                    p@ > 0,
            ;
            c2 = Pallet::u256_to_assets_balance_saturated(wide_div(wide_mul(a1, r1), r2));
        }
        assert(c1 == self.clamped1(amount1, amount2));
        assert(c2 == self.clamped2(amount1, amount2));
        let w1 = Pallet::assets_balance_to_u256_saturated(c1);
        let w2 = Pallet::assets_balance_to_u256_saturated(c2);
        proof {
            lemma_product_fits(w1@, w2@);
            lemma_product_fits(w1@, total@);
            lemma_product_fits(w2@, total@);
        }
        let shares = if self.total_liquidity == 0 {
            Pallet::sqrt(wide_mul(w1, w2))
        } else {
            Pallet::min(
                wide_div(wide_mul(w1, total), r1),
                wide_div(wide_mul(w2, total), r2),
            )
        };
        assert(shares == self.issued(c1 as int, c2 as int));
        proof {
            if self.total_liquidity == 0 {
                assert(c1 * c2 >= 1) by (nonlinear_arith)
                    requires
                        c1 >= 1,
                        c2 >= 1,
                ;
                assert(shares >= 1) by (nonlinear_arith)
                    requires
                        is_floor_sqrt(shares as nat, (c1 * c2) as nat),
                        c1 * c2 >= 1,
                ;
            }
        }
        let n1 = match self.reserve1.checked_add(c1) {
            Some(v) => v,
            None => {
                return Err(Error::StorageOverflow);
            },
        };
        let n2 = match self.reserve2.checked_add(c2) {
            Some(v) => v,
            None => {
                return Err(Error::StorageOverflow);
            },
        };
        let nt = match self.total_liquidity.checked_add(shares) {
            Some(v) => v,
            None => {
                return Err(Error::StorageOverflow);
            },
        };
        self.reserve1 = n1;
        self.reserve2 = n2;
        self.total_liquidity = nt;
        Ok(Deposit { amount1: c1, amount2: c2, shares })
    }

    /// Pays out `shares`: the same part of each reserve as `shares` is of
    /// all shares, rounded down.
    pub fn withdraw(&mut self, shares: u128) -> (r: Result<Withdrawal, Error>)
        requires
            old(self).wf(),
        ensures
            r == old(self).withdrawal_spec(shares),
            match r {
                Ok(w) => *final(self) == old(self).with_withdrawal(shares, w)
                    && w.amount1 <= old(self).reserve1 && w.amount2 <= old(self).reserve2,
                Err(_) => *final(self) == *old(self),
            },
            final(self).wf(),
    {
        if shares > self.total_liquidity {
            return Err(Error::StorageOverflow);
        }
        if self.total_liquidity == 0 {
            return Ok(Withdrawal { amount1: 0, amount2: 0 });
        }
        let s = Pallet::u128_to_u256_saturated(shares);
        let total = Pallet::u128_to_u256_saturated(self.total_liquidity);
        let r1 = Pallet::assets_balance_to_u256_saturated(self.reserve1);
        let r2 = Pallet::assets_balance_to_u256_saturated(self.reserve2);
        proof {
            lemma_product_fits(s@, r1@);
            lemma_product_fits(s@, r2@);
            lemma_payout_bound(shares as int, self.reserve1 as int, self.total_liquidity as int);
            lemma_payout_bound(shares as int, self.reserve2 as int, self.total_liquidity as int);
        }
        let amount1 = Pallet::u256_to_assets_balance_saturated(wide_div(wide_mul(s, r1), total));
        let amount2 = Pallet::u256_to_assets_balance_saturated(wide_div(wide_mul(s, r2), total));
        self.total_liquidity = self.total_liquidity - shares;
        self.reserve1 = self.reserve1 - amount1;
        self.reserve2 = self.reserve2 - amount2;
        Ok(Withdrawal { amount1, amount2 })
    }

    /// Prices and books a swap: 2% of the input is kept as fee, the rest is
    /// priced by the constant product, and the whole input joins the reserve.
    pub fn swap(&mut self, side: u8, amount_in: Balance) -> (r: Result<Swap, Error>)
        requires
            old(self).wf(),
        ensures
            r == old(self).swap_spec(side, amount_in),
            match r {
                Ok(s) => *final(self) == old(self).with_swap(side, amount_in, s.amount_out)
                    && s.amount_out < old(self).reserve_out(side),
                Err(_) => *final(self) == *old(self),
            },
            final(self).wf(),
    {
        if amount_in == 0 {
            return Err(Error::InsufficientBalance);
        }
        let first = side == 1;
        let reserve_in = if first {
            self.reserve1
        } else {
            self.reserve2
        };
        let reserve_out = if first {
            self.reserve2
        } else {
            self.reserve1
        };
        let a = Pallet::assets_balance_to_u256_saturated(amount_in);
        let rin = Pallet::assets_balance_to_u256_saturated(reserve_in);
        let rout = Pallet::assets_balance_to_u256_saturated(reserve_out);
        proof {
            lemma_product_fits(a@, 98);
        }
        let effective = wide_div(
            wide_mul(a, Pallet::u128_to_u256_saturated(98)),
            Pallet::u128_to_u256_saturated(100),
        );
        assert(effective@ == after_fee(amount_in));
        assert(effective@ <= amount_in);
        proof {
            lemma_product_fits(rout@, effective@);
            lemma_product_fits(2, u128::MAX as nat);
        }
        let denominator = wide_add(rin, effective);
        if !wide_lt(Pallet::u128_to_u256_saturated(0), denominator) {
            return Err(Error::InsufficientLiquidity);
        }
        proof {
            assert(rout@ * effective@ <= denominator@ * rout@) by (nonlinear_arith)
                requires
                    effective@ <= denominator@,
            ;
            lemma_multiply_divide_le(
                (rout@ * effective@) as int,
                denominator@ as int,
                rout@ as int,
            );
        }
        let amount_out = Pallet::u256_to_assets_balance_saturated(
            wide_div(wide_mul(rout, effective), denominator),
        );
        assert(amount_out == self.amount_out(side, amount_in));
        if amount_out >= reserve_out {
            return Err(Error::InsufficientLiquidity);
        }
        let grown = match reserve_in.checked_add(amount_in) {
            Some(v) => v,
            None => {
                return Err(Error::StorageOverflow);
            },
        };
        if first {
            self.reserve1 = grown;
            self.reserve2 = self.reserve2 - amount_out;
            Ok(Swap { token_in: self.token1, token_out: self.token2, amount_out })
        } else {
            self.reserve2 = grown;
            self.reserve1 = self.reserve1 - amount_out;
            Ok(Swap { token_in: self.token2, token_out: self.token1, amount_out })
        }
    }
}

/// A payout for `shares` of `total` shares never exceeds the reserve, takes
/// all of it exactly when all shares are withdrawn, and leaves some of a
/// non-empty reserve otherwise.
pub proof fn lemma_payout_bound(shares: int, reserve: int, total: int)
    requires
        0 <= shares <= total,
        0 < total,
        0 <= reserve,
    ensures
        0 <= shares * reserve / total <= reserve,
        shares == total ==> shares * reserve / total == reserve,
        shares < total && reserve > 0 ==> shares * reserve / total < reserve,
{
    assert(0 <= shares * reserve <= total * reserve) by (nonlinear_arith)
        requires
            0 <= shares <= total,
            0 <= reserve,
    ;
    lemma_multiply_divide_le(shares * reserve, total, reserve);
    assert(shares * reserve / total >= 0) by (nonlinear_arith)
        requires
            shares * reserve >= 0,
            total > 0,
    ;
    if shares == total {
        lemma_div_multiples_vanish(reserve, total);
    }
    if shares < total && reserve > 0 {
        assert(shares * reserve < total * reserve) by (nonlinear_arith)
            requires
                0 <= shares < total,
                0 < reserve,
        ;
        lemma_multiply_divide_lt(shares * reserve, total, reserve);
    }
}

} // verus!
