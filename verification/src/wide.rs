//! 256-bit unsigned arithmetic on plain limbs, and the integer square root
//! built on it. The arithmetic itself is done by `sp_core::U256`.

use crate::pallet::Pallet;
use crate::types::{Balance, NativeBalance};
use sp_core::U256;
use vstd::arithmetic::div_mod::{lemma_div_is_ordered_by_denominator, lemma_fundamental_div_mod};
use vstd::prelude::*;

verus! {

/// A 256-bit unsigned integer as four 64-bit limbs, least significant first.
#[derive(Clone, Copy, Debug)]
pub struct Wide {
    pub limbs: [u64; 4],
}

/// The weight of one limb position: 2^64.
pub open spec fn limb_base() -> nat {
    0x1_0000_0000_0000_0000
}

/// The first value that 256 bits cannot hold: 2^256.
pub open spec fn wide_limit() -> nat {
    limb_base() * limb_base() * limb_base() * limb_base()
}

impl View for Wide {
    type V = nat;

    open spec fn view(&self) -> nat {
        self.limbs[0] as nat + limb_base() * (self.limbs[1] as nat + limb_base() * (
        self.limbs[2] as nat + limb_base() * (self.limbs[3] as nat)))
    }
}

/// `x`, or the largest 128-bit number where `x` is beyond it.
pub open spec fn saturate(x: int) -> int {
    if x > u128::MAX {
        u128::MAX as int
    } else {
        x
    }
}

/// The lesser of two numbers.
pub open spec fn lesser(a: int, b: int) -> int {
    if a <= b {
        a
    } else {
        b
    }
}

/// `r` is the integer square root of `n`: the largest number whose square is at most `n`.
pub open spec fn is_floor_sqrt(r: nat, n: nat) -> bool {
    r * r <= n && n < (r + 1) * (r + 1)
}

/// The integer square root of `n`.
pub open spec fn isqrt(n: nat) -> nat {
    choose|r: nat| is_floor_sqrt(r, n)
}

/// Every limb vector denotes a number below 2^256.
pub proof fn lemma_wide_bound(w: Wide)
    ensures
        w@ < wide_limit(),
{
    let b = limb_base();
    let t3 = w.limbs[3] as nat;
    let t2 = w.limbs[2] as nat + b * t3;
    let t1 = w.limbs[1] as nat + b * t2;
    assert(t3 <= b - 1);
    assert(b * t3 <= b * (b - 1)) by (nonlinear_arith)
        requires
            t3 <= b - 1,
    ;
    assert(t2 <= b * b - 1) by (nonlinear_arith)
        requires
            t2 <= (b - 1) + b * (b - 1),
    ;
    assert(b * t2 <= b * (b * b - 1)) by (nonlinear_arith)
        requires
            t2 <= b * b - 1,
    ;
    assert(t1 <= b * b * b - 1) by (nonlinear_arith)
        requires
            t1 <= (b - 1) + b * (b * b - 1),
    ;
    assert(b * t1 <= b * (b * b * b - 1)) by (nonlinear_arith)
        requires
            t1 <= b * b * b - 1,
    ;
    assert((b - 1) + b * (b * b * b - 1) == b * b * b * b - 1) by (nonlinear_arith);
}

/// The product of two 128-bit numbers fits in 256 bits.
pub proof fn lemma_product_fits(a: nat, b: nat)
    requires
        a <= u128::MAX,
        b <= u128::MAX,
    ensures
        a * b < wide_limit(),
        a * b <= u128::MAX * u128::MAX,
{
    assert(a * b <= u128::MAX * u128::MAX) by (nonlinear_arith)
        requires
            a <= u128::MAX,
            b <= u128::MAX,
    ;
    let l = wide_limit();
    assert(l == 0x1_0000_0000_0000_0000 * 0x1_0000_0000_0000_0000 * 0x1_0000_0000_0000_0000
        * 0x1_0000_0000_0000_0000);
    assert(u128::MAX * u128::MAX < l) by (nonlinear_arith)
        requires
            l == 0x1_0000_0000_0000_0000 * 0x1_0000_0000_0000_0000 * 0x1_0000_0000_0000_0000
                * 0x1_0000_0000_0000_0000,
            u128::MAX + 1 == 0x1_0000_0000_0000_0000 * 0x1_0000_0000_0000_0000,
    ;
}

/// At most one number is the integer square root of `n`.
pub proof fn lemma_floor_sqrt_unique(a: nat, b: nat, n: nat)
    requires
        is_floor_sqrt(a, n),
        is_floor_sqrt(b, n),
    ensures
        a == b,
{
    if a < b {
        assert((a + 1) * (a + 1) <= b * b) by (nonlinear_arith)
            requires
                a + 1 <= b,
        ;
    } else if b < a {
        assert((b + 1) * (b + 1) <= a * a) by (nonlinear_arith)
            requires
                b + 1 <= a,
        ;
    }
}

/// Every number has an integer square root, and `isqrt` is it.
pub proof fn lemma_isqrt_exists(n: nat)
    ensures
        is_floor_sqrt(isqrt(n), n),
    decreases n,
{
    if n == 0 {
        assert(is_floor_sqrt(0, n)) by (nonlinear_arith)
            requires
                n == 0,
        ;
    } else {
        lemma_isqrt_exists((n - 1) as nat);
        let r = isqrt((n - 1) as nat);
        if (r + 1) * (r + 1) <= n {
            assert(n < (r + 2) * (r + 2)) by (nonlinear_arith)
                requires
                    n - 1 < (r + 1) * (r + 1),
            ;
            assert(is_floor_sqrt(r + 1, n));
        } else {
            assert(is_floor_sqrt(r, n));
        }
    }
}

/// A number with the defining property is the integer square root.
pub proof fn lemma_isqrt_is(r: nat, n: nat)
    requires
        is_floor_sqrt(r, n),
    ensures
        isqrt(n) == r,
{
    lemma_floor_sqrt_unique(r, isqrt(n), n);
}

/// One Newton step from any positive `z` never lands below the square root of `y`.
proof fn lemma_newton_step(y: nat, z: nat)
    requires
        z >= 1,
    ensures
        y < ((y / z + z) / 2 + 1) * ((y / z + z) / 2 + 1),
{
    let q = y / z;
    let a: int = (q + 1) as int;
    let b: int = z as int;
    let m: int = ((q + z) / 2 + 1) as int;
    lemma_fundamental_div_mod(y as int, z as int);
    assert(y < a * b) by (nonlinear_arith)
        requires
            y == b * (y as int / b) + (y as int % b),
            0 <= y as int % b < b,
            a == y as int / b + 1,
    ;
    assert(a * a + b * b >= 2 * (a * b)) by (nonlinear_arith);
    assert(2 * m >= a + b);
    assert(4 * (m * m) >= (a + b) * (a + b)) by (nonlinear_arith)
        requires
            2 * m >= a + b,
            a + b >= 0,
    ;
    assert((a + b) * (a + b) == a * a + 2 * (a * b) + b * b) by (nonlinear_arith);
}

/// Where a Newton step from `z` does not go down, `z` is at most the square root of `y`.
proof fn lemma_newton_fixpoint(y: nat, z: nat)
    requires
        z >= 1,
        (y / z + z) / 2 >= z,
    ensures
        z * z <= y,
{
    let q = y / z;
    lemma_fundamental_div_mod(y as int, z as int);
    assert(q >= z);
    assert(z * z <= y) by (nonlinear_arith)
        requires
            y == z * q + (y as int % z as int),
            0 <= y as int % z as int,
            q >= z,
            z >= 1,
    ;
}

/// `U256::from(u128)`: the 256-bit number with the same value.
#[verifier::external_body]
pub(crate) fn wide_from_u128(x: u128) -> (r: Wide)
    ensures
        r@ == x,
{
    Wide { limbs: U256::from(x).0 }
}

/// `U256::as_u128`: the same value in 128 bits. The outside function panics
/// on a number that needs more, which `requires` leaves out.
#[verifier::external_body]
pub(crate) fn wide_as_u128(x: Wide) -> (r: u128)
    requires
        x@ <= u128::MAX,
    ensures
        r == x@,
{
    U256(x.limbs).as_u128()
}

/// `U256 * U256`: the product. The outside operator panics when the product
/// does not fit in 256 bits, which `requires` leaves out.
#[verifier::external_body]
pub(crate) fn wide_mul(a: Wide, b: Wide) -> (r: Wide)
    requires
        a@ * b@ < wide_limit(),
    ensures
        r@ == a@ * b@,
{
    Wide { limbs: (U256(a.limbs) * U256(b.limbs)).0 }
}

/// `U256 / U256`: the quotient, rounded down. The outside operator panics on
/// a zero divisor, which `requires` leaves out.
#[verifier::external_body]
pub(crate) fn wide_div(a: Wide, b: Wide) -> (r: Wide)
    requires
        b@ > 0,
    ensures
        r@ == a@ / b@,
{
    Wide { limbs: (U256(a.limbs) / U256(b.limbs)).0 }
}

/// `U256 + U256`: the sum. The outside operator panics when the sum does not
/// fit in 256 bits, which `requires` leaves out.
#[verifier::external_body]
pub(crate) fn wide_add(a: Wide, b: Wide) -> (r: Wide)
    requires
        a@ + b@ < wide_limit(),
    ensures
        r@ == a@ + b@,
{
    Wide { limbs: (U256(a.limbs) + U256(b.limbs)).0 }
}

/// `U256 - U256`: the difference. The outside operator panics when the
/// second number is the larger, which `requires` leaves out.
#[verifier::external_body]
pub(crate) fn wide_sub(a: Wide, b: Wide) -> (r: Wide)
    requires
        a@ >= b@,
    ensures
        r@ == a@ - b@,
{
    Wide { limbs: (U256(a.limbs) - U256(b.limbs)).0 }
}

/// `U256 < U256`: the order of the two numbers, which the outside type
/// decides limb by limb from the most significant one down.
#[verifier::external_body]
pub(crate) fn wide_lt(a: Wide, b: Wide) -> (r: bool)
    ensures
        r == (a@ < b@),
{
    U256(a.limbs) < U256(b.limbs)
}

impl Pallet {
    /// The integer square root of a 256-bit number by Newton's method,
    /// started at `y / 2 + 1` and followed for as long as the candidate
    /// goes down.
    pub fn sqrt(y: Wide) -> (r: u128)
        ensures
            is_floor_sqrt(r as nat, y@),
            r == isqrt(y@),
            y@ == 0 ==> r == 0,
            0 < y@ <= 3 ==> r == 1,
    {
        let zero = wide_from_u128(0);
        let three = wide_from_u128(3);
        proof {
            lemma_wide_bound(y);
        }
        if wide_lt(three, y) {
            let one = wide_from_u128(1);
            let two = wide_from_u128(2);
            let mut z = y;
            let mut x = wide_add(wide_div(y, two), one);
            proof {
                let n = y@ / 2 + 1;
                assert(y@ < (n + 1) * (n + 1)) by (nonlinear_arith)
                    requires
                        2 * n >= y@,
                        y@ > 3,
                ;
                assert(y@ < (y@ + 1) * (y@ + 1)) by (nonlinear_arith);
            }
            while wide_lt(x, z)
                invariant
                    3 < y@ < wide_limit(),
                    two@ == 2,
                    1 <= x@ <= y@ / 2 + 1,
                    1 <= z@ <= y@,
                    y@ < (x@ + 1) * (x@ + 1),
                    y@ < (z@ + 1) * (z@ + 1),
                    z@ == y@ || x@ == (y@ / z@ + z@) / 2,
                decreases z@,
            {
                z = x;
                proof {
                    assert(z@ >= 2) by (nonlinear_arith)
                        requires
                            y@ < (z@ + 1) * (z@ + 1),
                            y@ > 3,
                    ;
                    lemma_div_is_ordered_by_denominator(y@ as int, 2, z@ as int);
                }
                let q = wide_div(y, x);
                x = wide_div(wide_add(q, x), two);
                proof {
                    lemma_newton_step(y@, z@);
                    assert(x@ >= 1);
                }
            }
            proof {
                lemma_newton_fixpoint(y@, z@);
                assert(z@ <= u128::MAX) by (nonlinear_arith)
                    requires
                        z@ * z@ <= y@,
                        y@ < 0x1_0000_0000_0000_0000 * 0x1_0000_0000_0000_0000 * 0x1_0000_0000_0000_0000
                            * 0x1_0000_0000_0000_0000,
                        u128::MAX + 1 == 0x1_0000_0000_0000_0000 * 0x1_0000_0000_0000_0000,
                ;
            }
            let r = wide_as_u128(z);
            proof {
                lemma_isqrt_is(r as nat, y@);
            }
            r
        } else if wide_lt(zero, y) {
            proof {
                assert(is_floor_sqrt(1, y@)) by (nonlinear_arith)
                    requires
                        0 < y@ <= 3,
                ;
                lemma_isqrt_is(1, y@);
            }
            1
        } else {
            proof {
                assert(is_floor_sqrt(0, y@)) by (nonlinear_arith)
                    requires
                        y@ == 0,
                ;
                lemma_isqrt_is(0, y@);
            }
            0
        }
    }

    /// The lesser of two 256-bit numbers, held to 128 bits.
    pub fn min(x: Wide, y: Wide) -> (r: u128)
        ensures
            r == saturate(lesser(x@ as int, y@ as int)),
    {
        if wide_lt(y, x) {
            Self::u256_to_assets_balance_saturated(y)
        } else {
            Self::u256_to_assets_balance_saturated(x)
        }
    }

    /// A 128-bit number as a token balance.
    pub fn u128_to_assets_balance_saturated(input: u128) -> (r: Balance)
        ensures
            r == input,
    {
        input
    }

    /// A token balance as a 128-bit number.
    pub fn assets_balance_to_u128_saturated(input: Balance) -> (r: u128)
        ensures
            r == input,
    {
        input
    }

    /// A token balance as a 256-bit number of the same value.
    pub fn assets_balance_to_u256_saturated(input: Balance) -> (r: Wide)
        ensures
            r@ == input,
    {
        wide_from_u128(Self::assets_balance_to_u128_saturated(input))
    }

    /// A 256-bit number as a token balance: the same value where it fits,
    /// else the largest balance.
    pub fn u256_to_assets_balance_saturated(input: Wide) -> (r: Balance)
        ensures
            r == saturate(input@ as int),
    {
        let top = wide_from_u128(u128::MAX);
        if wide_lt(top, input) {
            u128::MAX
        } else {
            Self::u128_to_assets_balance_saturated(wide_as_u128(input))
        }
    }

    /// A 128-bit number as a 256-bit number of the same value.
    pub fn u128_to_u256_saturated(input: u128) -> (r: Wide)
        ensures
            r@ == input,
    {
        wide_from_u128(input)
    }

    /// A 128-bit number as a quantity of native currency.
    pub fn u128_to_native_currency_saturated(input: u128) -> (r: NativeBalance)
        ensures
            r == input,
    {
        input
    }
}

} // verus!
