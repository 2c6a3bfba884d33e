//! Exact integer arithmetic helpers: floor square root, truncating division
//! and powers of two. These give the simulation's real-valued formulas a
//! precise integer meaning.

use vstd::prelude::*;

verus! {

/// Mathematical floor of the square root of `n`.
pub open spec fn sqrt_floor(n: nat) -> nat
    decreases n,
{
    if n == 0 {
        0
    } else {
        let r = sqrt_floor((n - 1) as nat);
        if (r + 1) * (r + 1) <= n {
            r + 1
        } else {
            r
        }
    }
}

/// `r` is the floor square root of `n`.
pub open spec fn is_sqrt(n: nat, r: nat) -> bool {
    r * r <= n && n < (r + 1) * (r + 1)
}

pub proof fn lemma_sqrt_floor_bounds(n: nat)
    ensures
        is_sqrt(n, sqrt_floor(n)),
    decreases n,
{
    if n > 0 {
        lemma_sqrt_floor_bounds((n - 1) as nat);
        let r = sqrt_floor((n - 1) as nat);
        assert(r * r <= n - 1);
        assert(n - 1 < (r + 1) * (r + 1));
        if (r + 1) * (r + 1) <= n {
            assert(sqrt_floor(n) == r + 1);
            assert((r + 1) * (r + 1) < (r + 2) * (r + 2)) by (nonlinear_arith);
            assert(is_sqrt(n, (r + 1) as nat));
            assert(is_sqrt(n, sqrt_floor(n)));
        } else {
            assert(sqrt_floor(n) == r);
            assert(is_sqrt(n, r));
            assert(is_sqrt(n, sqrt_floor(n)));
        }
    } else {
        assert(n == 0);
        assert(sqrt_floor(0) == 0);
        assert(0nat * 0nat == 0nat) by (nonlinear_arith);
        assert((0nat + 1) * (0nat + 1) == 1nat) by (nonlinear_arith);
        assert(is_sqrt(0, 0));
        assert(is_sqrt(n, sqrt_floor(n)));
    }
}

pub proof fn lemma_sqrt_floor_unique(n: nat, r: nat)
    requires
        r * r <= n,
        n < (r + 1) * (r + 1),
    ensures
        r == sqrt_floor(n),
{
    let s = sqrt_floor(n);
    lemma_sqrt_floor_bounds(n);
    if r < s {
        assert((r + 1) * (r + 1) <= s * s) by (nonlinear_arith)
            requires r + 1 <= s,
        ;
    }
    if s < r {
        assert((s + 1) * (s + 1) <= r * r) by (nonlinear_arith)
            requires s + 1 <= r,
        ;
    }
}

/// Floor square root, by binary search on the answer.
pub fn isqrt_u128(n: u128) -> (r: u64)
    ensures
        r as nat == sqrt_floor(n as nat),
{
    let mut lo: u128 = 0;
    let mut hi: u128 = 18446744073709551616u128;
    while lo + 1 < hi
        invariant
            0 <= lo < hi <= 18446744073709551616u128,
            (lo * lo) as nat <= n as nat,
            (n as nat) < (hi * hi) as nat,
        decreases hi - lo,
    {
        let mid = lo + (hi - lo) / 2;
        assert(lo < mid < hi);
        proof {
            assert(mid * mid <= 340282366920938463426481119284349108225u128) by (nonlinear_arith)
                requires mid <= 18446744073709551615u128,
            ;
        }
        if mid * mid <= n {
            lo = mid;
        } else {
            hi = mid;
        }
    }
    proof {
        assert(hi == lo + 1);
        lemma_sqrt_floor_unique(n as nat, lo as nat);
    }
    lo as u64
}

/// Division that truncates toward zero, defined for positive divisors.
pub open spec fn tdiv(a: int, b: int) -> int
    recommends
        b > 0,
{
    if a >= 0 {
        a / b
    } else {
        -((-a) / b)
    }
}

/// The truncated quotient never exceeds `c` in magnitude when `|a| <= c * b`.
pub proof fn lemma_tdiv_bound(a: int, b: int, c: int)
    requires
        b > 0,
        0 <= c,
        -(c * b) <= a <= c * b,
    ensures
        -c <= tdiv(a, b) <= c,
{
    if a >= 0 {
        assert(a / b <= c) by (nonlinear_arith)
            requires b > 0, 0 <= a <= c * b, 0 <= c,
        ;
        assert(a / b >= 0) by (nonlinear_arith)
            requires b > 0, a >= 0,
        ;
    } else {
        assert((-a) / b <= c) by (nonlinear_arith)
            requires b > 0, 0 <= -a <= c * b, 0 <= c,
        ;
        assert((-a) / b >= 0) by (nonlinear_arith)
            requires b > 0, -a >= 0,
        ;
    }
}

/// Truncating division on `i128`, for positive divisors.
pub fn tdiv_i128(a: i128, b: i128) -> (q: i128)
    requires
        b > 0,
        a != i128::MIN,
    ensures
        q == tdiv(a as int, b as int),
{
    if a >= 0 {
        let q = (a as u128) / (b as u128);
        proof {
            assert((a as u128) as int == a as int);
            assert((b as u128) as int == b as int);
            assert(q as int <= a as int) by (nonlinear_arith)
                requires q as int == (a as int) / (b as int), b as int >= 1, a as int >= 0,
            ;
        }
        q as i128
    } else {
        let neg = (-a) as u128;
        let q = neg / (b as u128);
        proof {
            assert(neg as int == -(a as int));
            assert(q as int <= neg as int) by (nonlinear_arith)
                requires q as int == (neg as int) / (b as int), b as int >= 1, neg as int >= 0,
            ;
        }
        -(q as i128)
    }
}

/// Dividing twice truncates the same as dividing by the product.
pub proof fn lemma_tdiv_chain(a: int, b: int, c: int)
    requires
        b > 0,
        c > 0,
    ensures
        tdiv(tdiv(a, b), c) == tdiv(a, b * c),
{
    vstd::arithmetic::mul::lemma_mul_strictly_positive(b, c);
    if a >= 0 {
        vstd::arithmetic::div_mod::lemma_div_pos_is_pos(a, b);
        vstd::arithmetic::div_mod::lemma_div_denominator(a, b, c);
    } else {
        vstd::arithmetic::div_mod::lemma_div_pos_is_pos(-a, b);
        vstd::arithmetic::div_mod::lemma_div_denominator(-a, b, c);
    }
}

/// Truncating division is exact on whole multiples: `(m * x) / m == x`.
pub proof fn lemma_tdiv_mul_exact(m: int, x: int)
    requires
        m > 0,
    ensures
        tdiv(m * x, m) == x,
{
    if x >= 0 {
        vstd::arithmetic::mul::lemma_mul_nonnegative(m, x);
        vstd::arithmetic::div_mod::lemma_div_multiples_vanish(x, m);
    } else {
        assert(-(m * x) == m * (-x)) by (nonlinear_arith);
        vstd::arithmetic::mul::lemma_mul_nonnegative(m, -x);
        vstd::arithmetic::div_mod::lemma_div_multiples_vanish(-x, m);
    }
}

/// Division truncating toward zero, for any non-zero divisor.
pub open spec fn tdiv_signed(a: int, b: int) -> int
    recommends
        b != 0,
{
    if b > 0 {
        tdiv(a, b)
    } else {
        -tdiv(a, -b)
    }
}

/// Truncating division is odd in its dividend: `(-a) / b == -(a / b)`.
pub proof fn lemma_tdiv_neg(a: int, b: int)
    requires
        b > 0,
    ensures
        tdiv(-a, b) == -tdiv(a, b),
{
}

/// Truncating division on `i64`, for positive divisors.
pub fn tdiv_i64(a: i64, b: i64) -> (q: i64)
    requires
        b > 0,
        a != i64::MIN,
    ensures
        q == tdiv(a as int, b as int),
{
    proof {
        broadcast use vstd::arithmetic::div_mod::lemma_div_nonincreasing;
        broadcast use vstd::arithmetic::div_mod::lemma_div_pos_is_pos;

        assert(0 <= (a as int) / (b as int) <= a || 0 <= (-(a as int)) / (b as int) <= -(
        a as int));
    }
    let q = tdiv_i128(a as i128, b as i128);
    q as i64
}

/// `n` is a power of two.
pub open spec fn is_pow2(n: int) -> bool
    decreases n,
{
    if n <= 0 {
        false
    } else if n == 1 {
        true
    } else {
        n % 2 == 0 && is_pow2(n / 2)
    }
}

pub proof fn lemma_pow2_pos(n: int)
    requires
        is_pow2(n),
    ensures
        n >= 1,
{
}

/// Halving an even power of two yields a power of two.
pub proof fn lemma_pow2_half(n: int)
    requires
        is_pow2(n),
        n >= 2,
    ensures
        n % 2 == 0,
        is_pow2(n / 2),
        n / 2 + n / 2 == n,
{
    assert(n % 2 == 0 && is_pow2(n / 2));
}

} // verus!
