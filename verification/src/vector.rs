//! Two-dimensional vectors with exact integer components.

use vstd::prelude::*;

use crate::math::sqrt_floor;
use crate::math::tdiv_signed;

verus! {

/// A 2D vector in simulation units. Pure value type.
#[derive(Clone, Copy, PartialEq, Eq, Structural, Debug)]
pub struct Vector2 {
    pub x: i64,
    pub y: i64,
}

impl Vector2 {
    pub fn new(x: i64, y: i64) -> (v: Self)
        ensures
            v == (Vector2 { x, y }),
    {
        Vector2 { x, y }
    }

    /// Squared Euclidean length, as an unbounded integer.
    pub open spec fn norm2(self) -> int {
        self.x * self.x + self.y * self.y
    }

    /// Euclidean length rounded down to an integer.
    pub fn magnitude(&self) -> (r: u64)
        ensures
            r as nat == sqrt_floor(self.norm2() as nat),
    {
        let ax: u128 = if self.x >= 0 {
            self.x as u128
        } else {
            (-(self.x as i128)) as u128
        };
        let ay: u128 = if self.y >= 0 {
            self.y as u128
        } else {
            (-(self.y as i128)) as u128
        };
        proof {
            assert(ax * ax == self.x * self.x) by (nonlinear_arith)
                requires ax == self.x || ax == -(self.x as int),
            ;
            assert(ay * ay == self.y * self.y) by (nonlinear_arith)
                requires ay == self.y || ay == -(self.y as int),
            ;
            assert(ax * ax <= 85070591730234615865843651857942052864u128) by (nonlinear_arith)
                requires ax <= 9223372036854775808u128,
            ;
            assert(ay * ay <= 85070591730234615865843651857942052864u128) by (nonlinear_arith)
                requires ay <= 9223372036854775808u128,
            ;
        }
        let n: u128 = ax * ax + ay * ay;
        crate::math::isqrt_u128(n)
    }

    /// Componentwise sum.
    pub fn add(self, other: Self) -> (r: Self)
        requires
            i64::MIN <= self.x + other.x <= i64::MAX,
            i64::MIN <= self.y + other.y <= i64::MAX,
        ensures
            r.x == self.x + other.x,
            r.y == self.y + other.y,
    {
        Vector2 { x: self.x + other.x, y: self.y + other.y }
    }

    /// Componentwise difference.
    pub fn sub(self, other: Self) -> (r: Self)
        requires
            i64::MIN <= self.x - other.x <= i64::MAX,
            i64::MIN <= self.y - other.y <= i64::MAX,
        ensures
            r.x == self.x - other.x,
            r.y == self.y - other.y,
    {
        Vector2 { x: self.x - other.x, y: self.y - other.y }
    }

    /// Scaling by an integer factor.
    pub fn mul(self, k: i64) -> (r: Self)
        requires
            i64::MIN <= self.x * k <= i64::MAX,
            i64::MIN <= self.y * k <= i64::MAX,
        ensures
            r.x == self.x * k,
            r.y == self.y * k,
    {
        proof {
            assert(self.x * k == (self.x as i128) * (k as i128));
            assert(self.y * k == (self.y as i128) * (k as i128));
        }
        let rx = (self.x as i128) * (k as i128);
        let ry = (self.y as i128) * (k as i128);
        Vector2 { x: rx as i64, y: ry as i64 }
    }

    /// Componentwise division by a non-zero divisor, truncating toward
    /// zero. The one case whose exact quotient does not fit an `i64`
    /// (a component of `i64::MIN` divided by `-1`) is excluded.
    pub fn div(self, k: i64) -> (r: Self)
        requires
            k != 0,
            k == -1 ==> self.x != i64::MIN && self.y != i64::MIN,
        ensures
            r.x == tdiv_signed(self.x as int, k as int),
            r.y == tdiv_signed(self.y as int, k as int),
    {
        let kk: i128 = if k > 0 {
            k as i128
        } else {
            -(k as i128)
        };
        proof {
            broadcast use vstd::arithmetic::div_mod::lemma_div_nonincreasing;
            broadcast use vstd::arithmetic::div_mod::lemma_div_pos_is_pos;

            assert(0 <= (self.x as int) / (kk as int) <= self.x || 0 <= (-(self.x as int)) / (
            kk as int) <= -(self.x as int));
            assert(0 <= (self.y as int) / (kk as int) <= self.y || 0 <= (-(self.y as int)) / (
            kk as int) <= -(self.y as int));
            if kk >= 2 {
                assert(9223372036854775808int / (kk as int) <= 4611686018427387904int)
                    by (nonlinear_arith)
                    requires kk >= 2,
                ;
            }
        }
        let qx = crate::math::tdiv_i128(self.x as i128, kk);
        let qy = crate::math::tdiv_i128(self.y as i128, kk);
        if k > 0 {
            Vector2 { x: qx as i64, y: qy as i64 }
        } else {
            Vector2 { x: (-qx) as i64, y: (-qy) as i64 }
        }
    }
}

impl Default for Vector2 {
    /// The zero vector.
    fn default() -> (v: Self)
        ensures
            v == (Vector2 { x: 0i64, y: 0i64 }),
    {
        Vector2 { x: 0, y: 0 }
    }
}

} // verus!
