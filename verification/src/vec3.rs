//! Three-component fixed-point vectors.
//!
//! Positions, field samples and camera poses are `Vec3` values whose
//! components are fixed-point scalars (see [`crate::fx`]).  Lengths are
//! integer square roots of the exact sum of squared components.

use crate::fx::{fx_ok, isqrt, isqrt_u128, lemma_isqrt_bounds, lemma_mul_bound, lemma_neg_mul, FX_LIMIT};
use vstd::math::abs;
use vstd::prelude::*;

verus! {

/// A point or displacement in the field's space, in fixed-point scalars.
#[derive(Clone, Copy, Debug, PartialEq, Eq, Structural)]
pub struct Vec3 {
    pub x: i64,
    pub y: i64,
    pub z: i64,
}

impl Vec3 {
    /// All three components lie within the saturation bound.
    pub open spec fn wf(self) -> bool {
        fx_ok(self.x as int) && fx_ok(self.y as int) && fx_ok(self.z as int)
    }
}

/// The square of an integer.
pub open spec fn sq(x: int) -> int {
    x * x
}

/// Exact squared length of `v`.
pub open spec fn norm_sq(v: Vec3) -> int {
    sq(v.x as int) + sq(v.y as int) + sq(v.z as int)
}

/// Length of `v`: the integer square root of the exact squared length.
/// Both `v` and its length are in fixed-point scalars.
pub open spec fn norm_spec(v: Vec3) -> int {
    isqrt(norm_sq(v) as nat) as int
}

/// Exact squared distance between `a` and `b`.
pub open spec fn dist_sq(a: Vec3, b: Vec3) -> int {
    sq(a.x as int - b.x as int) + sq(a.y as int - b.y as int) + sq(a.z as int - b.z as int)
}

/// Distance between `a` and `b`: the integer square root of `dist_sq`.
pub open spec fn dist_spec(a: Vec3, b: Vec3) -> int {
    isqrt(dist_sq(a, b) as nat) as int
}

/// Squares are nonnegative.
pub proof fn lemma_sq_nonneg(x: int)
    ensures
        sq(x) >= 0,
{
    if x >= 0 {
        lemma_mul_bound(0, 0, x, x);
    } else {
        lemma_neg_mul(x, x);
        lemma_mul_bound(0, 0, -x, -x);
    }
}

/// Squares never decrease when the absolute value grows.
pub proof fn lemma_sq_le(a: int, b: int)
    requires
        -b <= a <= b,
    ensures
        sq(a) <= sq(b),
{
    if a >= 0 {
        lemma_mul_bound(a, a, b, b);
    } else {
        lemma_neg_mul(a, a);
        lemma_mul_bound(-a, -a, b, b);
    }
}

/// A square ignores the sign of its argument.
pub proof fn lemma_sq_abs(a: int)
    ensures
        sq(abs(a) as int) == sq(a),
{
    if a < 0 {
        lemma_neg_mul(a, a);
    }
}

/// Squares order the same way as absolute values.
pub proof fn lemma_sq_from_abs(p: int, q: int)
    requires
        abs(p) <= abs(q),
    ensures
        sq(p) <= sq(q),
{
    lemma_sq_abs(p);
    lemma_sq_abs(q);
    lemma_mul_bound(abs(p) as int, abs(p) as int, abs(q) as int, abs(q) as int);
}

/// Squaring distributes over products.
pub proof fn lemma_sq_mul(a: int, b: int)
    ensures
        sq(a * b) == sq(a) * sq(b),
{
    assert((a * b) * (a * b) == (a * a) * (b * b)) by (nonlinear_arith);
}

/// A nonnegative factor moves out of an absolute value.
pub proof fn lemma_abs_mul_pos(k: int, x: int)
    requires
        k >= 0,
    ensures
        abs(k * x) == k * abs(x),
{
    if x >= 0 {
        lemma_mul_bound(0, 0, k, x);
    } else {
        lemma_neg_mul(k, x);
        lemma_mul_bound(0, 0, k, -x);
    }
}

/// Length of the integer vector `(dx, dy, dz)`: used both for field-sample
/// magnitudes and for camera distances, whose component differences may
/// reach twice the saturation bound.
pub fn norm3(dx: i64, dy: i64, dz: i64) -> (r: i64)
    requires
        -2 * FX_LIMIT as int <= dx as int <= 2 * FX_LIMIT as int,
        -2 * FX_LIMIT as int <= dy as int <= 2 * FX_LIMIT as int,
        -2 * FX_LIMIT as int <= dz as int <= 2 * FX_LIMIT as int,
    ensures
        r as int == isqrt((sq(dx as int) + sq(dy as int) + sq(dz as int)) as nat) as int,
        0 <= r as int <= 4 * FX_LIMIT as int,
{
    let ax: u64 = if dx < 0 {
        (-dx) as u64
    } else {
        dx as u64
    };
    let ay: u64 = if dy < 0 {
        (-dy) as u64
    } else {
        dy as u64
    };
    let az: u64 = if dz < 0 {
        (-dz) as u64
    } else {
        dz as u64
    };
    proof {
        lemma_neg_mul(dx as int, dx as int);
        lemma_neg_mul(dy as int, dy as int);
        lemma_neg_mul(dz as int, dz as int);
        lemma_mul_bound(ax as int, ax as int, 2 * FX_LIMIT as int, 2 * FX_LIMIT as int);
        lemma_mul_bound(ay as int, ay as int, 2 * FX_LIMIT as int, 2 * FX_LIMIT as int);
        lemma_mul_bound(az as int, az as int, 2 * FX_LIMIT as int, 2 * FX_LIMIT as int);
        assert((2 * FX_LIMIT as int) * (2 * FX_LIMIT as int) == 4_000_000_000_000_000_000_000_000int)
            by (nonlinear_arith);
    }
    let px: u128 = (ax as u128) * (ax as u128);
    let py: u128 = (ay as u128) * (ay as u128);
    let pz: u128 = (az as u128) * (az as u128);
    let s: u128 = px + py + pz;
    let r: u64 = isqrt_u128(s);
    proof {
        assert(s as int == sq(dx as int) + sq(dy as int) + sq(dz as int));
        lemma_isqrt_bounds(s as nat);
        if r as int > 4 * FX_LIMIT as int {
            lemma_mul_bound(4 * FX_LIMIT as int, 4 * FX_LIMIT as int, r as int, r as int);
            assert((4 * FX_LIMIT as int) * (4 * FX_LIMIT as int)
                == 16_000_000_000_000_000_000_000_000int) by (nonlinear_arith);
        }
    }
    r as i64
}

/// Length of a stored vector, as a fixed-point scalar.
pub fn magnitude(v: &Vec3) -> (r: i64)
    requires
        v.wf(),
    ensures
        r as int == norm_spec(*v),
        0 <= r as int <= 4 * FX_LIMIT as int,
{
    norm3(v.x, v.y, v.z)
}

/// Distance between two stored points, as a fixed-point scalar.
pub fn distance(a: &Vec3, b: &Vec3) -> (r: i64)
    requires
        a.wf(),
        b.wf(),
    ensures
        r as int == dist_spec(*a, *b),
        0 <= r as int <= 4 * FX_LIMIT as int,
{
    norm3(a.x - b.x, a.y - b.y, a.z - b.z)
}

} // verus!
