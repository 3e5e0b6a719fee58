//! Fixed-point scalars.
//!
//! A scalar is an `i64` counting millionths of a unit: the value `1.0` is
//! stored as [`SCALE`].  Every quantity the simulation stores is kept inside
//! the closed interval `[-FX_LIMIT, FX_LIMIT]`; arithmetic that could leave
//! the interval saturates at its ends.  Products and square roots are defined
//! exactly, as integer formulas, so that every function here carries an exact
//! contract.

use vstd::arithmetic::div_mod::{
    lemma_div_is_ordered, lemma_div_pos_is_pos, lemma_fundamental_div_mod,
    lemma_fundamental_div_mod_converse, lemma_mod_bound,
};
use vstd::arithmetic::mul::{
    lemma_mul_inequality, lemma_mul_is_commutative, lemma_mul_nonnegative,
};
use vstd::math::abs;
use vstd::prelude::*;

verus! {

/// Number of fixed-point steps in one unit: a scalar `x` denotes `x / SCALE`.
pub const SCALE: i64 = 1_000_000;

/// Saturation bound: every stored scalar lies in `[-FX_LIMIT, FX_LIMIT]`
/// (one million units either way).
pub const FX_LIMIT: i64 = 1_000_000_000_000;

/// Whether `x` is a stored scalar, that is, lies within the saturation bound.
pub open spec fn fx_ok(x: int) -> bool {
    -(FX_LIMIT as int) <= x <= FX_LIMIT as int
}

/// Saturation: the point of `[-FX_LIMIT, FX_LIMIT]` nearest to `x`.
pub open spec fn clamp_fx(x: int) -> int {
    if x > FX_LIMIT as int {
        FX_LIMIT as int
    } else if x < -(FX_LIMIT as int) {
        -(FX_LIMIT as int)
    } else {
        x
    }
}

/// Quotient of `n` by `d`, rounded toward zero (`d > 0`).
pub open spec fn tdiv(n: int, d: int) -> int {
    if n >= 0 {
        n / d
    } else {
        -((-n) / d)
    }
}

/// Clamping never grows a value's distance from zero.
pub proof fn lemma_clamp_mag(x: int)
    ensures
        abs(clamp_fx(x)) <= abs(x),
{
}

/// Saturating an addition's result keeps it within the unsaturated step of
/// the stored left operand.
pub proof fn lemma_clamp_add_close(t: int, o: int)
    requires
        fx_ok(t),
    ensures
        abs(clamp_fx(t + o) - t) <= abs(o),
{
}

/// A truncated quotient is no larger in magnitude than what it divides:
/// `d * |n tdiv d| <= |n|`.
pub proof fn lemma_tdiv_mag(n: int, d: int)
    requires
        d >= 1,
    ensures
        d * abs(tdiv(n, d)) <= abs(n),
        0 <= abs(tdiv(n, d)),
{
    if n >= 0 {
        lemma_div_pos_is_pos(n, d);
        lemma_fundamental_div_mod(n, d);
        lemma_mod_bound(n, d);
    } else {
        lemma_div_pos_is_pos(-n, d);
        lemma_fundamental_div_mod(-n, d);
        lemma_mod_bound(-n, d);
    }
}

/// The integer square root: the greatest `r` with `r * r <= n`.
pub open spec fn isqrt(n: nat) -> nat
    decreases n,
{
    if n == 0 {
        0
    } else {
        let r = isqrt((n - 1) as nat);
        if (r + 1) * (r + 1) <= n {
            r + 1
        } else {
            r
        }
    }
}

/// Products of nonnegative numbers respect upper bounds on both factors.
pub proof fn lemma_mul_bound(a: int, b: int, ca: int, cb: int)
    requires
        0 <= a <= ca,
        0 <= b <= cb,
    ensures
        a * b <= ca * cb,
{
    lemma_mul_inequality(a, ca, b);
    lemma_mul_is_commutative(ca, b);
    lemma_mul_inequality(b, cb, ca);
    lemma_mul_is_commutative(cb, ca);
}

/// `isqrt(n)` squares to at most `n`, and is the last number that does.
pub proof fn lemma_isqrt_bounds(n: nat)
    ensures
        isqrt(n) * isqrt(n) <= n,
        n < (isqrt(n) + 1) * (isqrt(n) + 1),
    decreases n,
{
    if n == 0 {
        assert(isqrt(0) == 0);
        assert((0 + 1) * (0 + 1) == 1) by (nonlinear_arith);
    } else {
        let r = isqrt((n - 1) as nat);
        lemma_isqrt_bounds((n - 1) as nat);
        if (r + 1) * (r + 1) <= n {
            let s = r + 1;
            assert(isqrt(n) == s);
            assert(n <= s * s);
            assert((s + 1) * (s + 1) > s * s) by (nonlinear_arith)
                requires
                    s >= 0,
            ;
            assert(n < (isqrt(n) + 1) * (isqrt(n) + 1));
        } else {
            assert(isqrt(n) == r);
            assert(n < (isqrt(n) + 1) * (isqrt(n) + 1));
        }
    }
}

/// Any `r` whose square brackets `n` is the integer square root of `n`.
pub proof fn lemma_isqrt_unique(n: nat, r: nat)
    requires
        r * r <= n,
        n < (r + 1) * (r + 1),
    ensures
        r == isqrt(n),
{
    lemma_isqrt_bounds(n);
    let s = isqrt(n);
    if r < s {
        assert(r + 1 <= s);
        lemma_mul_inequality(r as int + 1, s as int, r as int + 1);
        lemma_mul_inequality(r as int + 1, s as int, s as int);
        assert((r + 1) * (r + 1) <= s * s) by (nonlinear_arith)
            requires
                (r + 1) * (r + 1) <= s * (r + 1),
                (r + 1) * s <= s * s,
        ;
        assert(s * s <= n);
    } else if s < r {
        lemma_mul_inequality(s as int + 1, r as int, s as int + 1);
        lemma_mul_inequality(s as int + 1, r as int, r as int);
        assert((s + 1) * (s + 1) <= r * r) by (nonlinear_arith)
            requires
                (s + 1) * (s + 1) <= r * (s + 1),
                (s + 1) * r <= r * r,
        ;
        assert(r * r <= n);
    }
}

/// A number below a square has an integer square root below the root.
pub proof fn lemma_isqrt_upper(n: nat, b: nat)
    requires
        n < (b + 1) * (b + 1),
    ensures
        isqrt(n) <= b,
{
    lemma_isqrt_bounds(n);
    let s = isqrt(n);
    if s > b {
        lemma_mul_inequality(b as int + 1, s as int, b as int + 1);
        lemma_mul_inequality(b as int + 1, s as int, s as int);
        assert((b + 1) * (b + 1) <= s * s) by (nonlinear_arith)
            requires
                (b + 1) * (b + 1) <= s * (b + 1),
                (b + 1) * s <= s * s,
        ;
    }
}

/// Integer square root, by bisection.
pub fn isqrt_u128(n: u128) -> (r: u64)
    requires
        (n as nat) < 0x4000_0000_0000_0000_0000_0000_0000_0000,
    ensures
        r as nat == isqrt(n as nat),
{
    let mut lo: u64 = 0;
    let mut hi: u64 = 0x8000_0000_0000_0000;
    proof {
        assert((hi as int) * (hi as int) > n as int) by (nonlinear_arith)
            requires
                hi == 0x8000_0000_0000_0000u64,
                (n as nat) < 0x4000_0000_0000_0000_0000_0000_0000_0000,
        ;
    }
    while hi - lo > 1
        invariant
            lo < hi,
            hi <= 0x8000_0000_0000_0000u64,
            (lo as int) * (lo as int) <= n as int,
            (hi as int) * (hi as int) > n as int,
        decreases hi - lo,
    {
        let mid: u64 = lo + (hi - lo) / 2;
        proof {
            lemma_mul_bound(
                mid as int,
                mid as int,
                0x8000_0000_0000_0000,
                0x8000_0000_0000_0000,
            );
            assert((0x8000_0000_0000_0000int) * (0x8000_0000_0000_0000int)
                == 0x4000_0000_0000_0000_0000_0000_0000_0000int) by (nonlinear_arith);
        }
        let sq: u128 = (mid as u128) * (mid as u128);
        if sq <= n {
            lo = mid;
        } else {
            hi = mid;
        }
    }
    proof {
        assert(hi == lo + 1);
        lemma_isqrt_unique(n as nat, lo as nat);
    }
    lo
}

/// Saturating addition of two stored scalars.
pub fn fx_add(a: i64, b: i64) -> (r: i64)
    requires
        fx_ok(a as int),
        fx_ok(b as int),
    ensures
        r as int == clamp_fx(a as int + b as int),
{
    let s: i64 = a + b;
    if s > FX_LIMIT {
        FX_LIMIT
    } else if s < -FX_LIMIT {
        -FX_LIMIT
    } else {
        s
    }
}

/// Sign rules for products.
pub proof fn lemma_neg_mul(a: int, b: int)
    ensures
        (-a) * b == -(a * b),
        a * (-b) == -(a * b),
        (-a) * (-b) == a * b,
{
    assert((-a) * b == -(a * b)) by (nonlinear_arith);
    assert(a * (-b) == -(a * b)) by (nonlinear_arith);
    assert((-a) * (-b) == a * b) by (nonlinear_arith);
}

/// Saturating fixed-point product: `a * b / SCALE`, rounded toward zero,
/// then clamped.
pub fn fx_mul(a: i64, b: i64) -> (r: i64)
    requires
        fx_ok(a as int),
        fx_ok(b as int),
    ensures
        r as int == clamp_fx(tdiv(a as int * b as int, SCALE as int)),
{
    let neg: bool = (a < 0) != (b < 0);
    let ma: u64 = if a < 0 {
        (-a) as u64
    } else {
        a as u64
    };
    let mb: u64 = if b < 0 {
        (-b) as u64
    } else {
        b as u64
    };
    proof {
        lemma_mul_bound(ma as int, mb as int, FX_LIMIT as int, FX_LIMIT as int);
        assert((FX_LIMIT as int) * (FX_LIMIT as int) == 1_000_000_000_000_000_000_000_000int)
            by (nonlinear_arith);
    }
    let p: u128 = (ma as u128) * (mb as u128);
    let q: u128 = p / (SCALE as u128);
    proof {
        lemma_div_is_ordered(p as int, FX_LIMIT as int * FX_LIMIT as int, SCALE as int);
        lemma_fundamental_div_mod_converse(
            FX_LIMIT as int * FX_LIMIT as int,
            SCALE as int,
            1_000_000_000_000_000_000,
            0,
        );
    }
    let q64: i64 = q as i64;
    let signed: i64 = if neg {
        -q64
    } else {
        q64
    };
    proof {
        lemma_neg_mul(ma as int, mb as int);
        assert(a as int * b as int == if neg {
            -(ma as int * mb as int)
        } else {
            ma as int * mb as int
        });
        assert(signed as int == tdiv(a as int * b as int, SCALE as int));
    }
    if signed > FX_LIMIT {
        FX_LIMIT
    } else if signed < -FX_LIMIT {
        -FX_LIMIT
    } else {
        signed
    }
}

/// Exact nonnegative scaling: `m * f / SCALE` with `0 <= f <= SCALE`, so the
/// result never exceeds `m` and no clamping is needed.
pub fn scale_frac(m: i64, f: i64) -> (r: i64)
    requires
        0 <= m as int <= 8 * FX_LIMIT as int,
        0 <= f <= SCALE,
    ensures
        r as int == (m as int * f as int) / (SCALE as int),
        0 <= r <= m,
{
    proof {
        lemma_mul_bound(m as int, f as int, 8 * FX_LIMIT as int, SCALE as int);
    }
    let p: u128 = (m as u128) * (f as u128);
    let q: u128 = p / (SCALE as u128);
    proof {
        lemma_mul_nonnegative(m as int, f as int);
        lemma_mul_inequality(f as int, SCALE as int, m as int);
        assert(f as int * m as int == m as int * f as int) by (nonlinear_arith);
        lemma_div_is_ordered(p as int, m as int * SCALE as int, SCALE as int);
        assert(m as int * SCALE as int / (SCALE as int) == m as int) by {
            lemma_fundamental_div_mod_converse(m as int * SCALE as int, SCALE as int, m as int, 0);
        }
        lemma_div_pos_is_pos(p as int, SCALE as int);
    }
    q as i64
}

/// Exact truncated division by a positive divisor.
pub fn div_trunc(n: i64, d: i64) -> (r: i64)
    requires
        n > i64::MIN,
        d >= 1,
    ensures
        r as int == tdiv(n as int, d as int),
{
    let neg: bool = n < 0;
    let mn: u64 = if neg {
        (-n) as u64
    } else {
        n as u64
    };
    let q: u64 = mn / (d as u64);
    proof {
        lemma_div_pos_is_pos(mn as int, d as int);
        assert(q as int <= mn as int) by {
            lemma_fundamental_div_mod(mn as int, d as int);
            lemma_mod_bound(mn as int, d as int);
            lemma_mul_inequality(1, d as int, q as int);
        }
    }
    if neg {
        -(q as i64)
    } else {
        q as i64
    }
}

/// Fixed-point square root of a nonnegative scalar: since a scalar `x`
/// denotes `x / SCALE`, its root denotes `isqrt(x * SCALE) / SCALE`.
pub open spec fn fx_sqrt_spec(x: int) -> int {
    isqrt((x * SCALE as int) as nat) as int
}

/// Fixed-point square root.  The result of `fx_sqrt(x)` is at most
/// `SCALE * 1000`, well inside the saturation bound.
pub fn fx_sqrt(x: i64) -> (r: i64)
    requires
        0 <= x <= FX_LIMIT,
    ensures
        r as int == fx_sqrt_spec(x as int),
        0 <= r as int <= 1_000_000_000,
{
    proof {
        lemma_mul_bound(x as int, SCALE as int, FX_LIMIT as int, SCALE as int);
        assert((FX_LIMIT as int) * (SCALE as int) == 1_000_000_000_000_000_000int)
            by (nonlinear_arith);
    }
    let p: u128 = (x as u128) * (SCALE as u128);
    let r: u64 = isqrt_u128(p);
    proof {
        lemma_isqrt_bounds(p as nat);
        if r as int > 1_000_000_000 {
            lemma_mul_inequality(1_000_000_001, r as int, 1_000_000_001);
            lemma_mul_inequality(1_000_000_001, r as int, r as int);
            assert((1_000_000_001int) * (1_000_000_001int) > FX_LIMIT as int * SCALE as int)
                by (nonlinear_arith);
            assert(1_000_000_001int * r as int <= (r as int) * (r as int)) by (nonlinear_arith)
                requires
                    1_000_000_001int <= r as int,
            ;
        }
    }
    r as i64
}

} // verus!

