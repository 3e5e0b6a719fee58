use brainstorm::fx::{div_trunc, fx_add, fx_mul, fx_sqrt, isqrt_u128, scale_frac, FX_LIMIT, SCALE};
use brainstorm::vec3::{distance, magnitude, norm3, Vec3};

#[test]
fn fx_add_is_exact_inside_the_bound() {
    assert_eq!(fx_add(3, 4), 7);
    assert_eq!(fx_add(-3, 4), 1);
    assert_eq!(fx_add(0, 0), 0);
}

#[test]
fn fx_add_saturates_at_the_bound() {
    assert_eq!(fx_add(FX_LIMIT, 1), FX_LIMIT);
    assert_eq!(fx_add(-FX_LIMIT, -5), -FX_LIMIT);
    assert_eq!(fx_add(FX_LIMIT, -FX_LIMIT), 0);
}

#[test]
fn fx_mul_multiplies_fixed_point_values() {
    // 2.0 * 3.0 == 6.0
    assert_eq!(fx_mul(2 * SCALE, 3 * SCALE), 6 * SCALE);
    // 0.5 * 0.5 == 0.25
    assert_eq!(fx_mul(500_000, 500_000), 250_000);
    assert_eq!(fx_mul(-2 * SCALE, 3 * SCALE), -6 * SCALE);
    assert_eq!(fx_mul(-2 * SCALE, -3 * SCALE), 6 * SCALE);
}

#[test]
fn fx_mul_truncates_toward_zero() {
    // 0.000001 * 0.5 rounds to zero from either side.
    assert_eq!(fx_mul(1, 500_000), 0);
    assert_eq!(fx_mul(-1, 500_000), 0);
    // -1.5 * 0.001 == -0.0015, truncated toward zero.
    assert_eq!(fx_mul(-1_500_000, 1_000), -1_500);
}

#[test]
fn fx_mul_saturates_at_the_bound() {
    assert_eq!(fx_mul(FX_LIMIT, FX_LIMIT), FX_LIMIT);
    assert_eq!(fx_mul(-FX_LIMIT, FX_LIMIT), -FX_LIMIT);
}

#[test]
fn scale_frac_scales_by_a_fraction() {
    assert_eq!(scale_frac(10 * SCALE, 500_000), 5 * SCALE);
    assert_eq!(scale_frac(10 * SCALE, 0), 0);
    assert_eq!(scale_frac(10 * SCALE, SCALE), 10 * SCALE);
}

#[test]
fn div_trunc_rounds_toward_zero() {
    assert_eq!(div_trunc(7, 2), 3);
    assert_eq!(div_trunc(-7, 2), -3);
    assert_eq!(div_trunc(0, 9), 0);
}

#[test]
fn fx_sqrt_matches_exact_squares() {
    // sqrt(4.0) == 2.0
    assert_eq!(fx_sqrt(4 * SCALE), 2 * SCALE);
    assert_eq!(fx_sqrt(0), 0);
    // sqrt(2.0) == 1.414213...
    assert_eq!(fx_sqrt(2 * SCALE), 1_414_213);
}

#[test]
fn isqrt_handles_small_and_large_values() {
    assert_eq!(isqrt_u128(0), 0);
    assert_eq!(isqrt_u128(1), 1);
    assert_eq!(isqrt_u128(3), 1);
    assert_eq!(isqrt_u128(4), 2);
    assert_eq!(isqrt_u128(10u128.pow(24)), 10u64.pow(12));
    assert_eq!(isqrt_u128(10u128.pow(24) - 1), 10u64.pow(12) - 1);
}

#[test]
fn norm3_matches_the_pythagorean_triple() {
    assert_eq!(norm3(3 * SCALE, 4 * SCALE, 0), 5 * SCALE);
    assert_eq!(norm3(-3 * SCALE, 4 * SCALE, 0), 5 * SCALE);
    assert_eq!(norm3(0, 0, 0), 0);
}

#[test]
fn magnitude_and_distance_use_the_same_norm() {
    let v = Vec3 { x: 3 * SCALE, y: 4 * SCALE, z: 0 };
    assert_eq!(magnitude(&v), 5 * SCALE);
    let a = Vec3 { x: SCALE, y: 0, z: 0 };
    let b = Vec3 { x: -2 * SCALE, y: 4 * SCALE, z: 0 };
    assert_eq!(distance(&a, &b), 5 * SCALE);
    assert_eq!(distance(&b, &a), 5 * SCALE);
}
