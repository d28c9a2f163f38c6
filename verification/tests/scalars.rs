use boids::fixed::{div_trunc_i64, fp_mul, iabs, isqrt, wrap_coord};
use boids::SCALE;

#[test]
fn isqrt_exact_squares() {
    assert_eq!(isqrt(0), 0);
    assert_eq!(isqrt(1), 1);
    assert_eq!(isqrt(25), 5);
    assert_eq!(isqrt((1024 * 1024) as u128), 1024);
    assert_eq!(isqrt(u128::from(u64::MAX) * u128::from(u64::MAX)), u64::MAX);
}

#[test]
fn isqrt_rounds_down() {
    assert_eq!(isqrt(2), 1);
    assert_eq!(isqrt(3), 1);
    assert_eq!(isqrt(4), 2);
    assert_eq!(isqrt(24), 4);
    assert_eq!(isqrt(26), 5);
    assert_eq!(isqrt(2_097_152), 1448);
}

#[test]
fn wrap_coord_wraps_both_signs() {
    assert_eq!(wrap_coord(0, 100), 0);
    assert_eq!(wrap_coord(99, 100), 99);
    assert_eq!(wrap_coord(100, 100), 0);
    assert_eq!(wrap_coord(250, 100), 50);
    assert_eq!(wrap_coord(-1, 100), 99);
    assert_eq!(wrap_coord(-100, 100), 0);
    assert_eq!(wrap_coord(-250, 100), 50);
}

#[test]
fn fp_mul_truncates_toward_zero() {
    assert_eq!(fp_mul(SCALE, SCALE), SCALE);
    assert_eq!(fp_mul(SCALE / 2, 3), 1);
    assert_eq!(fp_mul(SCALE / 2, -3), -1);
    assert_eq!(fp_mul(-SCALE / 2, -3), 1);
    assert_eq!(fp_mul(10 * SCALE, 10 * SCALE), 100 * SCALE);
}

#[test]
fn div_trunc_i64_truncates_toward_zero() {
    assert_eq!(div_trunc_i64(7, 2), 3);
    assert_eq!(div_trunc_i64(-7, 2), -3);
    assert_eq!(div_trunc_i64(0, 5), 0);
    assert_eq!(div_trunc_i64(-1, 5), 0);
}

#[test]
fn iabs_covers_the_whole_range() {
    assert_eq!(iabs(0), 0);
    assert_eq!(iabs(-5), 5);
    assert_eq!(iabs(i64::MAX), i64::MAX as u64);
    assert_eq!(iabs(i64::MIN), (i64::MAX as u64) + 1);
}
