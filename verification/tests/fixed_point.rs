use phototaxis::fixed::{isqrt, isqrt_ceil, magnitude, scale, ONE};
use phototaxis::vector::Vec3;

#[test]
fn scale_rounds_toward_zero() {
    assert_eq!(scale(7, 1, 2), 3);
    assert_eq!(scale(-7, 1, 2), -3);
    assert_eq!(scale(7, -1, 2), -3);
    assert_eq!(scale(-7, -1, 2), 3);
    assert_eq!(scale(3 * ONE, 2 * ONE, ONE as u128), 6 * ONE);
}

#[test]
fn magnitude_of_the_least_scalar() {
    assert_eq!(magnitude(i64::MIN), 9_223_372_036_854_775_808u64);
    assert_eq!(magnitude(-5), 5);
    assert_eq!(magnitude(5), 5);
}

#[test]
fn square_roots_round_as_named() {
    assert_eq!(isqrt(0), 0);
    assert_eq!(isqrt(15), 3);
    assert_eq!(isqrt(16), 4);
    assert_eq!(isqrt(17), 4);
    assert_eq!(isqrt_ceil(0), 0);
    assert_eq!(isqrt_ceil(15), 4);
    assert_eq!(isqrt_ceil(16), 4);
    assert_eq!(isqrt_ceil(17), 5);
    assert_eq!(isqrt((1u128 << 126) - 1), (1u64 << 63) - 1);
}

#[test]
fn normalizing_an_axis_vector_is_exact() {
    assert_eq!(Vec3::from_units(10, 0, 0).normalize_or_zero(), Vec3::new(ONE, 0, 0));
    assert_eq!(Vec3::from_units(0, -7, 0).normalize_or_zero(), Vec3::new(0, -ONE, 0));
    assert_eq!(Vec3::new(3, 4, 0).normalize_or_zero(), Vec3::new(600_000, 800_000, 0));
    assert_eq!(Vec3::zero().normalize_or_zero(), Vec3::zero());
}

#[test]
fn normalizing_a_tiny_vector_keeps_its_length_near_one() {
    let unit = Vec3::new(1, 1, 1).normalize_or_zero();
    let norm2 = unit.norm2();
    let one = ONE as u128;
    assert!(norm2 <= one * one);
    assert!(norm2 >= one * one - 5 * one);
}
