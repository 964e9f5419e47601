use fractal_camera::fixed::{fmul, isqrt, log2_approx, sat_add, ONE};
use fractal_camera::math::{
    clamp, lower_clamp, upper_clamp, zoom_scale_function, HasLength, Vec2,
};

#[test]
fn isqrt_small_values() {
    assert_eq!(isqrt(0), 0);
    assert_eq!(isqrt(1), 1);
    assert_eq!(isqrt(3), 1);
    assert_eq!(isqrt(4), 2);
    assert_eq!(isqrt(15), 3);
    assert_eq!(isqrt(16), 4);
    assert_eq!(isqrt(24), 4);
    assert_eq!(isqrt(25), 5);
}

#[test]
fn isqrt_large_values() {
    assert_eq!(isqrt(1_000_000_000_000), 1_000_000);
    assert_eq!(isqrt(2_000_000_000_000), 1_414_213);
    assert_eq!(isqrt(u64::MAX), 4_294_967_295);
}

#[test]
fn sat_add_saturates() {
    assert_eq!(sat_add(1, 2), 3);
    assert_eq!(sat_add(i64::MAX, 1), i64::MAX);
    assert_eq!(sat_add(i64::MIN, -1), i64::MIN);
    assert_eq!(sat_add(i64::MAX, -1), i64::MAX - 1);
}

#[test]
fn fmul_multiplies_fixed_point() {
    // 0.5 * 0.5 == 0.25
    assert_eq!(fmul(500_000, 500_000), 250_000);
    // 2.0 * 3.0 == 6.0
    assert_eq!(fmul(2_000_000, 3_000_000), 6_000_000);
    // -1.5 * 2.0 == -3.0
    assert_eq!(fmul(-1_500_000, 2_000_000), -3_000_000);
}

#[test]
fn clamp_applies_both_bounds() {
    let mut v: i64 = -5;
    clamp(&mut v, 0, 10);
    assert_eq!(v, 0);
    let mut v: i64 = 15;
    clamp(&mut v, 0, 10);
    assert_eq!(v, 10);
    let mut v: i64 = 7;
    clamp(&mut v, 0, 10);
    assert_eq!(v, 7);
}

#[test]
fn clamp_result_between_bounds() {
    for start in [i64::MIN, -1_000, 0, 999, 1_000_000, i64::MAX] {
        let mut v = start;
        clamp(&mut v, -500, 500);
        assert!(-500 <= v && v <= 500);
    }
}

#[test]
fn one_sided_clamps() {
    let mut v: i64 = -3;
    lower_clamp(&mut v, 0);
    assert_eq!(v, 0);
    let mut v: i64 = 3;
    lower_clamp(&mut v, 0);
    assert_eq!(v, 3);
    let mut v: i64 = 12;
    upper_clamp(&mut v, 10);
    assert_eq!(v, 10);
    let mut v: i64 = 9;
    upper_clamp(&mut v, 10);
    assert_eq!(v, 9);
}

#[test]
fn log2_approx_exact_at_powers_of_two() {
    assert_eq!(log2_approx(ONE), 0);
    assert_eq!(log2_approx(2 * ONE), ONE);
    assert_eq!(log2_approx(4 * ONE), 2 * ONE);
    assert_eq!(log2_approx(ONE / 2), -ONE);
    assert_eq!(log2_approx(ONE / 4), -2 * ONE);
}

#[test]
fn zoom_scale_of_flat_zoom_is_zero() {
    assert_eq!(zoom_scale_function(0), 0);
}

#[test]
fn zoom_scale_exact_values() {
    // log2(2) + 1 == 2
    assert_eq!(zoom_scale_function(ONE), 2 * ONE);
    // log2(4) + 3 == 5
    assert_eq!(zoom_scale_function(3 * ONE), 5 * ONE);
    // log2(1/2) - 1/2 == -3/2
    assert_eq!(zoom_scale_function(-ONE / 2), -3 * ONE / 2);
}

#[test]
fn zoom_scale_increases_with_zoom() {
    let samples: [i64; 7] = [-999_999, -500_000, -1, 0, 1, ONE, 40 * ONE];
    let mut previous = zoom_scale_function(samples[0]);
    for z in &samples[1..] {
        let next = zoom_scale_function(*z);
        assert!(previous < next);
        previous = next;
    }
}

#[test]
fn length_of_three_four_vector() {
    let v = Vec2 { x: 3 * ONE, y: 4 * ONE };
    assert_eq!(v.length(), 5 * ONE);
}

#[test]
fn length_of_zero_vector_is_zero() {
    let v = Vec2 { x: 0, y: 0 };
    assert_eq!(v.length(), 0);
}

#[test]
fn normalize_zero_vector_unchanged() {
    let v = Vec2 { x: 0, y: 0 };
    let n = v.normalize();
    assert_eq!(n.x, 0);
    assert_eq!(n.y, 0);
}

#[test]
fn normalize_axis_vectors_exactly() {
    let n = Vec2 { x: 0, y: -ONE }.normalize();
    assert_eq!(n.x, 0);
    assert_eq!(n.y, -ONE);
    assert_eq!(n.length(), ONE);
    let n = Vec2 { x: 7 * ONE, y: 0 }.normalize();
    assert_eq!(n.x, ONE);
    assert_eq!(n.y, 0);
    assert_eq!(n.length(), ONE);
}

#[test]
fn normalize_three_four_vector_exactly() {
    let n = Vec2 { x: 3 * ONE, y: -4 * ONE }.normalize();
    assert_eq!(n.x, 600_000);
    assert_eq!(n.y, -800_000);
    assert_eq!(n.length(), ONE);
}

#[test]
fn normalize_yields_unit_length_within_tolerance() {
    let vectors = [
        Vec2 { x: ONE, y: ONE },
        Vec2 { x: -ONE, y: ONE },
        Vec2 { x: 123 * ONE, y: -456 * ONE },
        Vec2 { x: 1_999_999_999, y: 1 },
        Vec2 { x: -1_234_567, y: 7_654_321 },
    ];
    for v in vectors {
        let len = v.normalize().length();
        assert!(ONE - 3 <= len && len <= ONE);
    }
}

#[test]
fn normalize_sub_unit_vectors_within_tolerance() {
    // Vectors far shorter than one unit still normalize accurately.
    let vectors = [
        Vec2 { x: 1, y: 1 },
        Vec2 { x: 1, y: 0 },
        Vec2 { x: 0, y: -3 },
        Vec2 { x: 2, y: -5 },
        Vec2 { x: -700, y: 29 },
        Vec2 { x: 999_999, y: -1 },
    ];
    for v in vectors {
        let len = v.normalize().length();
        assert!(ONE - 3 <= len && len <= ONE);
    }
}

#[test]
fn normalize_tiny_diagonal_exactly() {
    // (0.000001, 0.000001) points along the diagonal; its normalization
    // is the unit diagonal, off by at most a micro-unit of truncation.
    let n = Vec2 { x: 1, y: 1 }.normalize();
    assert_eq!(n.x, 707_106);
    assert_eq!(n.y, 707_106);
}

#[test]
fn normalize_twice_changes_little() {
    // Normalizing an already-normalized vector moves each component by at
    // most a few micro-units of rounding.
    let vectors = [
        Vec2 { x: 1, y: 1 },
        Vec2 { x: 3, y: -4 },
        Vec2 { x: ONE, y: ONE },
        Vec2 { x: 123 * ONE, y: -456 * ONE },
        Vec2 { x: 1_999_999_999, y: 7 },
    ];
    for v in vectors {
        let w = v.normalize();
        let w2 = w.normalize();
        assert!((w2.x - w.x).abs() <= 4);
        assert!((w2.y - w.y).abs() <= 4);
    }
}
