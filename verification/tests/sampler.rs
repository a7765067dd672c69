//! Tests of the coordinate sampler, the fixed-point math and the color
//! mapper.

use vizgen::color::hsv_sector;
use vizgen::explog::{exp_fx, ln_fx, log10_fx};
use vizgen::trig::{atan2_fx, cos_fx, sin_fx};
use vizgen::vector;
use vizgen::ONE;

#[test]
fn linspace_five_values_exact() {
    // n > 1: n values, first == start, last == end, constant spacing.
    let v = vector(5, 0, 4 * ONE);
    assert_eq!(v, vec![0, ONE, 2 * ONE, 3 * ONE, 4 * ONE]);
}

#[test]
fn linspace_endpoints_and_gaps() {
    let v = vector(7, -3 * ONE, 11 * ONE);
    assert_eq!(v.len(), 7);
    assert_eq!(v[0], -3 * ONE);
    assert_eq!(v[6], 11 * ONE);
    let gap0 = v[1] - v[0];
    for k in 0..6 {
        let gap = v[k + 1] - v[k];
        assert!((gap - gap0).abs() <= 1);
    }
}

#[test]
fn linspace_descending_range() {
    let v = vector(3, 2 * ONE, -2 * ONE);
    assert_eq!(v[0], 2 * ONE);
    assert_eq!(v[1], 0);
    assert_eq!(v[2], -2 * ONE);
}

#[test]
fn linspace_single_element_quirk() {
    // The documented quirk: one element gives end - start.
    let v = vector(1, 2 * ONE, 5 * ONE);
    assert_eq!(v, vec![3 * ONE]);
}

#[test]
fn sine_cosine_exact_at_quarter_turns() {
    assert_eq!(sin_fx(0), 0);
    assert_eq!(cos_fx(0), ONE);
    assert_eq!(sin_fx(102944), ONE);  // sin(pi/2) == 1 exactly
    assert_eq!(sin_fx(205888), 0);  // sin(pi) == 0 exactly
}

#[test]
fn sine_range_over_many_angles() {
    let mut x: i64 = -1000000;
    while x < 1000000 {
        let s = sin_fx(x);
        assert!(-ONE <= s && s <= ONE);
        x += 9973;
    }
}

#[test]
fn exp_log_fixed_points() {
    assert_eq!(exp_fx(0), ONE);  // e^0 == 1 exactly
    assert_eq!(log10_fx(ONE), 0);  // log10(1) == 0 exactly
    assert_eq!(ln_fx(ONE), 0);  // ln(1) == 0 exactly
    // e^1 is about 2.71828: within a percent in fixed point.
    let e = exp_fx(ONE);
    assert!((e - 178145).abs() < 1200);
    // ln(e) comes back near 1.
    let l = ln_fx(e);
    assert!((l - ONE).abs() < 700);
}

#[test]
fn log_of_nonpositive_is_sentinel_not_abort() {
    // A degenerate sample yields the sentinel; neighbours are unharmed.
    let a = log10_fx(0);
    let b = log10_fx(-5 * ONE);
    assert_eq!(a, b);
    assert_eq!(log10_fx(10 * ONE + 1) >= 0, true);
}

#[test]
fn atan2_quadrants() {
    assert_eq!(atan2_fx(0, 0), 0);
    assert_eq!(atan2_fx(0, ONE), 0);
    // atan2(1, 0) == pi/2 exactly in this fixed-point model.
    assert_eq!(atan2_fx(ONE, 0), 102944);
    let a = atan2_fx(ONE, ONE);
    assert!((a - 51472).abs() < 200);  // about pi/4
}

#[test]
fn hsv_all_components_in_range() {
    // Range law on sampled hues, saturations, values.
    let mut h: i64 = -7 * ONE;
    while h < 13 * ONE {
        for &s in &[0i64, 20000, 65536] {
            for &v in &[0i64, 30000, 65536] {
                let c = hsv_sector(h, s, v);
                assert!(0 <= c.r && c.r <= v);
                assert!(0 <= c.g && c.g <= v);
                assert!(0 <= c.b && c.b <= v);
            }
        }
        h += 12345;
    }
}

#[test]
fn hsv_zero_hue_zero_saturation() {
    // The simplified six-sector formula at hue 0, saturation 0 gives
    // (v, 0, v), not white: the blue channel uses v * (1 - s) directly.
    let c = hsv_sector(0, 0, ONE);
    assert_eq!(c.r, ONE);
    assert_eq!(c.g, 0);
    assert_eq!(c.b, ONE);
}

#[test]
fn hsv_continuity_at_odd_boundaries() {
    for &k in &[1i64, 3, 5] {
        for &s in &[0i64, 20000, 40000, ONE] {
            let lo = hsv_sector(k * ONE - 1, s, ONE);
            let hi = hsv_sector(k * ONE, s, ONE);
            assert!((lo.r - hi.r).abs() <= 2);
            assert!((lo.g - hi.g).abs() <= 2);
            assert!((lo.b - hi.b).abs() <= 2);
        }
    }
}

#[test]
fn hsv_continuity_everywhere_at_full_saturation() {
    for k in 1i64..=6 {
        let lo = hsv_sector(k * ONE - 1, ONE, ONE);
        let hi = hsv_sector(k * ONE, ONE, ONE);
        assert!((lo.r - hi.r).abs() <= 2);
        assert!((lo.g - hi.g).abs() <= 2);
        assert!((lo.b - hi.b).abs() <= 2);
    }
}

#[test]
fn random_source_draws_stay_in_range() {
    let mut rng = vizgen::RandomSource::from_seed(123);
    let mut seen_nonzero = false;
    for _ in 0..200 {
        let a = rng.next_in(-5, 7);
        assert!(-5 <= a && a < 7);
        let b = rng.next_unit();
        assert!(0 <= b && b < ONE);
        if b != 0 {
            seen_nonzero = true;
        }
    }
    // A uniform draw over [0, ONE) that never moves would be no draw.
    assert!(seen_nonzero);
}
