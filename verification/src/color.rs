//! The color mapper: the six-sector piecewise-linear HSV-to-RGB formula
//! over fixed-point components, with its range and continuity laws.

use vstd::prelude::*;

verus! {

use crate::fixed::{ONE, sdiv, fmul, div_trunc, mod_euclid, fx_mul, lemma_sdiv_bound};
use crate::shapes::Rgb;
use vstd::arithmetic::div_mod::{lemma_div_is_ordered, lemma_div_multiples_vanish, lemma_div_by_multiple};
use vstd::arithmetic::mul::lemma_mul_inequality;

/// The hue period: six sectors of one unit each.
pub const SIX: i64 = 6 * 65536;

/// The six-sector HSV formula on a hue reduced into `[0, 6)` (in
/// fixed-point units `[0, SIX)`): sector index `hm / ONE`, fractional
/// part `hm % ONE`, and the standard per-sector component triples.
pub open spec fn spec_hsv(h: int, s: int, v: int) -> (int, int, int) {
    let hm = h % (SIX as int);
    let i = hm / (ONE as int);
    let f = hm % (ONE as int);
    let p = fmul(v, ONE - s);
    let t = fmul(v, f);
    let q = fmul(v, ONE - f);
    if i == 0 {
        (v, t, p)
    } else if i == 1 {
        (q, v, p)
    } else if i == 2 {
        (p, v, t)
    } else if i == 3 {
        (p, q, v)
    } else if i == 4 {
        (t, p, v)
    } else {
        (v, p, q)
    }
}

/// Executable six-sector HSV-to-RGB conversion.  The hue is a fractional
/// sector count scaled by [`ONE`] (so one full rotation is `6 * ONE`);
/// saturation and value are fixed-point fractions.  Any hue is reduced
/// into one period first; inputs outside the documented ranges still
/// give the mathematically defined result.
pub fn hsv_sector(h: i64, s: i64, v: i64) -> (c: Rgb)
    requires
        h > i64::MIN,
        -0x4000_0000 <= s <= 0x4000_0000,
        -0x4000_0000 <= v <= 0x4000_0000,
    ensures
        c.r == spec_hsv(h as int, s as int, v as int).0,
        c.g == spec_hsv(h as int, s as int, v as int).1,
        c.b == spec_hsv(h as int, s as int, v as int).2,
{
    let hm = mod_euclid(h, SIX);
    let i = div_trunc(hm, ONE);
    let f = hm - i * ONE;
    proof {
        vstd::arithmetic::div_mod::lemma_fundamental_div_mod(hm as int, ONE as int);
        assert((hm as int) == (ONE as int) * (hm as int / ONE as int) + (hm as int) % (
        ONE as int));
        assert((i as int) * (ONE as int) == (ONE as int) * (hm as int / ONE as int))
            by (nonlinear_arith)
            requires
                i == hm as int / ONE as int,
        ;
        assert(f == (hm as int) % (ONE as int));
        assert(0 <= f < ONE);
        assert(0 <= i < 6) by {
            lemma_div_is_ordered(hm as int, 393215, ONE as int);
            vstd::arithmetic::div_mod::lemma_div_pos_is_pos(hm as int, ONE as int);
        }
    }
    proof {
        assert(-0x2000_0000_0000_0000 <= (v as int) * ((ONE - s) as int) <= 0x2000_0000_0000_0000)
            by (nonlinear_arith)
            requires
                -0x4000_0000 <= v <= 0x4000_0000,
                -0x4001_0000 <= ONE - s <= 0x4001_0000,
        ;
        assert(-0x2000_0000_0000_0000 <= (v as int) * (f as int) <= 0x2000_0000_0000_0000)
            by (nonlinear_arith)
            requires
                -0x4000_0000 <= v <= 0x4000_0000,
                0 <= f <= 65536,
        ;
        assert(-0x2000_0000_0000_0000 <= (v as int) * ((ONE - f) as int) <= 0x2000_0000_0000_0000)
            by (nonlinear_arith)
            requires
                -0x4000_0000 <= v <= 0x4000_0000,
                0 <= ONE - f <= 65536,
        ;
    }
    let p = fx_mul(v, ONE - s);
    let t = fx_mul(v, f);
    let q = fx_mul(v, ONE - f);
    if i == 0 {
        Rgb { r: v, g: t, b: p }
    } else if i == 1 {
        Rgb { r: q, g: v, b: p }
    } else if i == 2 {
        Rgb { r: p, g: v, b: t }
    } else if i == 3 {
        Rgb { r: p, g: q, b: v }
    } else if i == 4 {
        Rgb { r: t, g: p, b: v }
    } else {
        Rgb { r: v, g: p, b: q }
    }
}

/// A fixed-point product with a factor in `[0, ONE]` shrinks toward zero:
/// the workhorse behind the HSV range law.
pub proof fn lemma_fmul_unit(v: int, w: int)
    requires
        0 <= v,
        0 <= w <= ONE,
    ensures
        0 <= fmul(v, w) <= v,
{
    assert(0 <= v * w <= v * ONE) by (nonlinear_arith)
        requires
            0 <= v,
            0 <= w <= ONE,
    ;
    lemma_div_is_ordered(0, v * w, ONE as int);
    lemma_div_is_ordered(v * w, v * ONE, ONE as int);
    lemma_div_by_multiple(v, ONE as int);
}

/// Range law of the color mapper: for saturation and value in `[0, 1]`
/// and any hue, all three components lie in `[0, v]`, hence in `[0, 1]`.
pub proof fn lemma_hsv_in_range(h: int, s: int, v: int)
    requires
        0 <= s <= ONE,
        0 <= v <= ONE,
    ensures
        0 <= spec_hsv(h, s, v).0 <= v,
        0 <= spec_hsv(h, s, v).1 <= v,
        0 <= spec_hsv(h, s, v).2 <= v,
{
    let hm = h % (SIX as int);
    let f = hm % (ONE as int);
    lemma_fmul_unit(v, ONE - s);
    lemma_fmul_unit(v, f);
    lemma_fmul_unit(v, ONE - f);
}

/// Two component triples agree to within `eps` fixed-point units each.
pub open spec fn rgb_close(a: (int, int, int), b: (int, int, int), eps: int) -> bool {
    &&& -eps <= a.0 - b.0 <= eps
    &&& -eps <= a.1 - b.1 <= eps
    &&& -eps <= a.2 - b.2 <= eps
}

/// `fmul(v, ONE)` is exactly `v`, and `fmul(v, ONE - 1)` is within two
/// units of it: the discretized version of `lim f -> 1`.
proof fn lemma_fmul_near_one(v: int)
    requires
        0 <= v <= ONE,
    ensures
        fmul(v, ONE as int) == v,
        v - 2 <= fmul(v, ONE - 1) <= v,
        0 <= fmul(v, 1) <= 1,
{
    lemma_div_by_multiple(v, ONE as int);
    lemma_fmul_unit(v, ONE - 1);
    lemma_fmul_unit(v, 1);
    // Lower side: v * (ONE - 1) = v * ONE - v >= (v - 1) * ONE - ONE + 1
    assert(v * (ONE - 1) >= (v - 2) * ONE + 1) by (nonlinear_arith)
        requires
            0 <= v <= ONE,
            ONE == 65536,
    ;
    vstd::arithmetic::div_mod::lemma_div_is_ordered((v - 2) * ONE + 1, v * (ONE - 1), ONE as int);
    vstd::arithmetic::div_mod::lemma_hoist_over_denominator(1int, v - 2, ONE as nat);
    assert(((v - 2) * ONE + 1) / (ONE as int) == v - 2 + 1int / (ONE as int));
    assert(1int / (ONE as int) == 0) by {
        vstd::arithmetic::div_mod::lemma_basic_div(1int, ONE as int);
    }
    lemma_div_is_ordered(v * (ONE - 1), v * ONE, ONE as int);
    assert(v * (ONE - 1) <= v * ONE) by (nonlinear_arith)
        requires
            0 <= v,
            ONE == 65536,
    ;
}

/// Continuity law of the color mapper at the odd sector boundaries: for
/// any saturation and value in `[0, 1]`, the colors just below and at
/// the hue boundaries 1, 3 and 5 agree to within two fixed-point units
/// per component.  (At the even boundaries the simplified six-sector
/// formula is continuous only at full saturation: see
/// `lemma_hsv_boundary_full_saturation`.)
pub proof fn lemma_hsv_boundary_odd(k: int, s: int, v: int)
    requires
        k == 1 || k == 3 || k == 5,
        0 <= s <= ONE,
        0 <= v <= ONE,
    ensures
        rgb_close(spec_hsv(k * ONE - 1, s, v), spec_hsv(k * ONE, s, v), 2),
{
    lemma_hsv_reduce_small(k * ONE - 1);
    lemma_hsv_reduce_small(k * ONE);
    lemma_fmul_near_one(v);
    lemma_fmul_unit(v, ONE - s);
}

/// Continuity law of the color mapper at every sector boundary when the
/// saturation is exactly 1 (the regime the fractal renderer's palette
/// approaches): the colors just below and at the hue boundaries
/// 1, 2, 3, 4, 5 and 6 (the wrap to 0) agree to within two fixed-point
/// units per component.
pub proof fn lemma_hsv_boundary_full_saturation(k: int, v: int)
    requires
        1 <= k <= 6,
        0 <= v <= ONE,
    ensures
        rgb_close(spec_hsv(k * ONE - 1, ONE as int, v), spec_hsv(k * ONE, ONE as int, v), 2),
{
    lemma_hsv_reduce_small(k * ONE - 1);
    lemma_hsv_reduce_small(k * ONE);
    lemma_fmul_near_one(v);
    assert(fmul(v, ONE - ONE) == 0) by {
        vstd::arithmetic::div_mod::lemma_div_of0(ONE as int);
    }
}

/// Reduction of a hue already inside one period (or exactly at its end,
/// where it wraps to zero).
proof fn lemma_hsv_reduce_small(h: int)
    requires
        0 <= h <= SIX,
    ensures
        h < SIX ==> h % (SIX as int) == h,
        h == SIX ==> h % (SIX as int) == 0,
{
    if h < SIX {
        vstd::arithmetic::div_mod::lemma_small_mod(h as nat, SIX as nat);
    } else {
        vstd::arithmetic::div_mod::lemma_mod_self_0(SIX as int);
    }
}

} // verus!
