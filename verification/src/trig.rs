//! Fixed-point circular functions.
//!
//! Sine is a rational quarter-wave approximation evaluated after Euclidean
//! reduction into one period; the constants are chosen so that the stored
//! values of sin(0), sin(pi/2) and sin(pi) are exactly 0, [`ONE`] and 0.
//! Cosine is the sine shifted by a quarter turn, and the two-argument
//! arctangent reduces to a one-argument rational approximation per octant.

use vstd::prelude::*;

verus! {

use crate::fixed::{ONE, PI, TAU, HALF_PI, sdiv, fmul, div_trunc, mod_euclid, fx_mul};
use vstd::arithmetic::div_mod::lemma_div_is_ordered;
use vstd::arithmetic::div_mod::lemma_div_multiples_vanish;

/// pi/4 in fixed-point units (half of [`HALF_PI`]), used by the
/// arctangent approximation.
pub const QUARTER_PI: i64 = 51472;

/// 0.273 in fixed-point units, the correction coefficient of the
/// arctangent approximation.
pub const ATAN_C: i64 = 17891;

/// The rational quarter-wave sine approximation on `[0, PI]`, scaled by
/// [`ONE`].
pub open spec fn sin_poly(h: int) -> int {
    (16 * h * (PI - h) * ONE) / (5 * PI * PI - 4 * h * (PI - h))
}

/// Fixed-point sine of a fixed-point angle: reduce into `[0, TAU)` and
/// apply the quarter-wave approximation on each half period.
pub open spec fn fsin(x: int) -> int {
    let r = x % (TAU as int);
    if r < PI {
        sin_poly(r)
    } else {
        -sin_poly(r - PI)
    }
}

/// Fixed-point cosine: the sine advanced by a quarter turn.
pub open spec fn fcos(x: int) -> int {
    fsin(x + HALF_PI)
}

/// Executable fixed-point sine.
pub fn sin_fx(x: i64) -> (r: i64)
    requires
        x > i64::MIN,
    ensures
        r == fsin(x as int),
        -ONE <= r <= ONE,
{
    let red = mod_euclid(x, TAU);
    let neg = red >= PI;
    let h = if red >= PI {
        red - PI
    } else {
        red
    };
    proof {
        assert(0 <= h * (PI - h) <= HALF_PI * HALF_PI) by (nonlinear_arith)
            requires
                0 <= h < PI,
                PI == 2 * HALF_PI,
                HALF_PI == 102944,
        ;
    }
    let t = h * (PI - h);
    let num = (16 * t) * ONE;
    let den = 5 * (PI * PI) - 4 * t;
    let q = div_trunc(num, den);
    proof {
        let hi = h as int;
        assert(num == 16 * hi * (PI - hi) * ONE) by (nonlinear_arith)
            requires
                t == hi * (PI - hi),
                num == (16 * (t as int)) * ONE,
        ;
        assert(den == 5 * PI * PI - 4 * hi * (PI - hi)) by (nonlinear_arith)
            requires
                t == hi * (PI - hi),
                den == 5 * ((PI as int) * (PI as int)) - 4 * t,
        ;
        assert(q == sin_poly(hi));
        assert(num <= den * ONE) by (nonlinear_arith)
            requires
                num == (16 * (t as int)) * ONE,
                den == 5 * ((PI as int) * (PI as int)) - 4 * t,
                t <= HALF_PI * HALF_PI,
                PI == 2 * HALF_PI,
                ONE > 0,
        ;
        lemma_div_multiples_vanish(ONE as int, den as int);
        lemma_div_is_ordered(num as int, den * ONE, den as int);
        assert(q <= ONE);
    }
    if neg {
        -q
    } else {
        q
    }
}

/// Executable fixed-point cosine.
pub fn cos_fx(x: i64) -> (r: i64)
    requires
        i64::MIN < x <= i64::MAX - HALF_PI,
    ensures
        r == fcos(x as int),
        -ONE <= r <= ONE,
{
    sin_fx(x + HALF_PI)
}

/// The one-argument arctangent approximation on `[-ONE, ONE]` (that is,
/// on real arguments in `[-1, 1]`), scaled by [`ONE`].
pub open spec fn atan_unit(z: int) -> int {
    fmul(z, QUARTER_PI + fmul(ATAN_C as int, ONE - (if z >= 0 { z } else { -z })))
}

/// Fixed-point two-argument arctangent, by octant reduction to
/// [`atan_unit`]; zero when both arguments are zero.
pub open spec fn fatan2(y: int, x: int) -> int {
    let ax = if x >= 0 { x } else { -x };
    let ay = if y >= 0 { y } else { -y };
    if ax == 0 && ay == 0 {
        0
    } else if ay <= ax {
        let z = if x >= 0 { sdiv(y * ONE, ax) } else { -sdiv(y * ONE, ax) };
        if x >= 0 {
            atan_unit(z)
        } else if y >= 0 {
            PI + atan_unit(z)
        } else {
            -PI + atan_unit(z)
        }
    } else {
        let z = if y >= 0 { sdiv(x * ONE, ay) } else { -sdiv(x * ONE, ay) };
        if y >= 0 {
            HALF_PI - atan_unit(z)
        } else {
            -HALF_PI - atan_unit(z)
        }
    }
}

/// Executable fixed-point two-argument arctangent.
pub fn atan2_fx(y: i64, x: i64) -> (r: i64)
    requires
        -0x2000_0000_0000 < x < 0x2000_0000_0000,
        -0x2000_0000_0000 < y < 0x2000_0000_0000,
    ensures
        r == fatan2(y as int, x as int),
        -(PI + HALF_PI) <= r <= PI + HALF_PI,
{
    let ax = if x >= 0 {
        x
    } else {
        -x
    };
    let ay = if y >= 0 {
        y
    } else {
        -y
    };
    if ax == 0 && ay == 0 {
        return 0;
    }
    if ay <= ax {
        let q = div_trunc(y * ONE, ax);
        proof {
            lemma_div_unit_bound(y as int, ax as int);
        }
        let z = if x >= 0 {
            q
        } else {
            -q
        };
        let a = atan_unit_fx(z);
        if x >= 0 {
            a
        } else if y >= 0 {
            PI + a
        } else {
            -PI + a
        }
    } else {
        let q = div_trunc(x * ONE, ay);
        proof {
            lemma_div_unit_bound(x as int, ay as int);
        }
        let z = if y >= 0 {
            q
        } else {
            -q
        };
        let a = atan_unit_fx(z);
        if y >= 0 {
            HALF_PI - a
        } else {
            -HALF_PI - a
        }
    }
}

/// When the numerator's magnitude is at most the (positive) denominator,
/// the scaled quotient stays within one unit.
proof fn lemma_div_unit_bound(y: int, ax: int)
    requires
        0 < ax,
        -ax <= y <= ax,
    ensures
        -ONE <= sdiv(y * ONE, ax) <= ONE,
{
    lemma_div_multiples_vanish(ONE as int, ax);
    if y >= 0 {
        assert(y * ONE <= ax * ONE) by (nonlinear_arith)
            requires
                0 <= y <= ax,
                ONE > 0,
        ;
        lemma_div_is_ordered(0, y * ONE, ax);
        lemma_div_is_ordered(y * ONE, ax * ONE, ax);
    } else {
        assert((-y) * ONE <= ax * ONE) by (nonlinear_arith)
            requires
                0 <= -y <= ax,
                ONE > 0,
        ;
        assert(-(y * ONE) == (-y) * ONE) by (nonlinear_arith);
        lemma_div_is_ordered(0, (-y) * ONE, ax);
        lemma_div_is_ordered((-y) * ONE, ax * ONE, ax);
    }
}

/// Executable body of [`atan_unit`].
fn atan_unit_fx(z: i64) -> (r: i64)
    requires
        -ONE <= z <= ONE,
    ensures
        r == atan_unit(z as int),
        -HALF_PI <= r <= HALF_PI,
{
    let az = if z >= 0 {
        z
    } else {
        -z
    };
    proof {
        assert(0 <= (ATAN_C as int) * ((ONE - az) as int) <= 1172504576) by (nonlinear_arith)
            requires
                0 <= ONE - az <= ONE,
                ATAN_C == 17891,
                ONE == 65536,
        ;
    }
    let c = fx_mul(ATAN_C, ONE - az);
    proof {
        crate::fixed::lemma_sdiv_bound((ATAN_C as int) * ((ONE - az) as int), ONE as int, 1172504576);
        assert(-17891 <= c <= 17891);
    }
    let inner = QUARTER_PI + c;
    proof {
        assert(-4545773568 <= (z as int) * (inner as int) <= 4545773568) by (nonlinear_arith)
            requires
                -65536 <= z <= 65536,
                -69363 <= inner <= 69363,
        ;
    }
    let r = fx_mul(z, inner);
    proof {
        crate::fixed::lemma_sdiv_bound((z as int) * (inner as int), ONE as int, 4545773568);
        assert(-69363 <= r <= 69363);
    }
    r
}

} // verus!
