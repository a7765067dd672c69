//! The line-series generators: for each animation frame, a fixed set of
//! curves of (x, y) points, each point a closed-form function of the
//! curve index, the point index and the frame, with uniform jitter where
//! the model calls for it.  The jitter draw is existentially quantified
//! in the contracts: everything else about every point is pinned.

use vstd::prelude::*;

verus! {

use crate::fixed::{ONE, HALF, PI, TAU, sdiv, fmul, div_trunc, fx_mul, fx_sqrt, fsqrt, lemma_sdiv_bound, lemma_fmul_bound, lemma_fmul_contract};
use crate::trig::{fsin, fcos, sin_fx, cos_fx};
use crate::explog::{fexp, flog10, exp_fx, log10_fx};
use crate::coords::{linspace_at, sample_at};
use crate::shapes::Point2D;
use crate::rng::RandomSource;
use vstd::arithmetic::div_mod::{lemma_div_is_ordered, lemma_div_is_ordered_by_denominator, lemma_div_by_multiple};

/// Ten half-turns: the abscissa range of the basic line chart.
pub const TEN_PI: i64 = 10 * PI;

/// Four half-turns.
pub const FOUR_PI: i64 = 4 * PI;

/// Six half-turns.
pub const SIX_PI: i64 = 6 * PI;

/// Three half-turns.
pub const THREE_PI: i64 = 3 * PI;

/// 4 / pi in fixed-point units: the square wave's Fourier coefficient.
pub const FOUR_OVER_PI: i64 = 83443;

// ------------------------------------------------------------------
// Basic line chart: a cosine modulated by the cosine of the decimal
// logarithm, with jitter shrinking as the animation advances.

/// Ordinate of the basic line chart before jitter.
pub open spec fn lines_base(f: int, i: int, v: int) -> int {
    fmul(fcos(v + i * ONE + sdiv(f * ONE, 50)), fcos(flog10(v)))
}

/// A point of the basic line chart: exact abscissa; the ordinate is the
/// base value plus a uniform jitter draw scaled down by the frame
/// clock, so it lands in a pinned half-open band above the base.
pub open spec fn lines_point_ok(p: Point2D, f: int, nf: int, i: int, j: int, n: int) -> bool {
    let v = linspace_at(n, 0, TEN_PI as int, j);
    let base = lines_base(f, i, v);
    let den = sdiv(f * ONE, 20) + 6554;
    &&& p.x == v
    &&& base <= p.y <= base + sdiv((ONE - 1) * (ONE as int), den)
}

/// One basic-chart point.
fn generate_lines_point(rng: &mut RandomSource, f: usize, nf: usize, i: usize, j: usize, n: usize)
    -> (p: Point2D)
    requires
        f < nf <= 100000,
        i < 2,
        j < n,
        2 <= n <= 0x10_0000,
    ensures
        lines_point_ok(p, f as int, nf as int, i as int, j as int, n as int),
{
    let v = sample_at(n, 0, TEN_PI, j);
    let c1 = cos_fx(v + (i as i64) * ONE + div_trunc((f as i64) * ONE, 50));
    let c2 = cos_fx(log10_fx(v));
    proof {
        lemma_fmul_bound(c1 as int, c2 as int, ONE as int, ONE as int);
    }
    let base = fx_mul(c1, c2);
    let u = rng.next_unit();
    let den = div_trunc((f as i64) * ONE, 20) + 6554;
    let jit = div_trunc(u * ONE, den);
    proof {
        lemma_div_is_ordered((u as int) * (ONE as int), (ONE as int - 1) * (ONE as int),
            den as int);
        assert((u as int) * (ONE as int) <= (ONE as int - 1) * (ONE as int)) by (nonlinear_arith)
            requires
                0 <= u <= ONE - 1,
                ONE == 65536,
        ;
        assert(0 <= (u as int) * (ONE as int)) by (nonlinear_arith)
            requires
                0 <= u,
        ;
        lemma_div_is_ordered(0, (u as int) * (ONE as int), den as int);
    }
    let y = base + jit;
    Point2D { x: v, y }
}

/// The `generate_lines` animation: `num_frames` frames of 2 curves of
/// `num_points` points each, every point pinned to its formula.
pub fn generate_lines(rng: &mut RandomSource, num_frames: usize, num_points: usize) -> (frames: Vec<
    Vec<Vec<Point2D>>,
>)
    requires
        1 <= num_frames <= 100000,
        2 <= num_points <= 0x10_0000,
    ensures
        frames@.len() == num_frames,
        forall|f: int| 0 <= f < num_frames ==> (#[trigger] frames@[f])@.len() == 2,
        forall|f: int, i: int|
            #![trigger frames@[f]@[i]]
            0 <= f < num_frames && 0 <= i < 2 ==> frames@[f]@[i]@.len() == num_points,
        forall|f: int, i: int, j: int|
            #![trigger frames@[f]@[i]@[j]]
            0 <= f < num_frames && 0 <= i < 2 && 0 <= j < num_points ==> lines_point_ok(
                frames@[f]@[i]@[j],
                f,
                num_frames as int,
                i,
                j,
                num_points as int,
            ),
{
    let mut frames: Vec<Vec<Vec<Point2D>>> = Vec::new();
    let mut f: usize = 0;
    while f < num_frames
        invariant
            1 <= num_frames <= 100000,
            2 <= num_points <= 0x10_0000,
            0 <= f <= num_frames,
            frames@.len() == f,
            forall|g: int| 0 <= g < f ==> (#[trigger] frames@[g])@.len() == 2,
            forall|g: int, i: int|
                #![trigger frames@[g]@[i]]
                0 <= g < f && 0 <= i < 2 ==> frames@[g]@[i]@.len() == num_points,
            forall|g: int, i: int, j: int|
                #![trigger frames@[g]@[i]@[j]]
                0 <= g < f && 0 <= i < 2 && 0 <= j < num_points ==> lines_point_ok(
                    frames@[g]@[i]@[j],
                    g,
                    num_frames as int,
                    i,
                    j,
                    num_points as int,
                ),
        decreases num_frames - f,
    {
        let mut curves: Vec<Vec<Point2D>> = Vec::new();
        let mut i: usize = 0;
        while i < 2
            invariant
                1 <= num_frames <= 100000,
                2 <= num_points <= 0x10_0000,
                f < num_frames,
                0 <= i <= 2,
                curves@.len() == i,
                forall|a: int|
                    #![trigger curves@[a]]
                    0 <= a < i ==> curves@[a]@.len() == num_points,
                forall|a: int, j: int|
                    #![trigger curves@[a]@[j]]
                    0 <= a < i && 0 <= j < num_points ==> lines_point_ok(
                        curves@[a]@[j],
                        f as int,
                        num_frames as int,
                        a,
                        j,
                        num_points as int,
                    ),
            decreases 2 - i,
        {
            let mut pts: Vec<Point2D> = Vec::new();
            let mut j: usize = 0;
            while j < num_points
                invariant
                    1 <= num_frames <= 100000,
                    2 <= num_points <= 0x10_0000,
                    f < num_frames,
                    i < 2,
                    0 <= j <= num_points,
                    pts@.len() == j,
                    forall|b: int|
                        #![trigger pts@[b]]
                        0 <= b < j ==> lines_point_ok(
                            pts@[b],
                            f as int,
                            num_frames as int,
                            i as int,
                            b,
                            num_points as int,
                        ),
                decreases num_points - j,
            {
                let p = generate_lines_point(rng, f, num_frames, i, j, num_points);
                pts.push(p);
                j = j + 1;
            }
            curves.push(pts);
            i = i + 1;
        }
        frames.push(curves);
        f = f + 1;
    }
    frames
}

// ------------------------------------------------------------------
// Damped oscillations, the damping growing over the animation.

/// Ordinate of the damped oscillation.
pub open spec fn damped_y(f: int, nf: int, i: int, t: int) -> int {
    let amp = (ONE as int) + i * HALF;
    let omega = (i + 1) * TAU;
    let gamma = 6554 + sdiv(f * HALF, nf);
    fmul(fmul(amp, fexp(-fmul(gamma, t))), fcos(fmul(omega, t)))
}

/// A point of the damped oscillation: exact, no jitter.
pub open spec fn damped_point_ok(p: Point2D, f: int, nf: int, i: int, j: int, n: int) -> bool {
    let t = sdiv(j * 655360, n);
    p == (Point2D { x: t as i64, y: damped_y(f, nf, i, t) as i64 })
}

/// One damped-oscillation point.
fn generate_damped_oscillations_point(f: usize, nf: usize, i: usize, j: usize, n: usize) -> (p:
    Point2D)
    requires
        f < nf <= 100000,
        i < 2,
        j < n,
        2 <= n <= 0x10_0000,
    ensures
        damped_point_ok(p, f as int, nf as int, i as int, j as int, n as int),
{
    proof {
        assert(0 <= (j as int) * 655360 <= (n as int) * 655360) by (nonlinear_arith)
            requires
                0 <= j < n,
        ;
    }
    let t = div_trunc((j as i64) * 655360, n as i64);
    proof {
        lemma_div_is_ordered((j as int) * 655360, (n as int) * 655360, n as int);
        lemma_div_by_multiple(655360, n as int);
        assert((n as int) * 655360 == 655360 * (n as int)) by (nonlinear_arith);
        assert(0 <= t <= 655360);
    }
    let amp = ONE + (i as i64) * HALF;
    let omega = ((i as i64) + 1) * TAU;
    proof {
        assert(0 <= (f as int) * (HALF as int) <= (nf as int) * (HALF as int)) by (nonlinear_arith)
            requires
                0 <= f < nf,
                HALF == 32768,
        ;
    }
    let gamma = 6554 + div_trunc((f as i64) * HALF, nf as i64);
    proof {
        lemma_div_is_ordered((f as int) * (HALF as int), (nf as int) * (HALF as int), nf as int);
        lemma_div_by_multiple(HALF as int, nf as int);
        assert((nf as int) * (HALF as int) == (HALF as int) * (nf as int)) by (nonlinear_arith);
        assert(6554 <= gamma <= 39322);
        lemma_fmul_bound(gamma as int, t as int, 39322, 0x8000_0000);
        assert(0 <= (gamma as int) * (t as int)) by (nonlinear_arith)
            requires
                0 <= gamma,
                0 <= t,
        ;
        lemma_div_is_ordered(0, (gamma as int) * (t as int), ONE as int);
    }
    let decay = exp_fx(-fx_mul(gamma, t));
    proof {
        lemma_fmul_bound(amp as int, decay as int, 2 * (ONE as int), ONE as int);
        lemma_fmul_bound(omega as int, t as int, 2 * (TAU as int), 0x8000_0000);
    }
    let head = fx_mul(amp, decay);
    let c = cos_fx(fx_mul(omega, t));
    proof {
        lemma_fmul_bound(head as int, c as int, 2 * (ONE as int), ONE as int);
    }
    let y = fx_mul(head, c);
    Point2D { x: t, y }
}

/// The `generate_damped_oscillations` animation: `num_frames` frames of 2 curves of
/// `num_points` points each, every point pinned to its formula.
pub fn generate_damped_oscillations(num_frames: usize, num_points: usize) -> (frames: Vec<
    Vec<Vec<Point2D>>,
>)
    requires
        1 <= num_frames <= 100000,
        2 <= num_points <= 0x10_0000,
    ensures
        frames@.len() == num_frames,
        forall|f: int| 0 <= f < num_frames ==> (#[trigger] frames@[f])@.len() == 2,
        forall|f: int, i: int|
            #![trigger frames@[f]@[i]]
            0 <= f < num_frames && 0 <= i < 2 ==> frames@[f]@[i]@.len() == num_points,
        forall|f: int, i: int, j: int|
            #![trigger frames@[f]@[i]@[j]]
            0 <= f < num_frames && 0 <= i < 2 && 0 <= j < num_points ==> damped_point_ok(
                frames@[f]@[i]@[j],
                f,
                num_frames as int,
                i,
                j,
                num_points as int,
            ),
{
    let mut frames: Vec<Vec<Vec<Point2D>>> = Vec::new();
    let mut f: usize = 0;
    while f < num_frames
        invariant
            1 <= num_frames <= 100000,
            2 <= num_points <= 0x10_0000,
            0 <= f <= num_frames,
            frames@.len() == f,
            forall|g: int| 0 <= g < f ==> (#[trigger] frames@[g])@.len() == 2,
            forall|g: int, i: int|
                #![trigger frames@[g]@[i]]
                0 <= g < f && 0 <= i < 2 ==> frames@[g]@[i]@.len() == num_points,
            forall|g: int, i: int, j: int|
                #![trigger frames@[g]@[i]@[j]]
                0 <= g < f && 0 <= i < 2 && 0 <= j < num_points ==> damped_point_ok(
                    frames@[g]@[i]@[j],
                    g,
                    num_frames as int,
                    i,
                    j,
                    num_points as int,
                ),
        decreases num_frames - f,
    {
        let mut curves: Vec<Vec<Point2D>> = Vec::new();
        let mut i: usize = 0;
        while i < 2
            invariant
                1 <= num_frames <= 100000,
                2 <= num_points <= 0x10_0000,
                f < num_frames,
                0 <= i <= 2,
                curves@.len() == i,
                forall|a: int|
                    #![trigger curves@[a]]
                    0 <= a < i ==> curves@[a]@.len() == num_points,
                forall|a: int, j: int|
                    #![trigger curves@[a]@[j]]
                    0 <= a < i && 0 <= j < num_points ==> damped_point_ok(
                        curves@[a]@[j],
                        f as int,
                        num_frames as int,
                        a,
                        j,
                        num_points as int,
                    ),
            decreases 2 - i,
        {
            let mut pts: Vec<Point2D> = Vec::new();
            let mut j: usize = 0;
            while j < num_points
                invariant
                    1 <= num_frames <= 100000,
                    2 <= num_points <= 0x10_0000,
                    f < num_frames,
                    i < 2,
                    0 <= j <= num_points,
                    pts@.len() == j,
                    forall|b: int|
                        #![trigger pts@[b]]
                        0 <= b < j ==> damped_point_ok(
                            pts@[b],
                            f as int,
                            num_frames as int,
                            i as int,
                            b,
                            num_points as int,
                        ),
                decreases num_points - j,
            {
                let p = generate_damped_oscillations_point(f, num_frames, i, j, num_points);
                pts.push(p);
                j = j + 1;
            }
            curves.push(pts);
            i = i + 1;
        }
        frames.push(curves);
        f = f + 1;
    }
    frames
}

// ------------------------------------------------------------------
// Fourier square-wave approximation, odd harmonics only.

/// A point of the square-wave approximation: exact, no jitter, and the
/// same in every frame.
pub open spec fn fourier_point_ok(p: Point2D, f: int, nf: int, i: int, j: int, n: int) -> bool {
    let t = sdiv(j * (TAU as int), n);
    let harm = 2 * i + 1;
    p == (Point2D {
        x: t as i64,
        y: fmul(sdiv(FOUR_OVER_PI as int, harm), fsin(harm * t)) as i64,
    })
}

/// One square-wave point.
fn generate_fourier_square_wave_point(f: usize, nf: usize, i: usize, j: usize, n: usize) -> (p:
    Point2D)
    requires
        f < nf <= 100000,
        i < 2,
        j < n,
        2 <= n <= 0x10_0000,
    ensures
        fourier_point_ok(p, f as int, nf as int, i as int, j as int, n as int),
{
    proof {
        assert(0 <= (j as int) * (TAU as int) <= (n as int) * (TAU as int)) by (nonlinear_arith)
            requires
                0 <= j < n,
                TAU == 411776,
        ;
    }
    let t = div_trunc((j as i64) * TAU, n as i64);
    let harm = 2 * (i as i64) + 1;
    let coef = div_trunc(FOUR_OVER_PI, harm);
    proof {
        lemma_div_is_ordered((j as int) * (TAU as int), (n as int) * (TAU as int), n as int);
        lemma_div_by_multiple(TAU as int, n as int);
        assert((n as int) * (TAU as int) == (TAU as int) * (n as int)) by (nonlinear_arith);
        assert(0 <= t <= TAU);
        assert(0 <= harm * (t as int) <= 3 * (TAU as int)) by (nonlinear_arith)
            requires
                1 <= harm <= 3,
                0 <= t <= TAU,
        ;
    }
    let s = sin_fx(harm * t);
    proof {
        lemma_fmul_bound(coef as int, s as int, FOUR_OVER_PI as int, ONE as int);
    }
    let y = fx_mul(coef, s);
    Point2D { x: t, y }
}

/// The `generate_fourier_square_wave` animation: `num_frames` frames of 2 curves of
/// `num_points` points each, every point pinned to its formula.
pub fn generate_fourier_square_wave(num_frames: usize, num_points: usize) -> (frames: Vec<
    Vec<Vec<Point2D>>,
>)
    requires
        1 <= num_frames <= 100000,
        2 <= num_points <= 0x10_0000,
    ensures
        frames@.len() == num_frames,
        forall|f: int| 0 <= f < num_frames ==> (#[trigger] frames@[f])@.len() == 2,
        forall|f: int, i: int|
            #![trigger frames@[f]@[i]]
            0 <= f < num_frames && 0 <= i < 2 ==> frames@[f]@[i]@.len() == num_points,
        forall|f: int, i: int, j: int|
            #![trigger frames@[f]@[i]@[j]]
            0 <= f < num_frames && 0 <= i < 2 && 0 <= j < num_points ==> fourier_point_ok(
                frames@[f]@[i]@[j],
                f,
                num_frames as int,
                i,
                j,
                num_points as int,
            ),
{
    let mut frames: Vec<Vec<Vec<Point2D>>> = Vec::new();
    let mut f: usize = 0;
    while f < num_frames
        invariant
            1 <= num_frames <= 100000,
            2 <= num_points <= 0x10_0000,
            0 <= f <= num_frames,
            frames@.len() == f,
            forall|g: int| 0 <= g < f ==> (#[trigger] frames@[g])@.len() == 2,
            forall|g: int, i: int|
                #![trigger frames@[g]@[i]]
                0 <= g < f && 0 <= i < 2 ==> frames@[g]@[i]@.len() == num_points,
            forall|g: int, i: int, j: int|
                #![trigger frames@[g]@[i]@[j]]
                0 <= g < f && 0 <= i < 2 && 0 <= j < num_points ==> fourier_point_ok(
                    frames@[g]@[i]@[j],
                    g,
                    num_frames as int,
                    i,
                    j,
                    num_points as int,
                ),
        decreases num_frames - f,
    {
        let mut curves: Vec<Vec<Point2D>> = Vec::new();
        let mut i: usize = 0;
        while i < 2
            invariant
                1 <= num_frames <= 100000,
                2 <= num_points <= 0x10_0000,
                f < num_frames,
                0 <= i <= 2,
                curves@.len() == i,
                forall|a: int|
                    #![trigger curves@[a]]
                    0 <= a < i ==> curves@[a]@.len() == num_points,
                forall|a: int, j: int|
                    #![trigger curves@[a]@[j]]
                    0 <= a < i && 0 <= j < num_points ==> fourier_point_ok(
                        curves@[a]@[j],
                        f as int,
                        num_frames as int,
                        a,
                        j,
                        num_points as int,
                    ),
            decreases 2 - i,
        {
            let mut pts: Vec<Point2D> = Vec::new();
            let mut j: usize = 0;
            while j < num_points
                invariant
                    1 <= num_frames <= 100000,
                    2 <= num_points <= 0x10_0000,
                    f < num_frames,
                    i < 2,
                    0 <= j <= num_points,
                    pts@.len() == j,
                    forall|b: int|
                        #![trigger pts@[b]]
                        0 <= b < j ==> fourier_point_ok(
                            pts@[b],
                            f as int,
                            num_frames as int,
                            i as int,
                            b,
                            num_points as int,
                        ),
                decreases num_points - j,
            {
                let p = generate_fourier_square_wave_point(f, num_frames, i, j, num_points);
                pts.push(p);
                j = j + 1;
            }
            curves.push(pts);
            i = i + 1;
        }
        frames.push(curves);
        f = f + 1;
    }
    frames
}

// ------------------------------------------------------------------
// Sine and cosine waves with drifting frequency and amplitude; the
// second curve carries additive jitter.

/// Ordinate of the drifting sine wave before jitter.
pub open spec fn sine_cosine_base(f: int, nf: int, i: int, x: int) -> int {
    let freq = (ONE as int) + sdiv(f * 327680, nf) + i * ONE;
    let amp = (ONE as int) + i * HALF;
    fmul(amp, fsin(fmul(freq, x) + sdiv(f * (PI as int), nf)))
}

/// A point of the drifting waves: the first curve exact, the second
/// within the jitter band.
pub open spec fn sine_cosine_point_ok(p: Point2D, f: int, nf: int, i: int, j: int, n: int) -> bool {
    let x = sdiv(j * (FOUR_PI as int), n);
    let base = sine_cosine_base(f, nf, i, x);
    &&& p.x == x
    &&& i == 0 ==> p.y == base
    &&& i == 1 ==> base - 6554 <= p.y <= base + 6553
}

/// One drifting-wave point.
fn generate_sine_cosine_waves_point(
    rng: &mut RandomSource,
    f: usize,
    nf: usize,
    i: usize,
    j: usize,
    n: usize,
) -> (p: Point2D)
    requires
        f < nf <= 100000,
        i < 2,
        j < n,
        2 <= n <= 0x10_0000,
    ensures
        sine_cosine_point_ok(p, f as int, nf as int, i as int, j as int, n as int),
{
    proof {
        assert(0 <= (j as int) * (FOUR_PI as int) <= (n as int) * (FOUR_PI as int))
            by (nonlinear_arith)
            requires
                0 <= j < n,
                FOUR_PI == 823552,
        ;
        assert(0 <= (f as int) * 327680 <= (nf as int) * 327680) by (nonlinear_arith)
            requires
                0 <= f < nf,
        ;
        assert(0 <= (f as int) * (PI as int) <= (nf as int) * (PI as int)) by (nonlinear_arith)
            requires
                0 <= f < nf,
                PI == 205888,
        ;
    }
    let x = div_trunc((j as i64) * FOUR_PI, n as i64);
    let freq = ONE + div_trunc((f as i64) * 327680, nf as i64) + (i as i64) * ONE;
    let amp = ONE + (i as i64) * HALF;
    let phsh = div_trunc((f as i64) * PI, nf as i64);
    proof {
        lemma_div_is_ordered((j as int) * (FOUR_PI as int), (n as int) * (FOUR_PI as int),
            n as int);
        lemma_div_by_multiple(FOUR_PI as int, n as int);
        assert((n as int) * (FOUR_PI as int) == (FOUR_PI as int) * (n as int)) by (nonlinear_arith);
        lemma_div_is_ordered((f as int) * 327680, (nf as int) * 327680, nf as int);
        lemma_div_by_multiple(327680, nf as int);
        assert((nf as int) * 327680 == 327680 * (nf as int)) by (nonlinear_arith);
        assert(ONE <= freq <= 7 * (ONE as int));
        lemma_fmul_bound(freq as int, x as int, 7 * (ONE as int), FOUR_PI as int);
    }
    let s = sin_fx(fx_mul(freq, x) + phsh);
    proof {
        lemma_fmul_bound(amp as int, s as int, 2 * (ONE as int), ONE as int);
    }
    let base = fx_mul(amp, s);
    if i == 1 {
        let u = rng.next_in(-6554, 6554);
        Point2D { x, y: base + u }
    } else {
        Point2D { x, y: base }
    }
}

/// The `generate_sine_cosine_waves` animation: `num_frames` frames of 2 curves of
/// `num_points` points each, every point pinned to its formula.
pub fn generate_sine_cosine_waves(rng: &mut RandomSource, num_frames: usize, num_points: usize) -> (frames: Vec<
    Vec<Vec<Point2D>>,
>)
    requires
        1 <= num_frames <= 100000,
        2 <= num_points <= 0x10_0000,
    ensures
        frames@.len() == num_frames,
        forall|f: int| 0 <= f < num_frames ==> (#[trigger] frames@[f])@.len() == 2,
        forall|f: int, i: int|
            #![trigger frames@[f]@[i]]
            0 <= f < num_frames && 0 <= i < 2 ==> frames@[f]@[i]@.len() == num_points,
        forall|f: int, i: int, j: int|
            #![trigger frames@[f]@[i]@[j]]
            0 <= f < num_frames && 0 <= i < 2 && 0 <= j < num_points ==> sine_cosine_point_ok(
                frames@[f]@[i]@[j],
                f,
                num_frames as int,
                i,
                j,
                num_points as int,
            ),
{
    let mut frames: Vec<Vec<Vec<Point2D>>> = Vec::new();
    let mut f: usize = 0;
    while f < num_frames
        invariant
            1 <= num_frames <= 100000,
            2 <= num_points <= 0x10_0000,
            0 <= f <= num_frames,
            frames@.len() == f,
            forall|g: int| 0 <= g < f ==> (#[trigger] frames@[g])@.len() == 2,
            forall|g: int, i: int|
                #![trigger frames@[g]@[i]]
                0 <= g < f && 0 <= i < 2 ==> frames@[g]@[i]@.len() == num_points,
            forall|g: int, i: int, j: int|
                #![trigger frames@[g]@[i]@[j]]
                0 <= g < f && 0 <= i < 2 && 0 <= j < num_points ==> sine_cosine_point_ok(
                    frames@[g]@[i]@[j],
                    g,
                    num_frames as int,
                    i,
                    j,
                    num_points as int,
                ),
        decreases num_frames - f,
    {
        let mut curves: Vec<Vec<Point2D>> = Vec::new();
        let mut i: usize = 0;
        while i < 2
            invariant
                1 <= num_frames <= 100000,
                2 <= num_points <= 0x10_0000,
                f < num_frames,
                0 <= i <= 2,
                curves@.len() == i,
                forall|a: int|
                    #![trigger curves@[a]]
                    0 <= a < i ==> curves@[a]@.len() == num_points,
                forall|a: int, j: int|
                    #![trigger curves@[a]@[j]]
                    0 <= a < i && 0 <= j < num_points ==> sine_cosine_point_ok(
                        curves@[a]@[j],
                        f as int,
                        num_frames as int,
                        a,
                        j,
                        num_points as int,
                    ),
            decreases 2 - i,
        {
            let mut pts: Vec<Point2D> = Vec::new();
            let mut j: usize = 0;
            while j < num_points
                invariant
                    1 <= num_frames <= 100000,
                    2 <= num_points <= 0x10_0000,
                    f < num_frames,
                    i < 2,
                    0 <= j <= num_points,
                    pts@.len() == j,
                    forall|b: int|
                        #![trigger pts@[b]]
                        0 <= b < j ==> sine_cosine_point_ok(
                            pts@[b],
                            f as int,
                            num_frames as int,
                            i as int,
                            b,
                            num_points as int,
                        ),
                decreases num_points - j,
            {
                let p = generate_sine_cosine_waves_point(rng, f, num_frames, i, j, num_points);
                pts.push(p);
                j = j + 1;
            }
            curves.push(pts);
            i = i + 1;
        }
        frames.push(curves);
        f = f + 1;
    }
    frames
}

// ------------------------------------------------------------------
// Spiral waves: a square-root spiral rotating over the animation, the
// ordinate carrying a small jitter.

/// The spiral point before jitter: an angle and a radius.
pub open spec fn spiral_base(f: int, i: int, v: int) -> (int, int) {
    let angle = v + sdiv(f * ONE, 50);
    let radius = fsqrt(v) + i * HALF;
    (fmul(fcos(angle), radius), fmul(fsin(angle), radius))
}

/// A point of the spiral waves: exact abscissa, ordinate in the jitter
/// band.
pub open spec fn spiral_point_ok(p: Point2D, f: int, nf: int, i: int, j: int, n: int) -> bool {
    let v = linspace_at(n, 0, SIX_PI as int, j);
    let b = spiral_base(f, i, v);
    &&& p.x == b.0
    &&& b.1 <= p.y <= b.1 + 6553
}

/// One spiral point.
fn generate_spiral_waves_point(
    rng: &mut RandomSource,
    f: usize,
    nf: usize,
    i: usize,
    j: usize,
    n: usize,
) -> (p: Point2D)
    requires
        f < nf <= 100000,
        i < 2,
        j < n,
        2 <= n <= 0x10_0000,
    ensures
        spiral_point_ok(p, f as int, nf as int, i as int, j as int, n as int),
{
    let v = sample_at(n, 0, SIX_PI, j);
    let angle = v + div_trunc((f as i64) * ONE, 50);
    let radius = fx_sqrt(v) + (i as i64) * HALF;
    let c = cos_fx(angle);
    let s = sin_fx(angle);
    proof {
        lemma_fmul_bound(c as int, radius as int, ONE as int, 0x8000_0000 + HALF as int);
        lemma_fmul_bound(s as int, radius as int, ONE as int, 0x8000_0000 + HALF as int);
    }
    let x = fx_mul(c, radius);
    let y0 = fx_mul(s, radius);
    let u = rng.next_in(0, 6554);
    Point2D { x, y: y0 + u }
}

/// The `generate_spiral_waves` animation: `num_frames` frames of 2 curves of
/// `num_points` points each, every point pinned to its formula.
pub fn generate_spiral_waves(rng: &mut RandomSource, num_frames: usize, num_points: usize) -> (frames: Vec<
    Vec<Vec<Point2D>>,
>)
    requires
        1 <= num_frames <= 100000,
        2 <= num_points <= 0x10_0000,
    ensures
        frames@.len() == num_frames,
        forall|f: int| 0 <= f < num_frames ==> (#[trigger] frames@[f])@.len() == 2,
        forall|f: int, i: int|
            #![trigger frames@[f]@[i]]
            0 <= f < num_frames && 0 <= i < 2 ==> frames@[f]@[i]@.len() == num_points,
        forall|f: int, i: int, j: int|
            #![trigger frames@[f]@[i]@[j]]
            0 <= f < num_frames && 0 <= i < 2 && 0 <= j < num_points ==> spiral_point_ok(
                frames@[f]@[i]@[j],
                f,
                num_frames as int,
                i,
                j,
                num_points as int,
            ),
{
    let mut frames: Vec<Vec<Vec<Point2D>>> = Vec::new();
    let mut f: usize = 0;
    while f < num_frames
        invariant
            1 <= num_frames <= 100000,
            2 <= num_points <= 0x10_0000,
            0 <= f <= num_frames,
            frames@.len() == f,
            forall|g: int| 0 <= g < f ==> (#[trigger] frames@[g])@.len() == 2,
            forall|g: int, i: int|
                #![trigger frames@[g]@[i]]
                0 <= g < f && 0 <= i < 2 ==> frames@[g]@[i]@.len() == num_points,
            forall|g: int, i: int, j: int|
                #![trigger frames@[g]@[i]@[j]]
                0 <= g < f && 0 <= i < 2 && 0 <= j < num_points ==> spiral_point_ok(
                    frames@[g]@[i]@[j],
                    g,
                    num_frames as int,
                    i,
                    j,
                    num_points as int,
                ),
        decreases num_frames - f,
    {
        let mut curves: Vec<Vec<Point2D>> = Vec::new();
        let mut i: usize = 0;
        while i < 2
            invariant
                1 <= num_frames <= 100000,
                2 <= num_points <= 0x10_0000,
                f < num_frames,
                0 <= i <= 2,
                curves@.len() == i,
                forall|a: int|
                    #![trigger curves@[a]]
                    0 <= a < i ==> curves@[a]@.len() == num_points,
                forall|a: int, j: int|
                    #![trigger curves@[a]@[j]]
                    0 <= a < i && 0 <= j < num_points ==> spiral_point_ok(
                        curves@[a]@[j],
                        f as int,
                        num_frames as int,
                        a,
                        j,
                        num_points as int,
                    ),
            decreases 2 - i,
        {
            let mut pts: Vec<Point2D> = Vec::new();
            let mut j: usize = 0;
            while j < num_points
                invariant
                    1 <= num_frames <= 100000,
                    2 <= num_points <= 0x10_0000,
                    f < num_frames,
                    i < 2,
                    0 <= j <= num_points,
                    pts@.len() == j,
                    forall|b: int|
                        #![trigger pts@[b]]
                        0 <= b < j ==> spiral_point_ok(
                            pts@[b],
                            f as int,
                            num_frames as int,
                            i as int,
                            b,
                            num_points as int,
                        ),
                decreases num_points - j,
            {
                let p = generate_spiral_waves_point(rng, f, num_frames, i, j, num_points);
                pts.push(p);
                j = j + 1;
            }
            curves.push(pts);
            i = i + 1;
        }
        frames.push(curves);
        f = f + 1;
    }
    frames
}

// ------------------------------------------------------------------
// Harmonic interference: two related harmonics per curve plus a whisper
// of jitter.

/// Ordinate of the harmonic pattern before jitter.
pub open spec fn harmonic_base(f: int, i: int, v: int) -> int {
    let t = sdiv(f * ONE, 20);
    let freq = (ONE as int) + i * HALF;
    let amp = sdiv((ONE as int) * (ONE as int), freq + ONE);
    let phase = fmul(t, freq);
    fmul(amp, fsin(fmul(v, freq) + phase)) + fmul(sdiv(amp, 2), fcos(fmul(v, 2 * freq) - phase))
}

/// A point of the harmonic pattern: exact abscissa, ordinate in the
/// jitter band.
pub open spec fn harmonic_point_ok(p: Point2D, f: int, nf: int, i: int, j: int, n: int) -> bool {
    let v = linspace_at(n, -(PI as int), PI as int, j);
    let base = harmonic_base(f, i, v);
    &&& p.x == v
    &&& base <= p.y <= base + 654
}

/// One harmonic point.
fn generate_harmonic_waves_point(
    rng: &mut RandomSource,
    f: usize,
    nf: usize,
    i: usize,
    j: usize,
    n: usize,
) -> (p: Point2D)
    requires
        f < nf <= 100000,
        i < 3,
        j < n,
        2 <= n <= 0x10_0000,
    ensures
        harmonic_point_ok(p, f as int, nf as int, i as int, j as int, n as int),
{
    let v = sample_at(n, -PI, PI, j);
    let t = div_trunc((f as i64) * ONE, 20);
    let freq = ONE + (i as i64) * HALF;
    let amp = div_trunc(ONE * ONE, freq + ONE);
    proof {
        lemma_sdiv_bound((ONE as int) * (ONE as int), (freq + ONE) as int, 4294967296);
        lemma_div_is_ordered_by_denominator(4294967296, ONE as int, (freq + ONE) as int);
        assert(0 <= amp <= ONE);
        lemma_fmul_bound(t as int, freq as int, 0x8000_0000, 2 * (ONE as int));
        lemma_fmul_bound(v as int, freq as int, PI as int, 2 * (ONE as int));
        lemma_fmul_bound(v as int, (2 * freq) as int, PI as int, 4 * (ONE as int));
    }
    let phase = fx_mul(t, freq);
    let s1 = sin_fx(fx_mul(v, freq) + phase);
    let c1 = cos_fx(fx_mul(v, 2 * freq) - phase);
    proof {
        lemma_fmul_bound(amp as int, s1 as int, ONE as int, ONE as int);
        lemma_sdiv_bound(amp as int, 2, ONE as int);
        lemma_fmul_bound(sdiv(amp as int, 2), c1 as int, ONE as int, ONE as int);
    }
    let y0 = fx_mul(amp, s1) + fx_mul(div_trunc(amp, 2), c1);
    let u = rng.next_in(0, 655);
    Point2D { x: v, y: y0 + u }
}

/// The `generate_harmonic_waves` animation: `num_frames` frames of 3 curves of
/// `num_points` points each, every point pinned to its formula.
pub fn generate_harmonic_waves(rng: &mut RandomSource, num_frames: usize, num_points: usize) -> (frames: Vec<
    Vec<Vec<Point2D>>,
>)
    requires
        1 <= num_frames <= 100000,
        2 <= num_points <= 0x10_0000,
    ensures
        frames@.len() == num_frames,
        forall|f: int| 0 <= f < num_frames ==> (#[trigger] frames@[f])@.len() == 3,
        forall|f: int, i: int|
            #![trigger frames@[f]@[i]]
            0 <= f < num_frames && 0 <= i < 3 ==> frames@[f]@[i]@.len() == num_points,
        forall|f: int, i: int, j: int|
            #![trigger frames@[f]@[i]@[j]]
            0 <= f < num_frames && 0 <= i < 3 && 0 <= j < num_points ==> harmonic_point_ok(
                frames@[f]@[i]@[j],
                f,
                num_frames as int,
                i,
                j,
                num_points as int,
            ),
{
    let mut frames: Vec<Vec<Vec<Point2D>>> = Vec::new();
    let mut f: usize = 0;
    while f < num_frames
        invariant
            1 <= num_frames <= 100000,
            2 <= num_points <= 0x10_0000,
            0 <= f <= num_frames,
            frames@.len() == f,
            forall|g: int| 0 <= g < f ==> (#[trigger] frames@[g])@.len() == 3,
            forall|g: int, i: int|
                #![trigger frames@[g]@[i]]
                0 <= g < f && 0 <= i < 3 ==> frames@[g]@[i]@.len() == num_points,
            forall|g: int, i: int, j: int|
                #![trigger frames@[g]@[i]@[j]]
                0 <= g < f && 0 <= i < 3 && 0 <= j < num_points ==> harmonic_point_ok(
                    frames@[g]@[i]@[j],
                    g,
                    num_frames as int,
                    i,
                    j,
                    num_points as int,
                ),
        decreases num_frames - f,
    {
        let mut curves: Vec<Vec<Point2D>> = Vec::new();
        let mut i: usize = 0;
        while i < 3
            invariant
                1 <= num_frames <= 100000,
                2 <= num_points <= 0x10_0000,
                f < num_frames,
                0 <= i <= 3,
                curves@.len() == i,
                forall|a: int|
                    #![trigger curves@[a]]
                    0 <= a < i ==> curves@[a]@.len() == num_points,
                forall|a: int, j: int|
                    #![trigger curves@[a]@[j]]
                    0 <= a < i && 0 <= j < num_points ==> harmonic_point_ok(
                        curves@[a]@[j],
                        f as int,
                        num_frames as int,
                        a,
                        j,
                        num_points as int,
                    ),
            decreases 3 - i,
        {
            let mut pts: Vec<Point2D> = Vec::new();
            let mut j: usize = 0;
            while j < num_points
                invariant
                    1 <= num_frames <= 100000,
                    2 <= num_points <= 0x10_0000,
                    f < num_frames,
                    i < 3,
                    0 <= j <= num_points,
                    pts@.len() == j,
                    forall|b: int|
                        #![trigger pts@[b]]
                        0 <= b < j ==> harmonic_point_ok(
                            pts@[b],
                            f as int,
                            num_frames as int,
                            i as int,
                            b,
                            num_points as int,
                        ),
                decreases num_points - j,
            {
                let p = generate_harmonic_waves_point(rng, f, num_frames, i, j, num_points);
                pts.push(p);
                j = j + 1;
            }
            curves.push(pts);
            i = i + 1;
        }
        frames.push(curves);
        f = f + 1;
    }
    frames
}

// ------------------------------------------------------------------
// Circular dance: concentric circles, both coordinates jittered.

/// The circle point before jitter.
pub open spec fn circular_base(f: int, i: int, v: int) -> (int, int) {
    let t = sdiv(f * 196608, 100);
    let radius = (ONE as int) + i * HALF;
    (fmul(radius, fcos(v + t)), fmul(radius, fsin(v + t)))
}

/// A point of the circular dance: both coordinates within their jitter
/// band around the circle.
pub open spec fn circular_point_ok(p: Point2D, f: int, nf: int, i: int, j: int, n: int) -> bool {
    let v = linspace_at(n, 0, TAU as int, j);
    let b = circular_base(f, i, v);
    &&& b.0 - 3277 <= p.x <= b.0 + 3276
    &&& b.1 - 3277 <= p.y <= b.1 + 3276
}

/// One circular-dance point.
fn generate_circular_dance_point(
    rng: &mut RandomSource,
    f: usize,
    nf: usize,
    i: usize,
    j: usize,
    n: usize,
) -> (p: Point2D)
    requires
        f < nf <= 100000,
        i < 4,
        j < n,
        2 <= n <= 0x10_0000,
    ensures
        circular_point_ok(p, f as int, nf as int, i as int, j as int, n as int),
{
    let v = sample_at(n, 0, TAU, j);
    let t = div_trunc((f as i64) * 196608, 100);
    let radius = ONE + (i as i64) * HALF;
    let c = cos_fx(v + t);
    let s = sin_fx(v + t);
    proof {
        lemma_fmul_bound(radius as int, c as int, 3 * (ONE as int), ONE as int);
        lemma_fmul_bound(radius as int, s as int, 3 * (ONE as int), ONE as int);
    }
    let ux = rng.next_in(-3277, 3277);
    let uy = rng.next_in(-3277, 3277);
    Point2D { x: fx_mul(radius, c) + ux, y: fx_mul(radius, s) + uy }
}

/// The `generate_circular_dance` animation: `num_frames` frames of 4 curves of
/// `num_points` points each, every point pinned to its formula.
pub fn generate_circular_dance(rng: &mut RandomSource, num_frames: usize, num_points: usize) -> (frames: Vec<
    Vec<Vec<Point2D>>,
>)
    requires
        1 <= num_frames <= 100000,
        2 <= num_points <= 0x10_0000,
    ensures
        frames@.len() == num_frames,
        forall|f: int| 0 <= f < num_frames ==> (#[trigger] frames@[f])@.len() == 4,
        forall|f: int, i: int|
            #![trigger frames@[f]@[i]]
            0 <= f < num_frames && 0 <= i < 4 ==> frames@[f]@[i]@.len() == num_points,
        forall|f: int, i: int, j: int|
            #![trigger frames@[f]@[i]@[j]]
            0 <= f < num_frames && 0 <= i < 4 && 0 <= j < num_points ==> circular_point_ok(
                frames@[f]@[i]@[j],
                f,
                num_frames as int,
                i,
                j,
                num_points as int,
            ),
{
    let mut frames: Vec<Vec<Vec<Point2D>>> = Vec::new();
    let mut f: usize = 0;
    while f < num_frames
        invariant
            1 <= num_frames <= 100000,
            2 <= num_points <= 0x10_0000,
            0 <= f <= num_frames,
            frames@.len() == f,
            forall|g: int| 0 <= g < f ==> (#[trigger] frames@[g])@.len() == 4,
            forall|g: int, i: int|
                #![trigger frames@[g]@[i]]
                0 <= g < f && 0 <= i < 4 ==> frames@[g]@[i]@.len() == num_points,
            forall|g: int, i: int, j: int|
                #![trigger frames@[g]@[i]@[j]]
                0 <= g < f && 0 <= i < 4 && 0 <= j < num_points ==> circular_point_ok(
                    frames@[g]@[i]@[j],
                    g,
                    num_frames as int,
                    i,
                    j,
                    num_points as int,
                ),
        decreases num_frames - f,
    {
        let mut curves: Vec<Vec<Point2D>> = Vec::new();
        let mut i: usize = 0;
        while i < 4
            invariant
                1 <= num_frames <= 100000,
                2 <= num_points <= 0x10_0000,
                f < num_frames,
                0 <= i <= 4,
                curves@.len() == i,
                forall|a: int|
                    #![trigger curves@[a]]
                    0 <= a < i ==> curves@[a]@.len() == num_points,
                forall|a: int, j: int|
                    #![trigger curves@[a]@[j]]
                    0 <= a < i && 0 <= j < num_points ==> circular_point_ok(
                        curves@[a]@[j],
                        f as int,
                        num_frames as int,
                        a,
                        j,
                        num_points as int,
                    ),
            decreases 4 - i,
        {
            let mut pts: Vec<Point2D> = Vec::new();
            let mut j: usize = 0;
            while j < num_points
                invariant
                    1 <= num_frames <= 100000,
                    2 <= num_points <= 0x10_0000,
                    f < num_frames,
                    i < 4,
                    0 <= j <= num_points,
                    pts@.len() == j,
                    forall|b: int|
                        #![trigger pts@[b]]
                        0 <= b < j ==> circular_point_ok(
                            pts@[b],
                            f as int,
                            num_frames as int,
                            i as int,
                            b,
                            num_points as int,
                        ),
                decreases num_points - j,
            {
                let p = generate_circular_dance_point(rng, f, num_frames, i, j, num_points);
                pts.push(p);
                j = j + 1;
            }
            curves.push(pts);
            i = i + 1;
        }
        frames.push(curves);
        f = f + 1;
    }
    frames
}

// ------------------------------------------------------------------
// Fractal flow: four stacked harmonics with multiplicative modulation,
// plus a jitter shrinking with the curve's scale.

/// One accumulation step of the fractal flow, the sum so far folded
/// through the modulation factor.
pub open spec fn flow_y(v: int, t: int, scale: int, k: nat) -> int
    decreases k,
{
    if k == 0 {
        0
    } else {
        let freq = (k as int) * scale;
        let y = flow_y(v, t, scale, (k - 1) as nat);
        fmul(
            y + sdiv(fsin(fmul(v, freq) + fmul(t, freq)) * ONE, freq),
            (ONE as int) + fmul(fcos(fmul(v, 6554)), 13107),
        )
    }
}

/// A point of the fractal flow: exact abscissa, ordinate in a band
/// above the four-step accumulated value.
pub open spec fn flow_point_ok(p: Point2D, f: int, nf: int, i: int, j: int, n: int) -> bool {
    let v = linspace_at(n, -(TAU as int), TAU as int, j);
    let t = sdiv(f * 196608, 100);
    let scale = (ONE as int) + i * HALF;
    let base = flow_y(v, t, scale, 4);
    &&& p.x == v
    &&& base <= p.y <= base + sdiv(3276 * (ONE as int), scale + HALF)
}

/// One fractal-flow accumulation step, executable.
fn flow_step(y: i64, v: i64, t: i64, scale: i64, k: i64, yb: i64) -> (r: i64)
    requires
        1 <= k <= 4,
        ONE <= scale <= 3 * ONE,
        -(TAU as i64) <= v <= TAU,
        0 <= t <= 0x4000_0000,
        -yb <= y <= yb,
        0 <= yb <= 0x10_0000,
    ensures
        ({
            let freq = (k as int) * (scale as int);
            r == fmul(
                y + sdiv(fsin(fmul(v as int, freq) + fmul(t as int, freq)) * ONE, freq),
                (ONE as int) + fmul(fcos(fmul(v as int, 6554)), 13107),
            )
        }),
        -(((yb + 65537) * 78643) / (ONE as int)) - 1 <= r <= ((yb + 65537) * 78643) / (
        ONE as int) + 1,
{
    proof {
        assert(ONE <= (k as int) * (scale as int) <= 12 * (ONE as int)) by (nonlinear_arith)
            requires
                1 <= k <= 4,
                ONE <= scale <= 3 * ONE,
                ONE == 65536,
        ;
    }
    let freq = k * scale;
    proof {
        lemma_fmul_bound(v as int, freq as int, TAU as int, 12 * (ONE as int));
        lemma_fmul_bound(t as int, freq as int, 0x4000_0000, 12 * (ONE as int));
        lemma_fmul_bound(v as int, 6554, TAU as int, 6554);
    }
    let s = sin_fx(fx_mul(v, freq) + fx_mul(t, freq));
    let term = div_trunc(s * ONE, freq);
    proof {
        lemma_sdiv_bound((s as int) * (ONE as int), freq as int, 4294967296);
        lemma_div_is_ordered_by_denominator(4294967296, ONE as int, freq as int);
        assert(-(ONE as int) <= term <= ONE);
    }
    let modc = cos_fx(fx_mul(v, 6554));
    proof {
        lemma_fmul_bound(modc as int, 13107, ONE as int, 13107);
    }
    let modf = ONE + fx_mul(modc, 13107);
    proof {
        assert(52429 <= modf <= 78643);
        lemma_fmul_bound((y + term) as int, modf as int, (yb + 65536) as int + 1, 78643);
    }
    let r = fx_mul(y + term, modf);
    proof {
        lemma_sdiv_bound((y + term) as int * (modf as int), ONE as int, ((yb as int) + 65537)
            * 78643);
    }
    r
}

/// One fractal-flow point.
fn generate_fractal_flow_point(
    rng: &mut RandomSource,
    f: usize,
    nf: usize,
    i: usize,
    j: usize,
    n: usize,
) -> (p: Point2D)
    requires
        f < nf <= 100000,
        i < 4,
        j < n,
        2 <= n <= 0x10_0000,
    ensures
        flow_point_ok(p, f as int, nf as int, i as int, j as int, n as int),
{
    let v = sample_at(n, -TAU, TAU, j);
    let t = div_trunc((f as i64) * 196608, 100);
    proof {
        lemma_div_is_ordered((f as int) * 196608, 19660800000, 100);
    }
    let scale = ONE + (i as i64) * HALF;
    let y1 = flow_step(0, v, t, scale, 1, 0);
    let y2 = flow_step(y1, v, t, scale, 2, 78645);
    let y3 = flow_step(y2, v, t, scale, 3, 173018);
    let y4 = flow_step(y3, v, t, scale, 4, 286266);
    proof {
        assert(flow_y(v as int, t as int, scale as int, 0) == 0);
        assert(flow_y(v as int, t as int, scale as int, 1) == y1);
        assert(flow_y(v as int, t as int, scale as int, 2) == y2);
        assert(flow_y(v as int, t as int, scale as int, 3) == y3);
        assert(flow_y(v as int, t as int, scale as int, 4) == y4);
    }
    let u = rng.next_unit();
    proof {
        lemma_fmul_bound(u as int, 3277, ONE as int, 3277);
        crate::fixed::lemma_fmul_contract(3277, u as int);
    }
    let r1 = fx_mul(u, 3277);
    let jit = div_trunc(r1 * ONE, scale + HALF);
    proof {
        assert(0 <= (r1 as int) * (ONE as int) <= 3276 * (ONE as int)) by (nonlinear_arith)
            requires
                0 <= r1 <= 3276,
                ONE == 65536,
        ;
        lemma_div_is_ordered(0, (r1 as int) * (ONE as int), (scale + HALF) as int);
        lemma_div_is_ordered((r1 as int) * (ONE as int), 3276 * (ONE as int), (scale
            + HALF) as int);
    }
    Point2D { x: v, y: y4 + jit }
}

/// The `generate_fractal_flow` animation: `num_frames` frames of 4 curves of
/// `num_points` points each, every point pinned to its formula.
pub fn generate_fractal_flow(rng: &mut RandomSource, num_frames: usize, num_points: usize) -> (frames: Vec<
    Vec<Vec<Point2D>>,
>)
    requires
        1 <= num_frames <= 100000,
        2 <= num_points <= 0x10_0000,
    ensures
        frames@.len() == num_frames,
        forall|f: int| 0 <= f < num_frames ==> (#[trigger] frames@[f])@.len() == 4,
        forall|f: int, i: int|
            #![trigger frames@[f]@[i]]
            0 <= f < num_frames && 0 <= i < 4 ==> frames@[f]@[i]@.len() == num_points,
        forall|f: int, i: int, j: int|
            #![trigger frames@[f]@[i]@[j]]
            0 <= f < num_frames && 0 <= i < 4 && 0 <= j < num_points ==> flow_point_ok(
                frames@[f]@[i]@[j],
                f,
                num_frames as int,
                i,
                j,
                num_points as int,
            ),
{
    let mut frames: Vec<Vec<Vec<Point2D>>> = Vec::new();
    let mut f: usize = 0;
    while f < num_frames
        invariant
            1 <= num_frames <= 100000,
            2 <= num_points <= 0x10_0000,
            0 <= f <= num_frames,
            frames@.len() == f,
            forall|g: int| 0 <= g < f ==> (#[trigger] frames@[g])@.len() == 4,
            forall|g: int, i: int|
                #![trigger frames@[g]@[i]]
                0 <= g < f && 0 <= i < 4 ==> frames@[g]@[i]@.len() == num_points,
            forall|g: int, i: int, j: int|
                #![trigger frames@[g]@[i]@[j]]
                0 <= g < f && 0 <= i < 4 && 0 <= j < num_points ==> flow_point_ok(
                    frames@[g]@[i]@[j],
                    g,
                    num_frames as int,
                    i,
                    j,
                    num_points as int,
                ),
        decreases num_frames - f,
    {
        let mut curves: Vec<Vec<Point2D>> = Vec::new();
        let mut i: usize = 0;
        while i < 4
            invariant
                1 <= num_frames <= 100000,
                2 <= num_points <= 0x10_0000,
                f < num_frames,
                0 <= i <= 4,
                curves@.len() == i,
                forall|a: int|
                    #![trigger curves@[a]]
                    0 <= a < i ==> curves@[a]@.len() == num_points,
                forall|a: int, j: int|
                    #![trigger curves@[a]@[j]]
                    0 <= a < i && 0 <= j < num_points ==> flow_point_ok(
                        curves@[a]@[j],
                        f as int,
                        num_frames as int,
                        a,
                        j,
                        num_points as int,
                    ),
            decreases 4 - i,
        {
            let mut pts: Vec<Point2D> = Vec::new();
            let mut j: usize = 0;
            while j < num_points
                invariant
                    1 <= num_frames <= 100000,
                    2 <= num_points <= 0x10_0000,
                    f < num_frames,
                    i < 4,
                    0 <= j <= num_points,
                    pts@.len() == j,
                    forall|b: int|
                        #![trigger pts@[b]]
                        0 <= b < j ==> flow_point_ok(
                            pts@[b],
                            f as int,
                            num_frames as int,
                            i as int,
                            b,
                            num_points as int,
                        ),
                decreases num_points - j,
            {
                let p = generate_fractal_flow_point(rng, f, num_frames, i, j, num_points);
                pts.push(p);
                j = j + 1;
            }
            curves.push(pts);
            i = i + 1;
        }
        frames.push(curves);
        f = f + 1;
    }
    frames
}

// ------------------------------------------------------------------
// Quantum wave packets: a Gaussian envelope times a dispersive carrier,
// with envelope-scaled jitter.

/// The wave packet before jitter.
pub open spec fn quantum_base(f: int, i: int, v: int) -> int {
    let t = sdiv(f * ONE, 25);
    let pw = (ONE as int) + i * HALF;
    let env = fexp(-sdiv(fmul(v, v) * ONE, 2 * pw));
    let kk = 2 * (ONE as int) + i * HALF;
    let omega = sdiv(fmul(kk, kk), 2);
    let phase = fmul(kk, v) - fmul(omega, t);
    fmul(fmul(env, fcos(phase)), (ONE as int) + fmul(13107, fsin(sdiv(t, 2))))
}

/// The envelope alone (the jitter is scaled by it).
pub open spec fn quantum_env(i: int, v: int) -> int {
    fexp(-sdiv(fmul(v, v) * ONE, 2 * ((ONE as int) + i * HALF)))
}

/// A point of the wave packet: exact abscissa, ordinate in an
/// envelope-scaled band above the carrier.
pub open spec fn quantum_point_ok(p: Point2D, f: int, nf: int, i: int, j: int, n: int) -> bool {
    let v = linspace_at(n, -(THREE_PI as int), THREE_PI as int, j);
    let base = quantum_base(f, i, v);
    &&& p.x == v
    &&& base <= p.y <= base + 1311
}

/// One wave-packet point.
fn generate_quantum_waves_point(
    rng: &mut RandomSource,
    f: usize,
    nf: usize,
    i: usize,
    j: usize,
    n: usize,
) -> (p: Point2D)
    requires
        f < nf <= 100000,
        i < 3,
        j < n,
        2 <= n <= 0x10_0000,
    ensures
        quantum_point_ok(p, f as int, nf as int, i as int, j as int, n as int),
{
    let v = sample_at(n, -THREE_PI, THREE_PI, j);
    let t = div_trunc((f as i64) * ONE, 25);
    let pw = ONE + (i as i64) * HALF;
    proof {
        lemma_fmul_bound(v as int, v as int, THREE_PI as int, THREE_PI as int);
        assert(0 <= (v as int) * (v as int)) by (nonlinear_arith);
        lemma_div_is_ordered(0, (v as int) * (v as int), ONE as int);
    }
    let vv = fx_mul(v, v);
    let arg = div_trunc(vv * ONE, 2 * pw);
    let env = exp_fx(-arg);
    let kk = 2 * ONE + (i as i64) * HALF;
    proof {
        lemma_fmul_bound(kk as int, kk as int, 3 * (ONE as int), 3 * (ONE as int));
        lemma_fmul_bound(kk as int, v as int, 3 * (ONE as int), THREE_PI as int);
    }
    let omega = div_trunc(fx_mul(kk, kk), 2);
    proof {
        lemma_sdiv_bound(fmul(kk as int, kk as int), 2, 9 * (ONE as int));
        lemma_div_is_ordered((f as int) * (ONE as int), 6553600000, 25);
        assert(0 <= t <= 262144000);
        lemma_fmul_bound(omega as int, t as int, 9 * (ONE as int), 0x8000_0000);
    }
    let phase = fx_mul(kk, v) - fx_mul(omega, t);
    let cp = cos_fx(phase);
    proof {
        lemma_fmul_bound(env as int, cp as int, ONE as int, ONE as int);
    }
    let st = sin_fx(div_trunc(t, 2));
    proof {
        lemma_fmul_bound(13107, st as int, 13107, ONE as int);
    }
    let modf = ONE + fx_mul(13107, st);
    proof {
        lemma_fmul_bound(fmul(env as int, cp as int), modf as int, ONE as int, 78643);
    }
    let y0 = fx_mul(fx_mul(env, cp), modf);
    let u = rng.next_in(0, 1311);
    proof {
        crate::fixed::lemma_fmul_contract(u as int, env as int);
        lemma_fmul_bound(u as int, env as int, 1311, ONE as int);
    }
    let noise = fx_mul(u, env);
    Point2D { x: v, y: y0 + noise }
}

/// The `generate_quantum_waves` animation: `num_frames` frames of 3 curves of
/// `num_points` points each, every point pinned to its formula.
pub fn generate_quantum_waves(rng: &mut RandomSource, num_frames: usize, num_points: usize) -> (frames: Vec<
    Vec<Vec<Point2D>>,
>)
    requires
        1 <= num_frames <= 100000,
        2 <= num_points <= 0x10_0000,
    ensures
        frames@.len() == num_frames,
        forall|f: int| 0 <= f < num_frames ==> (#[trigger] frames@[f])@.len() == 3,
        forall|f: int, i: int|
            #![trigger frames@[f]@[i]]
            0 <= f < num_frames && 0 <= i < 3 ==> frames@[f]@[i]@.len() == num_points,
        forall|f: int, i: int, j: int|
            #![trigger frames@[f]@[i]@[j]]
            0 <= f < num_frames && 0 <= i < 3 && 0 <= j < num_points ==> quantum_point_ok(
                frames@[f]@[i]@[j],
                f,
                num_frames as int,
                i,
                j,
                num_points as int,
            ),
{
    let mut frames: Vec<Vec<Vec<Point2D>>> = Vec::new();
    let mut f: usize = 0;
    while f < num_frames
        invariant
            1 <= num_frames <= 100000,
            2 <= num_points <= 0x10_0000,
            0 <= f <= num_frames,
            frames@.len() == f,
            forall|g: int| 0 <= g < f ==> (#[trigger] frames@[g])@.len() == 3,
            forall|g: int, i: int|
                #![trigger frames@[g]@[i]]
                0 <= g < f && 0 <= i < 3 ==> frames@[g]@[i]@.len() == num_points,
            forall|g: int, i: int, j: int|
                #![trigger frames@[g]@[i]@[j]]
                0 <= g < f && 0 <= i < 3 && 0 <= j < num_points ==> quantum_point_ok(
                    frames@[g]@[i]@[j],
                    g,
                    num_frames as int,
                    i,
                    j,
                    num_points as int,
                ),
        decreases num_frames - f,
    {
        let mut curves: Vec<Vec<Point2D>> = Vec::new();
        let mut i: usize = 0;
        while i < 3
            invariant
                1 <= num_frames <= 100000,
                2 <= num_points <= 0x10_0000,
                f < num_frames,
                0 <= i <= 3,
                curves@.len() == i,
                forall|a: int|
                    #![trigger curves@[a]]
                    0 <= a < i ==> curves@[a]@.len() == num_points,
                forall|a: int, j: int|
                    #![trigger curves@[a]@[j]]
                    0 <= a < i && 0 <= j < num_points ==> quantum_point_ok(
                        curves@[a]@[j],
                        f as int,
                        num_frames as int,
                        a,
                        j,
                        num_points as int,
                    ),
            decreases 3 - i,
        {
            let mut pts: Vec<Point2D> = Vec::new();
            let mut j: usize = 0;
            while j < num_points
                invariant
                    1 <= num_frames <= 100000,
                    2 <= num_points <= 0x10_0000,
                    f < num_frames,
                    i < 3,
                    0 <= j <= num_points,
                    pts@.len() == j,
                    forall|b: int|
                        #![trigger pts@[b]]
                        0 <= b < j ==> quantum_point_ok(
                            pts@[b],
                            f as int,
                            num_frames as int,
                            i as int,
                            b,
                            num_points as int,
                        ),
                decreases num_points - j,
            {
                let p = generate_quantum_waves_point(rng, f, num_frames, i, j, num_points);
                pts.push(p);
                j = j + 1;
            }
            curves.push(pts);
            i = i + 1;
        }
        frames.push(curves);
        f = f + 1;
    }
    frames
}

} // verus!
