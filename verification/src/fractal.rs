//! The escape-time fractal renderer with smooth coloring and a
//! time-varying zoom/spiral camera.
//!
//! The quadratic map is iterated in fixed point in exactly the classic
//! order: both squares first, the escape test on their sum, then the
//! imaginary part from the previous values and the real part from the
//! saved squares.  The escape iteration, the smooth coloring and the
//! whole per-frame camera are pinned to spec functions, and the laws of
//! the renderer (immediate escape far outside, a full-length bounded
//! orbit at the center, smooth-count stability under a larger iteration
//! cap) are proved below.

use vstd::prelude::*;

verus! {

use crate::fixed::{ONE, HALF, PI, TAU, sdiv, fmul, div_trunc, mod_euclid, fx_mul, lemma_sdiv_bound, lemma_fmul_bound};
use crate::trig::{fsin, fcos, sin_fx, cos_fx};
use crate::explog::{fexp, fln, flog2, exp_fx, ln_fx, log2_fx, LN2};
use crate::color::spec_hsv;
use crate::color::hsv_sector;
use crate::shapes::Rgb;
use crate::grid::{rgb_is, frame_time, time_of, FULL_TURN};
use vstd::arithmetic::div_mod::{lemma_div_is_ordered, lemma_div_is_ordered_by_denominator, lemma_div_by_multiple, lemma_div_of0, lemma_fundamental_div_mod};

/// The escape-time iteration of `z <- z^2 + c` in fixed point, started
/// from `(zx, zy)` at iteration `it`: the result is the iteration count
/// together with the final point, stopping as soon as the squared
/// magnitude exceeds 4 or the cap is reached.
pub open spec fn spec_escape(cx: int, cy: int, zx: int, zy: int, it: nat, max: nat) -> (
    nat,
    int,
    int,
)
    decreases max - it,
{
    if it >= max {
        (it, zx, zy)
    } else {
        let zx2 = fmul(zx, zx);
        let zy2 = fmul(zy, zy);
        if zx2 + zy2 > 4 * ONE {
            (it, zx, zy)
        } else {
            spec_escape(cx, cy, zx2 - zy2 + cx, 2 * fmul(zx, zy) + cy, (it + 1) as nat, max)
        }
    }
}

/// Magnitude and escape facts about the iteration's result: the count
/// lands between the start and the cap, and a result under the cap has
/// escaped.
pub proof fn lemma_escape_props(cx: int, cy: int, zx: int, zy: int, it: nat, max: nat)
    requires
        it <= max,
    ensures
        ({
            let r = spec_escape(cx, cy, zx, zy, it, max);
            &&& it <= r.0 <= max
            &&& r.0 < max ==> fmul(r.1, r.1) + fmul(r.2, r.2) > 4 * ONE
        }),
    decreases max - it,
{
    if it < max {
        let zx2 = fmul(zx, zx);
        let zy2 = fmul(zy, zy);
        if !(zx2 + zy2 > 4 * ONE) {
            lemma_escape_props(cx, cy, zx2 - zy2 + cx, 2 * fmul(zx, zy) + cy, (it + 1) as nat, max);
        }
    }
}

/// Bounds used while iterating: when the squared magnitude has not yet
/// escaped, the squares are small and so is the cross product.
proof fn lemma_mandel_step_bounds(zx: int, zy: int)
    requires
        -1048576 <= zx <= 1048576,
        -1048576 <= zy <= 1048576,
        fmul(zx, zx) + fmul(zy, zy) <= 4 * ONE,
        0 <= fmul(zx, zx),
        0 <= fmul(zy, zy),
    ensures
        -(4 * (ONE as int) + 1) <= fmul(zx, zy) <= 4 * (ONE as int) + 1,
{
    let sq = zx * zx;
    lemma_fundamental_div_mod(sq, ONE as int);
    assert(sq >= 0) by (nonlinear_arith)
        requires
            sq == zx * zx,
    ;
    assert(sq == (ONE as int) * (sq / (ONE as int)) + sq % (ONE as int));
    assert(sq / (ONE as int) <= 4 * ONE);
    assert(sq <= 17179934720) by (nonlinear_arith)
        requires
            sq == (ONE as int) * (sq / (ONE as int)) + sq % (ONE as int),
            sq / (ONE as int) <= 4 * 65536,
            sq % (ONE as int) < 65536,
            0 <= sq % (ONE as int),
            ONE == 65536,
    ;
    let sq2 = zy * zy;
    lemma_fundamental_div_mod(sq2, ONE as int);
    assert(sq2 >= 0) by (nonlinear_arith)
        requires
            sq2 == zy * zy,
    ;
    assert(sq2 <= 17179934720) by (nonlinear_arith)
        requires
            sq2 == (ONE as int) * (sq2 / (ONE as int)) + sq2 % (ONE as int),
            sq2 / (ONE as int) <= 4 * 65536,
            sq2 % (ONE as int) < 65536,
            0 <= sq2 % (ONE as int),
            ONE == 65536,
    ;
    assert(-17179934720 <= zx * zy <= 17179934720) by (nonlinear_arith)
        requires
            zx * zx <= 17179934720,
            zy * zy <= 17179934720,
    ;
    lemma_sdiv_bound(zx * zy, ONE as int, 17179934720);
}

/// Executable escape-time iteration from the origin.
pub fn escape_iter(cx: i64, cy: i64, max_iter: usize) -> (r: (usize, i64, i64))
    requires
        -393216 <= cx <= 393216,
        -393216 <= cy <= 393216,
        max_iter <= 100000,
    ensures
        (r.0 as nat, r.1 as int, r.2 as int) == spec_escape(
            cx as int,
            cy as int,
            0,
            0,
            0,
            max_iter as nat,
        ),
        r.0 <= max_iter,
        -1048576 <= r.1 <= 1048576,
        -1048576 <= r.2 <= 1048576,
{
    let mut zx: i64 = 0;
    let mut zy: i64 = 0;
    let mut it: usize = 0;
    loop
        invariant
            it <= max_iter,
            -1048576 <= zx <= 1048576,
            -1048576 <= zy <= 1048576,
            -393216 <= cx <= 393216,
            -393216 <= cy <= 393216,
            max_iter <= 100000,
            spec_escape(cx as int, cy as int, zx as int, zy as int, it as nat, max_iter as nat)
                == spec_escape(cx as int, cy as int, 0, 0, 0, max_iter as nat),
        ensures
            it <= max_iter,
            -1048576 <= zx <= 1048576,
            -1048576 <= zy <= 1048576,
            (it as nat, zx as int, zy as int) == spec_escape(
                cx as int,
                cy as int,
                0,
                0,
                0,
                max_iter as nat,
            ),
        decreases max_iter - it,
    {
        if it >= max_iter {
            break ;
        }
        proof {
            assert(-0x100_0000_0000 <= (zx as int) * (zx as int) <= 0x100_0000_0000
                && -0x100_0000_0000 <= (zy as int) * (zy as int) <= 0x100_0000_0000
                && -0x100_0000_0000 <= (zx as int) * (zy as int) <= 0x100_0000_0000)
                by (nonlinear_arith)
                requires
                    -1048576 <= zx <= 1048576,
                    -1048576 <= zy <= 1048576,
            ;
            assert(0 <= (zx as int) * (zx as int) && 0 <= (zy as int) * (zy as int))
                by (nonlinear_arith);
            lemma_div_is_ordered(0, (zx as int) * (zx as int), ONE as int);
            lemma_div_is_ordered(0, (zy as int) * (zy as int), ONE as int);
        }
        let zx2 = fx_mul(zx, zx);
        let zy2 = fx_mul(zy, zy);
        if zx2 + zy2 > 4 * ONE {
            break ;
        }
        proof {
            lemma_mandel_step_bounds(zx as int, zy as int);
        }
        let cross = fx_mul(zx, zy);
        let nzy = 2 * cross + cy;
        let nzx = zx2 - zy2 + cx;
        zx = nzx;
        zy = nzy;
        it = it + 1;
    }
    (it, zx, zy)
}

/// The smooth iteration count of an escaped point, scaled by [`ONE`]:
/// the integer count plus one, minus log2 of the natural logarithm of
/// the squared magnitude.
pub open spec fn spec_smooth(it: int, zx: int, zy: int) -> int {
    it * ONE + ONE - flog2(fln(fmul(zx, zx) + fmul(zy, zy)))
}

/// The smooth-colored palette entry of an escaped point.
pub open spec fn spec_frac_color(it: int, zx: int, zy: int, max: int, t: int, sat: int) -> (
    int,
    int,
    int,
) {
    let normalized = sdiv(spec_smooth(it, zx, zy), max);
    let hm = (8 * normalized + sdiv(t, 5)) % (ONE as int);
    spec_hsv(6 * hm, sat, ONE as int)
}

/// Executable smooth coloring of an escaped point.
fn fractal_color(it: usize, zx: i64, zy: i64, max_iter: usize, t: i64, sat: i64) -> (c: Rgb)
    requires
        it < max_iter,
        max_iter <= 100000,
        -1048576 <= zx <= 1048576,
        -1048576 <= zy <= 1048576,
        fmul(zx as int, zx as int) + fmul(zy as int, zy as int) > 4 * ONE,
        -0x1000_0000 <= t <= 0x1000_0000,
        0 <= sat <= ONE,
    ensures
        rgb_is(
            c,
            spec_frac_color(it as int, zx as int, zy as int, max_iter as int, t as int, sat as int),
        ),
{
    proof {
        assert(-0x100_0000_0000 <= (zx as int) * (zx as int) <= 0x100_0000_0000
            && -0x100_0000_0000 <= (zy as int) * (zy as int) <= 0x100_0000_0000)
            by (nonlinear_arith)
            requires
                -1048576 <= zx <= 1048576,
                -1048576 <= zy <= 1048576,
        ;
        lemma_sdiv_bound((zx as int) * (zx as int), ONE as int, 0x100_0000_0000);
        lemma_sdiv_bound((zy as int) * (zy as int), ONE as int, 0x100_0000_0000);
    }
    let zz = fx_mul(zx, zx) + fx_mul(zy, zy);
    let lnzz = ln_fx(zz);
    let lnln = log2_fx(lnzz);
    let smooth = (it as i64) * ONE + ONE - lnln;
    let normalized = div_trunc(smooth, max_iter as i64);
    let hm = mod_euclid(8 * normalized + div_trunc(t, 5), ONE);
    hsv_sector(6 * hm, sat, ONE)
}

/// The per-frame camera of the fractal renderer, all pure functions of
/// the frame's time: an exponential zoom, a tightening spiral around
/// the target, an iteration cap that grows with the zoom's logarithm,
/// and a breathing saturation.
pub open spec fn frac_inv_zoom(t: int) -> int {
    sdiv((ONE as int) * (ONE as int), fexp(t))
}

/// The spiral radius at time `t`.
pub open spec fn frac_spiral_radius(t: int) -> int {
    sdiv((ONE as int) * (ONE as int), ONE + sdiv(t, 10))
}

/// The camera center's horizontal coordinate at time `t`.
pub open spec fn frac_center_x(tx: int, t: int) -> int {
    tx + sdiv(fmul(frac_spiral_radius(t), fcos(3 * t)) * ONE, fexp(t))
}

/// The camera center's vertical coordinate at time `t`.
pub open spec fn frac_center_y(ty: int, t: int) -> int {
    ty + sdiv(fmul(frac_spiral_radius(t), fsin(3 * t)) * ONE, fexp(t))
}

/// The iteration cap at time `t`.
pub open spec fn frac_max_iter(t: int) -> int {
    500 + sdiv(20 * fln(fexp(t)), ONE as int)
}

/// The palette saturation at time `t`.
pub open spec fn frac_sat(t: int) -> int {
    52429 + fmul(13107, fsin(2 * t))
}

/// Pixel-to-plane mapping: the visible `[-2, 2]` range scaled by the
/// zoom's reciprocal and recentered.
pub open spec fn frac_coord(p: int, n: int, invz: int, center: int) -> int {
    fmul(sdiv(4 * p * ONE, n) - 2 * ONE, invz) + center
}

/// The fractal cell formula: black for a bounded orbit, the smooth
/// palette entry for an escaping one.
pub open spec fn spec_fractal_cell(
    w: int,
    h: int,
    t: int,
    tx: int,
    ty: int,
    x: int,
    y: int,
) -> (int, int, int) {
    let m = frac_max_iter(t);
    let cx = frac_coord(x, w, frac_inv_zoom(t), frac_center_x(tx, t));
    let cy = frac_coord(y, h, frac_inv_zoom(t), frac_center_y(ty, t));
    let r = spec_escape(cx, cy, 0, 0, 0, m as nat);
    if r.0 == m {
        (0, 0, 0)
    } else {
        spec_frac_color(r.0 as int, r.1, r.2, m, t, frac_sat(t))
    }
}

/// A frame of the fractal grid matches the formula cell by cell.
pub open spec fn fractal_frame_ok(
    g: Vec<Vec<Rgb>>,
    w: int,
    h: int,
    t: int,
    tx: int,
    ty: int,
) -> bool {
    &&& g@.len() == h
    &&& forall|y: int| 0 <= y < h ==> (#[trigger] g@[y])@.len() == w
    &&& forall|y: int, x: int|
        #![trigger g@[y]@[x]]
        0 <= y < h && 0 <= x < w ==> rgb_is(g@[y]@[x], spec_fractal_cell(w, h, t, tx, ty, x, y))
}

/// One frame of the fractal renderer.
pub fn fractal_frame(width: usize, height: usize, t: i64, target_x: i64, target_y: i64) -> (g: Vec<
    Vec<Rgb>,
>)
    requires
        1 <= width <= 2048,
        1 <= height <= 2048,
        0 <= t <= TAU,
        -131072 <= target_x <= 131072,
        -131072 <= target_y <= 131072,
    ensures
        fractal_frame_ok(
            g,
            width as int,
            height as int,
            t as int,
            target_x as int,
            target_y as int,
        ),
{
    let zoom = exp_fx(t);
    let inv_zoom = div_trunc(ONE * ONE, zoom);
    proof {
        lemma_div_is_ordered_by_denominator((ONE as int) * (ONE as int), ONE as int, zoom as int);
        lemma_div_by_multiple(ONE as int, ONE as int);
    }
    let sr = div_trunc(ONE * ONE, ONE + div_trunc(t, 10));
    proof {
        lemma_div_is_ordered_by_denominator(
            (ONE as int) * (ONE as int),
            ONE as int,
            (ONE + sdiv(t as int, 10)) as int,
        );
    }
    let c3 = cos_fx(3 * t);
    let s3 = sin_fx(3 * t);
    proof {
        lemma_fmul_bound(sr as int, c3 as int, ONE as int, ONE as int);
        lemma_fmul_bound(sr as int, s3 as int, ONE as int, ONE as int);
    }
    let ca = fx_mul(sr, c3);
    let cb = fx_mul(sr, s3);
    let cxoff = div_trunc(ca * ONE, zoom);
    let cyoff = div_trunc(cb * ONE, zoom);
    proof {
        lemma_sdiv_bound((ca as int) * (ONE as int), zoom as int, 4294967296);
        lemma_sdiv_bound((cb as int) * (ONE as int), zoom as int, 4294967296);
        lemma_div_is_ordered_by_denominator(4294967296, ONE as int, zoom as int);
    }
    let ccx = target_x + cxoff;
    let ccy = target_y + cyoff;
    let lnz = ln_fx(zoom);
    let extra = div_trunc(20 * lnz, ONE);
    proof {
        lemma_div_is_ordered(20 * (lnz as int), 42700440, ONE as int);
    }
    let max_iter_i = 500 + extra;
    let max_iter = max_iter_i as usize;
    let sat_term = fx_mul(13107, sin_fx(2 * t));
    proof {
        lemma_sdiv_bound(13107 * (fsin(2 * (t as int))), ONE as int, 859045888);
    }
    let sat = 52429 + sat_term;
    let mut g: Vec<Vec<Rgb>> = Vec::new();
    let mut y: usize = 0;
    while y < height
        invariant
            1 <= width <= 2048,
            1 <= height <= 2048,
            0 <= t <= TAU,
            -131072 <= target_x <= 131072,
            -131072 <= target_y <= 131072,
            inv_zoom == frac_inv_zoom(t as int),
            0 <= inv_zoom <= ONE,
            ccx == frac_center_x(target_x as int, t as int),
            ccy == frac_center_y(target_y as int, t as int),
            -196608 <= ccx <= 196608,
            -196608 <= ccy <= 196608,
            max_iter == frac_max_iter(t as int),
            500 <= max_iter <= 1151,
            sat == frac_sat(t as int),
            39322 <= sat <= ONE,
            0 <= y <= height,
            g@.len() == y,
            forall|yy: int| 0 <= yy < y ==> (#[trigger] g@[yy])@.len() == width,
            forall|yy: int, x: int|
                #![trigger g@[yy]@[x]]
                0 <= yy < y && 0 <= x < width ==> rgb_is(
                    g@[yy]@[x],
                    spec_fractal_cell(
                        width as int,
                        height as int,
                        t as int,
                        target_x as int,
                        target_y as int,
                        x,
                        yy,
                    ),
                ),
        decreases height - y,
    {
        let py = div_trunc(4 * (y as i64) * ONE, height as i64) - 2 * ONE;
        proof {
            lemma_pixel_coord_bound(y as int, height as int);
            lemma_fmul_bound(py as int, inv_zoom as int, 2 * (ONE as int), ONE as int);
        }
        let ys = fx_mul(py, inv_zoom) + ccy;
        let mut row: Vec<Rgb> = Vec::new();
        let mut x: usize = 0;
        while x < width
            invariant
                1 <= width <= 2048,
                1 <= height <= 2048,
                0 <= t <= TAU,
                -131072 <= target_x <= 131072,
                -131072 <= target_y <= 131072,
                inv_zoom == frac_inv_zoom(t as int),
                0 <= inv_zoom <= ONE,
                ccx == frac_center_x(target_x as int, t as int),
                ccy == frac_center_y(target_y as int, t as int),
                -196608 <= ccx <= 196608,
                -196608 <= ccy <= 196608,
                max_iter == frac_max_iter(t as int),
                500 <= max_iter <= 1151,
                sat == frac_sat(t as int),
                39322 <= sat <= ONE,
                y < height,
                ys == frac_coord(y as int, height as int, frac_inv_zoom(t as int), frac_center_y(target_y as int, t as int)),
                -393216 <= ys <= 393216,
                0 <= x <= width,
                row@.len() == x,
                forall|xx: int|
                    #![trigger row@[xx]]
                    0 <= xx < x ==> rgb_is(
                        row@[xx],
                        spec_fractal_cell(
                            width as int,
                            height as int,
                            t as int,
                            target_x as int,
                            target_y as int,
                            xx,
                            y as int,
                        ),
                    ),
            decreases width - x,
        {
            let px = div_trunc(4 * (x as i64) * ONE, width as i64) - 2 * ONE;
            proof {
                lemma_pixel_coord_bound(x as int, width as int);
                lemma_fmul_bound(px as int, inv_zoom as int, 2 * (ONE as int), ONE as int);
            }
            let xs = fx_mul(px, inv_zoom) + ccx;
            let er = escape_iter(xs, ys, max_iter);
            proof {
                lemma_escape_props(xs as int, ys as int, 0, 0, 0, max_iter as nat);
            }
            let c = if er.0 == max_iter {
                Rgb { r: 0, g: 0, b: 0 }
            } else {
                fractal_color(er.0, er.1, er.2, max_iter, t, sat)
            };
            row.push(c);
            x = x + 1;
        }
        g.push(row);
        y = y + 1;
    }
    g
}

/// The scaled pixel offset stays within the visible range.
proof fn lemma_pixel_coord_bound(p: int, n: int)
    requires
        1 <= n,
        0 <= p < n,
    ensures
        -2 * (ONE as int) <= sdiv(4 * p * ONE, n) - 2 * ONE <= 2 * (ONE as int),
{
    assert(0 <= 4 * p * ONE <= (4 * (ONE as int)) * n) by (nonlinear_arith)
        requires
            0 <= p < n,
            ONE == 65536,
    ;
    lemma_div_is_ordered(0, 4 * p * ONE, n);
    lemma_div_is_ordered(4 * p * ONE, (4 * (ONE as int)) * n, n);
    lemma_div_by_multiple(4 * (ONE as int), n);
}

/// The fractal animation: a spiral dive toward the target point over
/// one full turn of time.
pub fn fractal_grid(
    width: usize,
    height: usize,
    num_frames: usize,
    target_x: i64,
    target_y: i64,
) -> (frames: Vec<Vec<Vec<Rgb>>>)
    requires
        1 <= width <= 2048,
        1 <= height <= 2048,
        1 <= num_frames <= 100000,
        -131072 <= target_x <= 131072,
        -131072 <= target_y <= 131072,
    ensures
        frames@.len() == num_frames + 1,
        forall|f: int|
            0 <= f <= num_frames ==> fractal_frame_ok(
                #[trigger] frames@[f],
                width as int,
                height as int,
                frame_time(f, num_frames as int, FULL_TURN as int),
                target_x as int,
                target_y as int,
            ),
{
    let mut frames: Vec<Vec<Vec<Rgb>>> = Vec::new();
    let mut i: usize = 0;
    while i <= num_frames
        invariant
            1 <= width <= 2048,
            1 <= height <= 2048,
            1 <= num_frames <= 100000,
            -131072 <= target_x <= 131072,
            -131072 <= target_y <= 131072,
            0 <= i <= num_frames + 1,
            frames@.len() == i,
            forall|f: int|
                0 <= f < i ==> fractal_frame_ok(
                    #[trigger] frames@[f],
                    width as int,
                    height as int,
                    frame_time(f, num_frames as int, FULL_TURN as int),
                    target_x as int,
                    target_y as int,
                ),
        decreases num_frames + 1 - i,
    {
        let t = time_of(i, num_frames, FULL_TURN);
        let g = fractal_frame(width, height, t, target_x, target_y);
        frames.push(g);
        i = i + 1;
    }
    frames
}

/// Renderer law: a point far outside the escape radius (the stored form
/// of `c = (2, 2)`) leaves the iteration at count 1, whatever the cap.
pub proof fn lemma_fractal_known_escape(max: nat)
    requires
        max >= 1,
    ensures
        spec_escape(131072, 131072, 0, 0, 0, max) == (1nat, 131072int, 131072int),
{
    lemma_div_of0(ONE as int);
    assert(fmul(0, 0) == 0);
    assert(fmul(131072, 131072) == 262144) by {
        assert(131072int * 131072 == 17179869184) by (nonlinear_arith);
        assert(17179869184int / 65536 == 262144);
    }
    assert(spec_escape(131072, 131072, 0, 0, 0, max) == spec_escape(
        131072,
        131072,
        131072,
        131072,
        1,
        max,
    ));
    if max == 1 {
        assert(spec_escape(131072, 131072, 131072, 131072, 1, max) == (
            1nat,
            131072int,
            131072int,
        ));
    } else {
        assert(spec_escape(131072, 131072, 131072, 131072, 1, max) == (
            1nat,
            131072int,
            131072int,
        ));
    }
}

/// Renderer law: the center of the main cardioid never escapes; the
/// iteration runs to the cap with a zero orbit, and the renderer then
/// paints that cell black (`spec_fractal_cell` yields `(0, 0, 0)`
/// whenever the count reaches the cap).
pub proof fn lemma_fractal_cardioid(it: nat, max: nat)
    requires
        it <= max,
    ensures
        spec_escape(0, 0, 0, 0, it, max) == (max, 0int, 0int),
    decreases max - it,
{
    lemma_div_of0(ONE as int);
    assert(fmul(0, 0) == 0);
    if it < max {
        lemma_fractal_cardioid((it + 1) as nat, max);
    }
}

/// An escape before the cap is final: enlarging the cap changes neither
/// the count nor the final point.
pub proof fn lemma_escape_stable(cx: int, cy: int, zx: int, zy: int, it: nat, m1: nat, m2: nat)
    requires
        it <= m1 <= m2,
        spec_escape(cx, cy, zx, zy, it, m1).0 < m1,
    ensures
        spec_escape(cx, cy, zx, zy, it, m2) == spec_escape(cx, cy, zx, zy, it, m1),
    decreases m1 - it,
{
    if it >= m1 {
        assert(false);
    } else {
        let zx2 = fmul(zx, zx);
        let zy2 = fmul(zy, zy);
        if !(zx2 + zy2 > 4 * ONE) {
            lemma_escape_stable(
                cx,
                cy,
                zx2 - zy2 + cx,
                2 * fmul(zx, zy) + cy,
                (it + 1) as nat,
                m1,
                m2,
            );
        }
    }
}

/// Renderer law: for a fixed escaping point, the smooth iteration count
/// is monotonically non-decreasing in the iteration cap (indeed it is
/// unchanged once the point has escaped).
pub proof fn lemma_smooth_monotone(cx: int, cy: int, m1: nat, m2: nat)
    requires
        m1 <= m2,
        spec_escape(cx, cy, 0, 0, 0, m1).0 < m1,
    ensures
        ({
            let r1 = spec_escape(cx, cy, 0, 0, 0, m1);
            let r2 = spec_escape(cx, cy, 0, 0, 0, m2);
            spec_smooth(r2.0 as int, r2.1, r2.2) >= spec_smooth(r1.0 as int, r1.1, r1.2)
        }),
{
    lemma_escape_stable(cx, cy, 0, 0, 0, m1, m2);
}

} // verus!
