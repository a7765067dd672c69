//! The scalar-field grid generators: for every time frame, a closed-form
//! function of cell coordinates and time filled into a full grid of
//! colors.  Each generator's cell formula has an exact fixed-point spec,
//! and every frame of every animation is pinned to it cell by cell.

use vstd::prelude::*;

verus! {

use crate::fixed::{ONE, HALF, PI, TAU, sdiv, fmul, div_trunc, mod_euclid, fx_mul, fx_sqrt, isqrt64, isqrt_spec, fsqrt, lemma_sdiv_bound, lemma_fmul_bound};
use crate::trig::{fsin, fcos, sin_fx, cos_fx};
use crate::shapes::{Rgb, Point2D};
use vstd::arithmetic::div_mod::{lemma_div_is_ordered, lemma_div_is_ordered_by_denominator, lemma_div_by_multiple, lemma_div_pos_is_pos};

/// The time range swept by the heat-map animation: twenty half-turns.
pub const HEAT_RANGE: i64 = 10 * TAU;

/// The time range swept by the interference animation: two full turns.
pub const INTERFERENCE_RANGE: i64 = 2 * TAU;

/// The time range swept by the cellular and vector-field animations.
pub const FULL_TURN: i64 = TAU;

/// A color value equals a spec component triple.
pub open spec fn rgb_is(c: Rgb, t: (int, int, int)) -> bool {
    c.r == t.0 && c.g == t.1 && c.b == t.2
}

/// Time value of frame `i` out of `frames`, sweeping `[0, range]`.
pub open spec fn frame_time(i: int, frames: int, range: int) -> int {
    sdiv(range * i, frames)
}

/// Executable frame time.
pub fn time_of(i: usize, frames: usize, range: i64) -> (t: i64)
    requires
        1 <= frames <= 100000,
        i <= frames,
        0 <= range <= 0x1000_0000,
    ensures
        t == frame_time(i as int, frames as int, range as int),
        0 <= t <= range,
{
    proof {
        assert(0 <= (range as int) * (i as int) <= (range as int) * (frames as int))
            by (nonlinear_arith)
            requires
                0 <= i <= frames,
                0 <= range,
        ;
        assert((range as int) * (frames as int) <= 0x1000_0000 * 100000) by (nonlinear_arith)
            requires
                0 <= range <= 0x1000_0000,
                0 <= frames <= 100000,
        ;
    }
    let t = div_trunc(range * (i as i64), frames as i64);
    proof {
        lemma_div_is_ordered((range as int) * (i as int), (range as int) * (frames as int),
            frames as int);
        lemma_div_by_multiple(range as int, frames as int);
    }
    t
}

/// The heat-map cell formula: a radial sine interference pattern from
/// the grid's midpoint, with a slowly modulated spatial frequency.
pub open spec fn spec_heat_cell(w: int, h: int, t: int, x: int, y: int) -> (int, int, int) {
    let mx = w / 2;
    let my = h / 2;
    let dd = (mx - x) * (mx - x) + (my - y) * (my - y);
    let dist = isqrt_spec(((dd * ONE) * ONE) as nat) as int;
    let maxd = (if mx >= my {
        mx
    } else {
        my
    }) * ONE;
    let a = fsin(sdiv(t, 10));
    let b = fmul(60 * (ONE as int), a);
    let c = fmul(b, PI as int);
    let d2 = fmul(c, dist);
    let e = sdiv(d2 * ONE, maxd);
    (ONE as int, ONE - sdiv(dist * ONE, maxd), fsin(-t + e))
}

/// A frame is a grid of `h` rows of `w` cells, each matching the
/// heat-map formula at the frame's time.
pub open spec fn heat_frame_ok(g: Vec<Vec<Rgb>>, w: int, h: int, t: int) -> bool {
    &&& g@.len() == h
    &&& forall|y: int| 0 <= y < h ==> (#[trigger] g@[y])@.len() == w
    &&& forall|y: int, x: int|
        #![trigger g@[y]@[x]]
        0 <= y < h && 0 <= x < w ==> rgb_is(g@[y]@[x], spec_heat_cell(w, h, t, x, y))
}

/// One heat-map cell.
fn heat_cell(width: usize, height: usize, t: i64, x: usize, y: usize) -> (c: Rgb)
    requires
        2 <= width <= 2048,
        2 <= height <= 2048,
        x < width,
        y < height,
        -0x1000_0000_0000 <= t <= 0x1000_0000_0000,
    ensures
        rgb_is(c, spec_heat_cell(width as int, height as int, t as int, x as int, y as int)),
{
    let mx = (width / 2) as i64;
    let my = (height / 2) as i64;
    let dx = mx - (x as i64);
    let dy = my - (y as i64);
    proof {
        assert(0 <= dx * dx <= 2048 * 2048 && 0 <= dy * dy <= 2048 * 2048) by (nonlinear_arith)
            requires
                -2048 <= dx <= 2048,
                -2048 <= dy <= 2048,
        ;
    }
    let dd = dx * dx + dy * dy;
    let dist = isqrt64((((dd * ONE) * ONE) as u64)) as i64;
    proof {
        crate::fixed::lemma_isqrt_spec_bounds((((dd * ONE) * ONE)) as nat);
        assert(dist * dist <= (dd * ONE) * ONE <= 0x80_0000_0000_0000);
        assert(0 <= dist <= 0x1000_0000) by (nonlinear_arith)
            requires
                0 <= dist,
                dist * dist <= 0x80_0000_0000_0000,
        ;
    }
    let maxd = (if mx >= my {
        mx
    } else {
        my
    }) * ONE;
    let a = sin_fx(div_trunc(t, 10));
    let b = fx_mul(60 * ONE, a);
    proof {
        lemma_sdiv_bound((60 * (ONE as int)) * (a as int), ONE as int, 257698037760);
        assert(-3932160 <= b <= 3932160);
        lemma_fmul_bound(b as int, PI as int, 3932160, 205888);
    }
    let c = fx_mul(b, PI);
    proof {
        lemma_fmul_bound(c as int, dist as int, 12353280, 0x1000_0000);
    }
    let d2 = fx_mul(c, dist);
    let e = div_trunc(d2 * ONE, maxd);
    let green = ONE - div_trunc(dist * ONE, maxd);
    let inten = sin_fx(-t + e);
    Rgb { r: ONE, g: green, b: inten }
}

/// One frame of the heat map.
pub fn heat_map_frame(width: usize, height: usize, t: i64) -> (g: Vec<Vec<Rgb>>)
    requires
        2 <= width <= 2048,
        2 <= height <= 2048,
        -0x1000_0000_0000 <= t <= 0x1000_0000_0000,
    ensures
        heat_frame_ok(g, width as int, height as int, t as int),
{
    let mut g: Vec<Vec<Rgb>> = Vec::new();
    let mut y: usize = 0;
    while y < height
        invariant
            2 <= width <= 2048,
            2 <= height <= 2048,
            -0x1000_0000_0000 <= t <= 0x1000_0000_0000,
            0 <= y <= height,
            g@.len() == y,
            forall|yy: int| 0 <= yy < y ==> (#[trigger] g@[yy])@.len() == width,
            forall|yy: int, x: int|
                #![trigger g@[yy]@[x]]
                0 <= yy < y && 0 <= x < width ==> rgb_is(
                    g@[yy]@[x],
                    spec_heat_cell(width as int, height as int, t as int, x, yy),
                ),
        decreases height - y,
    {
        let mut row: Vec<Rgb> = Vec::new();
        let mut x: usize = 0;
        while x < width
            invariant
                2 <= width <= 2048,
                2 <= height <= 2048,
                -0x1000_0000_0000 <= t <= 0x1000_0000_0000,
                y < height,
                0 <= x <= width,
                row@.len() == x,
                forall|xx: int|
                    #![trigger row@[xx]]
                    0 <= xx < x ==> rgb_is(
                        row@[xx],
                        spec_heat_cell(width as int, height as int, t as int, xx, y as int),
                    ),
            decreases width - x,
        {
            let c = heat_cell(width, height, t, x, y);
            row.push(c);
            x = x + 1;
        }
        g.push(row);
        y = y + 1;
    }
    g
}

/// The heat-map animation: `num_frames + 1` fully recomputed frames over
/// a twenty-half-turn time sweep.
pub fn heat_maps(width: usize, height: usize, num_frames: usize) -> (frames: Vec<Vec<Vec<Rgb>>>)
    requires
        2 <= width <= 2048,
        2 <= height <= 2048,
        1 <= num_frames <= 100000,
    ensures
        frames@.len() == num_frames + 1,
        forall|f: int|
            0 <= f <= num_frames ==> heat_frame_ok(
                #[trigger] frames@[f],
                width as int,
                height as int,
                frame_time(f, num_frames as int, HEAT_RANGE as int),
            ),
{
    let mut frames: Vec<Vec<Vec<Rgb>>> = Vec::new();
    let mut i: usize = 0;
    while i <= num_frames
        invariant
            2 <= width <= 2048,
            2 <= height <= 2048,
            1 <= num_frames <= 100000,
            0 <= i <= num_frames + 1,
            frames@.len() == i,
            forall|f: int|
                0 <= f < i ==> heat_frame_ok(
                    #[trigger] frames@[f],
                    width as int,
                    height as int,
                    frame_time(f, num_frames as int, HEAT_RANGE as int),
                ),
        decreases num_frames + 1 - i,
    {
        let t = time_of(i, num_frames, HEAT_RANGE);
        let g = heat_map_frame(width, height, t);
        frames.push(g);
        i = i + 1;
    }
    frames
}

/// One wave source's contribution to an interference cell: a sine of
/// the source distance, damped with distance.
pub open spec fn interference_term(sx: int, sy: int, x: int, y: int, t: int) -> int {
    let dx = x * ONE - sx;
    let dy = y * ONE - sy;
    let dist = isqrt_spec((dx * dx + dy * dy) as nat) as int;
    sdiv(fsin(sdiv(dist, 10) - t) * ONE, ONE + sdiv(dist, 20))
}

/// Sum of the first `k` sources' contributions.
pub open spec fn interference_sum(srcs: Seq<Point2D>, k: int, x: int, y: int, t: int) -> int
    decreases k,
{
    if k <= 0 {
        0
    } else {
        interference_sum(srcs, k - 1, x, y, t) + interference_term(
            srcs[k - 1].x as int,
            srcs[k - 1].y as int,
            x,
            y,
            t,
        )
    }
}

/// The interference cell formula: superposed circular waves, normalized
/// into `[0, 1]`, with a complementary green and a cycling blue.
pub open spec fn spec_interference_cell(srcs: Seq<Point2D>, x: int, y: int, t: int) -> (
    int,
    int,
    int,
) {
    let raw = interference_sum(srcs, srcs.len() as int, x, y, t);
    let inten = sdiv(raw, 2) + HALF;
    (inten, ONE - inten, sdiv(fsin(fmul(inten, TAU as int)), 2) + HALF)
}

/// An acceptable set of wave sources: few enough to sum and within the
/// coordinate range.
pub open spec fn sources_ok(srcs: Seq<Point2D>) -> bool {
    &&& srcs.len() <= 64
    &&& forall|i: int|
        0 <= i < srcs.len() ==> -0x1000_0000 <= (#[trigger] srcs[i]).x <= 0x1000_0000
            && -0x1000_0000 <= srcs[i].y <= 0x1000_0000
}

/// A frame of the interference grid matches the formula cell by cell.
pub open spec fn interference_frame_ok(
    g: Vec<Vec<Rgb>>,
    srcs: Seq<Point2D>,
    w: int,
    h: int,
    t: int,
) -> bool {
    &&& g@.len() == h
    &&& forall|y: int| 0 <= y < h ==> (#[trigger] g@[y])@.len() == w
    &&& forall|y: int, x: int|
        #![trigger g@[y]@[x]]
        0 <= y < h && 0 <= x < w ==> rgb_is(g@[y]@[x], spec_interference_cell(srcs, x, y, t))
}

/// One source's executable contribution.
fn interference_term_fx(sx: i64, sy: i64, x: usize, y: usize, t: i64) -> (r: i64)
    requires
        -0x1000_0000 <= sx <= 0x1000_0000,
        -0x1000_0000 <= sy <= 0x1000_0000,
        x <= 2048,
        y <= 2048,
        -0x1000_0000_0000 <= t <= 0x1000_0000_0000,
    ensures
        r == interference_term(sx as int, sy as int, x as int, y as int, t as int),
        -ONE <= r <= ONE,
{
    let dx = (x as i64) * ONE - sx;
    let dy = (y as i64) * ONE - sy;
    proof {
        assert(0 <= dx * dx <= 0x400_0000_0000_0000 && 0 <= dy * dy <= 0x400_0000_0000_0000)
            by (nonlinear_arith)
            requires
                -0x2000_0000 <= dx <= 0x2000_0000,
                -0x2000_0000 <= dy <= 0x2000_0000,
        ;
    }
    let dist = isqrt64((dx * dx + dy * dy) as u64) as i64;
    let den = ONE + div_trunc(dist, 20);
    let s = sin_fx(div_trunc(dist, 10) - t);
    let r = div_trunc(s * ONE, den);
    proof {
        lemma_sdiv_bound((s as int) * (ONE as int), den as int, 4294967296);
        lemma_div_is_ordered_by_denominator(4294967296, ONE as int, den as int);
    }
    r
}

/// One interference cell.
fn interference_cell(sources: &Vec<Point2D>, x: usize, y: usize, t: i64) -> (c: Rgb)
    requires
        sources_ok(sources@),
        x <= 2048,
        y <= 2048,
        -0x1000_0000_0000 <= t <= 0x1000_0000_0000,
    ensures
        rgb_is(c, spec_interference_cell(sources@, x as int, y as int, t as int)),
{
    let mut acc: i64 = 0;
    let mut k: usize = 0;
    while k < sources.len()
        invariant
            sources_ok(sources@),
            x <= 2048,
            y <= 2048,
            -0x1000_0000_0000 <= t <= 0x1000_0000_0000,
            0 <= k <= sources@.len(),
            acc == interference_sum(sources@, k as int, x as int, y as int, t as int),
            -(k as int) * (ONE as int) <= acc <= (k as int) * (ONE as int),
        decreases sources@.len() - k,
    {
        let src = sources[k];
        let term = interference_term_fx(src.x, src.y, x, y, t);
        acc = acc + term;
        k = k + 1;
    }
    let inten = div_trunc(acc, 2) + HALF;
    proof {
        lemma_sdiv_bound(acc as int, 2, 64 * (ONE as int));
        lemma_fmul_bound(inten as int, TAU as int, 4227072, 411776);
    }
    let blue = div_trunc(sin_fx(fx_mul(inten, TAU)), 2) + HALF;
    Rgb { r: inten, g: ONE - inten, b: blue }
}

/// One frame of the interference grid.
pub fn interference_frame(sources: &Vec<Point2D>, width: usize, height: usize, t: i64) -> (g: Vec<
    Vec<Rgb>,
>)
    requires
        sources_ok(sources@),
        1 <= width <= 2048,
        1 <= height <= 2048,
        -0x1000_0000_0000 <= t <= 0x1000_0000_0000,
    ensures
        interference_frame_ok(g, sources@, width as int, height as int, t as int),
{
    let mut g: Vec<Vec<Rgb>> = Vec::new();
    let mut y: usize = 0;
    while y < height
        invariant
            sources_ok(sources@),
            1 <= width <= 2048,
            1 <= height <= 2048,
            -0x1000_0000_0000 <= t <= 0x1000_0000_0000,
            0 <= y <= height,
            g@.len() == y,
            forall|yy: int| 0 <= yy < y ==> (#[trigger] g@[yy])@.len() == width,
            forall|yy: int, x: int|
                #![trigger g@[yy]@[x]]
                0 <= yy < y && 0 <= x < width ==> rgb_is(
                    g@[yy]@[x],
                    spec_interference_cell(sources@, x, yy, t as int),
                ),
        decreases height - y,
    {
        let mut row: Vec<Rgb> = Vec::new();
        let mut x: usize = 0;
        while x < width
            invariant
                sources_ok(sources@),
                1 <= width <= 2048,
                1 <= height <= 2048,
                -0x1000_0000_0000 <= t <= 0x1000_0000_0000,
                y < height,
                0 <= x <= width,
                row@.len() == x,
                forall|xx: int|
                    #![trigger row@[xx]]
                    0 <= xx < x ==> rgb_is(
                        row@[xx],
                        spec_interference_cell(sources@, xx, y as int, t as int),
                    ),
            decreases width - x,
        {
            let c = interference_cell(sources, x, y, t);
            row.push(c);
            x = x + 1;
        }
        g.push(row);
        y = y + 1;
    }
    g
}

/// The interference animation: rippling waves from the given sources,
/// over a two-full-turn time sweep.
pub fn interference_grid(
    width: usize,
    height: usize,
    num_frames: usize,
    sources: &Vec<Point2D>,
) -> (frames: Vec<Vec<Vec<Rgb>>>)
    requires
        sources_ok(sources@),
        1 <= width <= 2048,
        1 <= height <= 2048,
        1 <= num_frames <= 100000,
    ensures
        frames@.len() == num_frames + 1,
        forall|f: int|
            0 <= f <= num_frames ==> interference_frame_ok(
                #[trigger] frames@[f],
                sources@,
                width as int,
                height as int,
                frame_time(f, num_frames as int, INTERFERENCE_RANGE as int),
            ),
{
    let mut frames: Vec<Vec<Vec<Rgb>>> = Vec::new();
    let mut i: usize = 0;
    while i <= num_frames
        invariant
            sources_ok(sources@),
            1 <= width <= 2048,
            1 <= height <= 2048,
            1 <= num_frames <= 100000,
            0 <= i <= num_frames + 1,
            frames@.len() == i,
            forall|f: int|
                0 <= f < i ==> interference_frame_ok(
                    #[trigger] frames@[f],
                    sources@,
                    width as int,
                    height as int,
                    frame_time(f, num_frames as int, INTERFERENCE_RANGE as int),
                ),
        decreases num_frames + 1 - i,
    {
        let t = time_of(i, num_frames, INTERFERENCE_RANGE);
        let g = interference_frame(sources, width, height, t);
        frames.push(g);
        i = i + 1;
    }
    frames
}

/// 2*pi/3 in fixed-point units: the hue offset between the three
/// cellular color channels.
pub const THIRD_TAU: i64 = 137259;

/// The cellular cell formula: a tiled trigonometric pattern with hue
/// cycling, on 20-pixel cells.
pub open spec fn spec_cellular_cell(t: int, x: int, y: int) -> (int, int, int) {
    let xc = x / 20;
    let yc = y / 20;
    let pattern = fmul(fsin((xc + yc) * ONE + 5 * t), fcos(sdiv((xc * yc) * ONE, 10) + 2 * t));
    let hue = fmul(sdiv(pattern, 2) + HALF, TAU as int);
    (
        sdiv(fsin(hue), 2) + HALF,
        sdiv(fsin(hue + THIRD_TAU), 2) + HALF,
        sdiv(fsin(hue + 2 * THIRD_TAU), 2) + HALF,
    )
}

/// A frame of the cellular grid matches the formula cell by cell.
pub open spec fn cellular_frame_ok(g: Vec<Vec<Rgb>>, w: int, h: int, t: int) -> bool {
    &&& g@.len() == h
    &&& forall|y: int| 0 <= y < h ==> (#[trigger] g@[y])@.len() == w
    &&& forall|y: int, x: int|
        #![trigger g@[y]@[x]]
        0 <= y < h && 0 <= x < w ==> rgb_is(g@[y]@[x], spec_cellular_cell(t, x, y))
}

/// One cellular cell.
fn cellular_cell(t: i64, x: usize, y: usize) -> (c: Rgb)
    requires
        x <= 2048,
        y <= 2048,
        -0x1000_0000_0000 <= t <= 0x1000_0000_0000,
    ensures
        rgb_is(c, spec_cellular_cell(t as int, x as int, y as int)),
{
    let xc = (x / 20) as i64;
    let yc = (y / 20) as i64;
    proof {
        assert(0 <= xc * yc <= 10404) by (nonlinear_arith)
            requires
                0 <= xc <= 102,
                0 <= yc <= 102,
        ;
    }
    let s1 = sin_fx((xc + yc) * ONE + 5 * t);
    let c1 = cos_fx(div_trunc((xc * yc) * ONE, 10) + 2 * t);
    proof {
        lemma_fmul_bound(s1 as int, c1 as int, ONE as int, ONE as int);
    }
    let pattern = fx_mul(s1, c1);
    proof {
        lemma_sdiv_bound(pattern as int, 2, ONE as int);
        lemma_fmul_bound(
            sdiv(pattern as int, 2) + HALF,
            TAU as int,
            ONE as int,
            TAU as int,
        );
    }
    let hue = fx_mul(div_trunc(pattern, 2) + HALF, TAU);
    let r = div_trunc(sin_fx(hue), 2) + HALF;
    let gg = div_trunc(sin_fx(hue + THIRD_TAU), 2) + HALF;
    let b = div_trunc(sin_fx(hue + 2 * THIRD_TAU), 2) + HALF;
    Rgb { r, g: gg, b }
}

/// One frame of the cellular grid.
pub fn cellular_frame(width: usize, height: usize, t: i64) -> (g: Vec<Vec<Rgb>>)
    requires
        1 <= width <= 2048,
        1 <= height <= 2048,
        -0x1000_0000_0000 <= t <= 0x1000_0000_0000,
    ensures
        cellular_frame_ok(g, width as int, height as int, t as int),
{
    let mut g: Vec<Vec<Rgb>> = Vec::new();
    let mut y: usize = 0;
    while y < height
        invariant
            1 <= width <= 2048,
            1 <= height <= 2048,
            -0x1000_0000_0000 <= t <= 0x1000_0000_0000,
            0 <= y <= height,
            g@.len() == y,
            forall|yy: int| 0 <= yy < y ==> (#[trigger] g@[yy])@.len() == width,
            forall|yy: int, x: int|
                #![trigger g@[yy]@[x]]
                0 <= yy < y && 0 <= x < width ==> rgb_is(
                    g@[yy]@[x],
                    spec_cellular_cell(t as int, x, yy),
                ),
        decreases height - y,
    {
        let mut row: Vec<Rgb> = Vec::new();
        let mut x: usize = 0;
        while x < width
            invariant
                1 <= width <= 2048,
                1 <= height <= 2048,
                -0x1000_0000_0000 <= t <= 0x1000_0000_0000,
                y < height,
                0 <= x <= width,
                row@.len() == x,
                forall|xx: int|
                    #![trigger row@[xx]]
                    0 <= xx < x ==> rgb_is(row@[xx], spec_cellular_cell(t as int, xx, y as int)),
            decreases width - x,
        {
            let c = cellular_cell(t, x, y);
            row.push(c);
            x = x + 1;
        }
        g.push(row);
        y = y + 1;
    }
    g
}

/// The cellular animation over one full turn.
pub fn cellular_grid(width: usize, height: usize, num_frames: usize) -> (frames: Vec<
    Vec<Vec<Rgb>>,
>)
    requires
        1 <= width <= 2048,
        1 <= height <= 2048,
        1 <= num_frames <= 100000,
    ensures
        frames@.len() == num_frames + 1,
        forall|f: int|
            0 <= f <= num_frames ==> cellular_frame_ok(
                #[trigger] frames@[f],
                width as int,
                height as int,
                frame_time(f, num_frames as int, FULL_TURN as int),
            ),
{
    let mut frames: Vec<Vec<Vec<Rgb>>> = Vec::new();
    let mut i: usize = 0;
    while i <= num_frames
        invariant
            1 <= width <= 2048,
            1 <= height <= 2048,
            1 <= num_frames <= 100000,
            0 <= i <= num_frames + 1,
            frames@.len() == i,
            forall|f: int|
                0 <= f < i ==> cellular_frame_ok(
                    #[trigger] frames@[f],
                    width as int,
                    height as int,
                    frame_time(f, num_frames as int, FULL_TURN as int),
                ),
        decreases num_frames + 1 - i,
    {
        let t = time_of(i, num_frames, FULL_TURN);
        let g = cellular_frame(width, height, t);
        frames.push(g);
        i = i + 1;
    }
    frames
}

/// The vector-field cell formula: a flow angle from a sine of the
/// normalized coordinates, its alignment with the position, and a
/// radial phase.
pub open spec fn spec_vector_field_cell(w: int, h: int, t: int, x: int, y: int) -> (
    int,
    int,
    int,
) {
    let xn = sdiv(x * ONE, w) - HALF;
    let yn = sdiv(y * ONE, h) - HALF;
    let angle = fmul(fsin(10 * fmul(xn, yn) + t), PI as int);
    let fxv = fcos(angle);
    let fyv = fsin(angle);
    let inten = sdiv(fsin(4 * (fmul(xn, fxv) + fmul(yn, fyv)) + 2 * t), 2) + HALF;
    let mag = fsqrt(fmul(xn, xn) + fmul(yn, yn));
    let phase = sdiv(fsin(10 * mag - 3 * t), 2) + HALF;
    (inten, phase, sdiv(inten + phase, 2))
}

/// A frame of the vector-field grid matches the formula cell by cell.
pub open spec fn vector_field_frame_ok(g: Vec<Vec<Rgb>>, w: int, h: int, t: int) -> bool {
    &&& g@.len() == h
    &&& forall|y: int| 0 <= y < h ==> (#[trigger] g@[y])@.len() == w
    &&& forall|y: int, x: int|
        #![trigger g@[y]@[x]]
        0 <= y < h && 0 <= x < w ==> rgb_is(g@[y]@[x], spec_vector_field_cell(w, h, t, x, y))
}

/// One vector-field cell.
fn vector_field_cell(width: usize, height: usize, t: i64, x: usize, y: usize) -> (c: Rgb)
    requires
        1 <= width <= 2048,
        1 <= height <= 2048,
        x < width,
        y < height,
        -0x1000_0000_0000 <= t <= 0x1000_0000_0000,
    ensures
        rgb_is(c, spec_vector_field_cell(width as int, height as int, t as int, x as int, y as int)),
{
    let xn = div_trunc((x as i64) * ONE, width as i64) - HALF;
    let yn = div_trunc((y as i64) * ONE, height as i64) - HALF;
    proof {
        lemma_div_is_ordered((x as int) * (ONE as int), (width as int) * (ONE as int),
            width as int);
        lemma_div_by_multiple(ONE as int, width as int);
        assert((width as int) * (ONE as int) == (ONE as int) * (width as int)) by (nonlinear_arith);
        lemma_div_is_ordered((y as int) * (ONE as int), (height as int) * (ONE as int),
            height as int);
        lemma_div_by_multiple(ONE as int, height as int);
        assert((height as int) * (ONE as int) == (ONE as int) * (height as int))
            by (nonlinear_arith);
        assert(-(ONE as int) <= xn <= ONE && -(ONE as int) <= yn <= ONE);
        lemma_fmul_bound(xn as int, yn as int, ONE as int, ONE as int);
    }
    let angle_arg = 10 * fx_mul(xn, yn) + t;
    let angle_s = sin_fx(angle_arg);
    proof {
        lemma_fmul_bound(angle_s as int, PI as int, ONE as int, PI as int);
    }
    let angle = fx_mul(angle_s, PI);
    let fxv = cos_fx(angle);
    let fyv = sin_fx(angle);
    proof {
        lemma_fmul_bound(xn as int, fxv as int, ONE as int, ONE as int);
        lemma_fmul_bound(yn as int, fyv as int, ONE as int, ONE as int);
        lemma_fmul_bound(xn as int, xn as int, ONE as int, ONE as int);
        lemma_fmul_bound(yn as int, yn as int, ONE as int, ONE as int);
        assert(0 <= (xn as int) * (xn as int) && 0 <= (yn as int) * (yn as int))
            by (nonlinear_arith);
        crate::fixed::lemma_sdiv_bound((xn as int) * (xn as int), ONE as int, 4294967296);
        crate::fixed::lemma_sdiv_bound((yn as int) * (yn as int), ONE as int, 4294967296);
    }
    let inten = div_trunc(sin_fx(4 * (fx_mul(xn, fxv) + fx_mul(yn, fyv)) + 2 * t), 2) + HALF;
    let mag = fx_sqrt(fx_mul(xn, xn) + fx_mul(yn, yn));
    let phase = div_trunc(sin_fx(10 * mag - 3 * t), 2) + HALF;
    Rgb { r: inten, g: phase, b: div_trunc(inten + phase, 2) }
}

/// One frame of the vector-field grid.
pub fn vector_field_frame(width: usize, height: usize, t: i64) -> (g: Vec<Vec<Rgb>>)
    requires
        1 <= width <= 2048,
        1 <= height <= 2048,
        -0x1000_0000_0000 <= t <= 0x1000_0000_0000,
    ensures
        vector_field_frame_ok(g, width as int, height as int, t as int),
{
    let mut g: Vec<Vec<Rgb>> = Vec::new();
    let mut y: usize = 0;
    while y < height
        invariant
            1 <= width <= 2048,
            1 <= height <= 2048,
            -0x1000_0000_0000 <= t <= 0x1000_0000_0000,
            0 <= y <= height,
            g@.len() == y,
            forall|yy: int| 0 <= yy < y ==> (#[trigger] g@[yy])@.len() == width,
            forall|yy: int, x: int|
                #![trigger g@[yy]@[x]]
                0 <= yy < y && 0 <= x < width ==> rgb_is(
                    g@[yy]@[x],
                    spec_vector_field_cell(width as int, height as int, t as int, x, yy),
                ),
        decreases height - y,
    {
        let mut row: Vec<Rgb> = Vec::new();
        let mut x: usize = 0;
        while x < width
            invariant
                1 <= width <= 2048,
                1 <= height <= 2048,
                -0x1000_0000_0000 <= t <= 0x1000_0000_0000,
                y < height,
                0 <= x <= width,
                row@.len() == x,
                forall|xx: int|
                    #![trigger row@[xx]]
                    0 <= xx < x ==> rgb_is(
                        row@[xx],
                        spec_vector_field_cell(width as int, height as int, t as int, xx, y as int),
                    ),
            decreases width - x,
        {
            let c = vector_field_cell(width, height, t, x, y);
            row.push(c);
            x = x + 1;
        }
        g.push(row);
        y = y + 1;
    }
    g
}

/// The flowing vector-field animation over one full turn.
pub fn vector_field_grid(width: usize, height: usize, num_frames: usize) -> (frames: Vec<
    Vec<Vec<Rgb>>,
>)
    requires
        1 <= width <= 2048,
        1 <= height <= 2048,
        1 <= num_frames <= 100000,
    ensures
        frames@.len() == num_frames + 1,
        forall|f: int|
            0 <= f <= num_frames ==> vector_field_frame_ok(
                #[trigger] frames@[f],
                width as int,
                height as int,
                frame_time(f, num_frames as int, FULL_TURN as int),
            ),
{
    let mut frames: Vec<Vec<Vec<Rgb>>> = Vec::new();
    let mut i: usize = 0;
    while i <= num_frames
        invariant
            1 <= width <= 2048,
            1 <= height <= 2048,
            1 <= num_frames <= 100000,
            0 <= i <= num_frames + 1,
            frames@.len() == i,
            forall|f: int|
                0 <= f < i ==> vector_field_frame_ok(
                    #[trigger] frames@[f],
                    width as int,
                    height as int,
                    frame_time(f, num_frames as int, FULL_TURN as int),
                ),
        decreases num_frames + 1 - i,
    {
        let t = time_of(i, num_frames, FULL_TURN);
        let g = vector_field_frame(width, height, t);
        frames.push(g);
        i = i + 1;
    }
    frames
}


} // verus!
