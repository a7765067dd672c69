//! The closed-form 3D point-cloud generators: parametric surfaces swept
//! over coordinate grids, static or animated over a time sequence, each
//! frame fully recomputed.  Frames are flat point sequences; the
//! contract pins every point through a row-major index.

use vstd::prelude::*;

verus! {

use crate::fixed::{ONE, HALF, HALF_PI, PI, TAU, sdiv, fmul, div_trunc, fx_mul, fx_sqrt, fsqrt, lemma_sdiv_bound, lemma_fmul_bound, lemma_fmul_contract};
use crate::trig::{fsin, fcos, fatan2, sin_fx, cos_fx, atan2_fx};
use crate::explog::{fexp, exp_fx};
use crate::coords::{vector, linspace_at, lemma_linspace_range};
use crate::shapes::Point3D;
use vstd::arithmetic::div_mod::{lemma_div_is_ordered, lemma_div_is_ordered_by_denominator, lemma_div_by_multiple};

/// Five half-turns: the planar coordinate range of the room surfaces.
pub const FIVE_PI: i64 = 5 * PI;

/// Where the room offset sweep begins (one tenth).
pub const OFFSET_START: i64 = 6554;

/// Where the room offset sweep ends (one hundred half-turns).
pub const OFFSET_END: i64 = 100 * PI;

/// The torus's major radius (ten).
pub const TORUS_R: i64 = 10 * ONE;

/// A point value equals a spec component triple.
pub open spec fn point_is(p: Point3D, t: (int, int, int)) -> bool {
    p.x == t.0 && p.y == t.1 && p.z == t.2
}

/// Row-major index of a two-level sweep.
pub open spec fn idx2(a: int, b: int, m: int) -> int {
    a * m + b
}

/// Row-major index of a three-level sweep.
pub open spec fn idx3(a: int, b: int, c: int, m2: int, m3: int) -> int {
    (a * m2 + b) * m3 + c
}

/// Lexicographic order of pairs maps to index order.
proof fn lemma_idx2_lex(a: int, b: int, i: int, j: int, m: int)
    requires
        0 <= b < m,
        0 <= j <= m,
        0 <= a,
        a < i || (a == i && b < j),
    ensures
        0 <= idx2(a, b, m) < idx2(i, j, m),
{
    assert(0 <= a * m + b < i * m + j) by (nonlinear_arith)
        requires
            0 <= b < m,
            0 <= j <= m,
            0 <= a,
            a < i || (a == i && b < j),
    ;
}

/// A full row rolls over into the start of the next row.
proof fn lemma_idx2_roll(i: int, m: int)
    ensures
        idx2(i, m, m) == idx2(i + 1, 0, m),
{
    assert(i * m + m == (i + 1) * m) by (nonlinear_arith);
}

/// Lexicographic order of triples maps to index order.
proof fn lemma_idx3_lex(a: int, b: int, c: int, i: int, j: int, l: int, m2: int, m3: int)
    requires
        0 <= b < m2,
        0 <= c < m3,
        0 <= j <= m2,
        0 <= l <= m3,
        0 <= a,
        a < i || (a == i && b < j) || (a == i && b == j && c < l),
    ensures
        0 <= idx3(a, b, c, m2, m3) < idx3(i, j, l, m2, m3),
{
    assert(0 <= (a * m2 + b) * m3 + c < (i * m2 + j) * m3 + l) by (nonlinear_arith)
        requires
            0 <= b < m2,
            0 <= c < m3,
            0 <= j <= m2,
            0 <= l <= m3,
            0 <= a,
            a < i || (a == i && b < j) || (a == i && b == j && c < l),
    ;
}

/// Roll-overs of the three-level index.
proof fn lemma_idx3_roll(i: int, j: int, m2: int, m3: int)
    ensures
        idx3(i, j, m3, m2, m3) == idx3(i, j + 1, 0, m2, m3),
        idx3(i, m2, 0, m2, m3) == idx3(i + 1, 0, 0, m2, m3),
{
    assert((i * m2 + j) * m3 + m3 == (i * m2 + j + 1) * m3) by (nonlinear_arith);
    assert((i * m2 + m2) * m3 == ((i + 1) * m2) * m3) by (nonlinear_arith);
}

/// The room surface's height: a product of two sines, one of the offset
/// alone and one shifted by the planar distance.
pub open spec fn spec_room_point(off: int, x: int, y: int) -> (int, int, int) {
    (
        x,
        y,
        fmul(fmul(3 * (ONE as int), fsin(off)), fsin(off + fsqrt(fmul(x, x) + fmul(y, y)))),
    )
}

/// One room point.
fn room_point(off: i64, x: i64, y: i64) -> (p: Point3D)
    requires
        -0x1000_0000 <= off <= 0x1000_0000,
        -FIVE_PI <= x <= FIVE_PI,
        -FIVE_PI <= y <= FIVE_PI,
    ensures
        point_is(p, spec_room_point(off as int, x as int, y as int)),
{
    proof {
        lemma_fmul_bound(x as int, x as int, FIVE_PI as int, FIVE_PI as int);
        lemma_fmul_bound(y as int, y as int, FIVE_PI as int, FIVE_PI as int);
        assert(0 <= (x as int) * (x as int) && 0 <= (y as int) * (y as int)) by (nonlinear_arith);
        lemma_div_is_ordered(0, (x as int) * (x as int), ONE as int);
        lemma_div_is_ordered(0, (y as int) * (y as int), ONE as int);
    }
    let d = fx_sqrt(fx_mul(x, x) + fx_mul(y, y));
    let s1 = sin_fx(off);
    let s2 = sin_fx(off + d);
    proof {
        lemma_fmul_bound(3 * (ONE as int), s1 as int, 3 * (ONE as int), ONE as int);
        lemma_fmul_bound(fmul(3 * (ONE as int), s1 as int), s2 as int, 3 * (ONE as int), ONE as int);
    }
    let amp = fx_mul(3 * ONE, s1);
    let z = fx_mul(amp, s2);
    Point3D { x, y, z }
}

/// A room frame matches the surface formula at every grid position.
pub open spec fn room_frame_ok(pts: Vec<Point3D>, res: int, off: int) -> bool {
    &&& pts@.len() == res * res
    &&& forall|a: int, b: int|
        #![trigger pts@[idx2(a, b, res)]]
        0 <= a < res && 0 <= b < res ==> point_is(
            pts@[idx2(a, b, res)],
            spec_room_point(
                off,
                linspace_at(res, -FIVE_PI as int, FIVE_PI as int, a),
                linspace_at(res, -FIVE_PI as int, FIVE_PI as int, b),
            ),
        )
}

/// The room-surface animation: one frame per offset value, each a full
/// planar sweep of the two-sine height field.
pub fn room_plot(resolution: usize, num_offsets: usize) -> (frames: Vec<Vec<Point3D>>)
    requires
        2 <= resolution <= 1024,
        2 <= num_offsets <= 100000,
    ensures
        frames@.len() == num_offsets,
        forall|f: int|
            0 <= f < num_offsets ==> room_frame_ok(
                #[trigger] frames@[f],
                resolution as int,
                linspace_at(num_offsets as int, OFFSET_START as int, OFFSET_END as int, f),
            ),
{
    let xs = vector(resolution, -FIVE_PI, FIVE_PI);
    let ys = vector(resolution, -FIVE_PI, FIVE_PI);
    let offsets = vector(num_offsets, OFFSET_START, OFFSET_END);
    let mut frames: Vec<Vec<Point3D>> = Vec::new();
    let mut f: usize = 0;
    while f < num_offsets
        invariant
            2 <= resolution <= 1024,
            2 <= num_offsets <= 100000,
            xs@.len() == resolution,
            ys@.len() == resolution,
            offsets@.len() == num_offsets,
            forall|k: int|
                0 <= k < resolution ==> #[trigger] xs@[k] == linspace_at(
                    resolution as int,
                    -FIVE_PI as int,
                    FIVE_PI as int,
                    k,
                ),
            forall|k: int|
                0 <= k < resolution ==> #[trigger] ys@[k] == linspace_at(
                    resolution as int,
                    -FIVE_PI as int,
                    FIVE_PI as int,
                    k,
                ),
            forall|k: int|
                0 <= k < num_offsets ==> #[trigger] offsets@[k] == linspace_at(
                    num_offsets as int,
                    OFFSET_START as int,
                    OFFSET_END as int,
                    k,
                ),
            0 <= f <= num_offsets,
            frames@.len() == f,
            forall|g: int|
                0 <= g < f ==> room_frame_ok(
                    #[trigger] frames@[g],
                    resolution as int,
                    linspace_at(num_offsets as int, OFFSET_START as int, OFFSET_END as int, g),
                ),
        decreases num_offsets - f,
    {
        let off = offsets[f];
        proof {
            lemma_linspace_range(
                num_offsets as int,
                OFFSET_START as int,
                OFFSET_END as int,
                f as int,
            );
        }
        let mut pts: Vec<Point3D> = Vec::new();
        let mut i: usize = 0;
        while i < resolution
            invariant
                2 <= resolution <= 1024,
                xs@.len() == resolution,
                ys@.len() == resolution,
                forall|k: int|
                    0 <= k < resolution ==> #[trigger] xs@[k] == linspace_at(
                        resolution as int,
                        -FIVE_PI as int,
                        FIVE_PI as int,
                        k,
                    ),
                forall|k: int|
                    0 <= k < resolution ==> #[trigger] ys@[k] == linspace_at(
                        resolution as int,
                        -FIVE_PI as int,
                        FIVE_PI as int,
                        k,
                    ),
                OFFSET_START <= off <= OFFSET_END,
                0 <= i <= resolution,
                pts@.len() == idx2(i as int, 0, resolution as int),
                forall|a: int, b: int|
                    #![trigger pts@[idx2(a, b, resolution as int)]]
                    0 <= a && 0 <= b < resolution && (a < i) ==> point_is(
                        pts@[idx2(a, b, resolution as int)],
                        spec_room_point(
                            off as int,
                            linspace_at(resolution as int, -FIVE_PI as int, FIVE_PI as int, a),
                            linspace_at(resolution as int, -FIVE_PI as int, FIVE_PI as int, b),
                        ),
                    ),
            decreases resolution - i,
        {
            let x = xs[i];
            proof {
                lemma_linspace_range(resolution as int, -FIVE_PI as int, FIVE_PI as int, i as int);
            }
            let mut j: usize = 0;
            while j < resolution
                invariant
                    2 <= resolution <= 1024,
                    ys@.len() == resolution,
                    forall|k: int|
                        0 <= k < resolution ==> #[trigger] ys@[k] == linspace_at(
                            resolution as int,
                            -FIVE_PI as int,
                            FIVE_PI as int,
                            k,
                        ),
                    OFFSET_START <= off <= OFFSET_END,
                    i < resolution,
                    -FIVE_PI <= x <= FIVE_PI,
                    x == linspace_at(resolution as int, -FIVE_PI as int, FIVE_PI as int, i as int),
                    0 <= j <= resolution,
                    pts@.len() == idx2(i as int, j as int, resolution as int),
                    forall|a: int, b: int|
                        #![trigger pts@[idx2(a, b, resolution as int)]]
                        0 <= a && 0 <= b < resolution && (a < i || (a == i && b < j)) ==> point_is(
                            pts@[idx2(a, b, resolution as int)],
                            spec_room_point(
                                off as int,
                                linspace_at(resolution as int, -FIVE_PI as int, FIVE_PI as int, a),
                                linspace_at(resolution as int, -FIVE_PI as int, FIVE_PI as int, b),
                            ),
                        ),
                decreases resolution - j,
            {
                let y = ys[j];
                proof {
                    lemma_linspace_range(
                        resolution as int,
                        -FIVE_PI as int,
                        FIVE_PI as int,
                        j as int,
                    );
                }
                let p = room_point(off, x, y);
                pts.push(p);
                proof {
                    assert forall|a: int, b: int|
                        0 <= a && 0 <= b < resolution && (a < i || (a == i && b < j
                            + 1)) implies point_is(
                        #[trigger] pts@[idx2(a, b, resolution as int)],
                        spec_room_point(
                            off as int,
                            linspace_at(resolution as int, -FIVE_PI as int, FIVE_PI as int, a),
                            linspace_at(resolution as int, -FIVE_PI as int, FIVE_PI as int, b),
                        ),
                    ) by {
                        if a == i && b == j {
                        } else {
                            lemma_idx2_lex(a, b, i as int, j as int, resolution as int);
                        }
                    }
                }
                j = j + 1;
            }
            proof {
                lemma_idx2_roll(i as int, resolution as int);
            }
            i = i + 1;
        }
        frames.push(pts);
        f = f + 1;
    }
    frames
}

/// The torus surface at a frame time: the minor radius breathes with
/// the frame's sine.
pub open spec fn spec_torus_point(ft: int, u: int, v: int) -> (int, int, int) {
    let r = 3 * (ONE as int) + fsin(ft);
    let rc = fmul(r, fcos(v));
    (
        fmul(TORUS_R + rc, fcos(u)),
        fmul(TORUS_R + rc, fsin(u)),
        fmul(r, fsin(v)),
    )
}

/// One torus point.
fn torus_point(ft: i64, u: i64, v: i64) -> (p: Point3D)
    requires
        -0x1000_0000 <= ft <= 0x1000_0000,
        -0x1000_0000 <= u <= 0x1000_0000,
        -0x1000_0000 <= v <= 0x1000_0000,
    ensures
        point_is(p, spec_torus_point(ft as int, u as int, v as int)),
{
    let r = 3 * ONE + sin_fx(ft);
    let cv = cos_fx(v);
    let sv = sin_fx(v);
    let cu = cos_fx(u);
    let su = sin_fx(u);
    proof {
        lemma_fmul_bound(r as int, cv as int, 4 * (ONE as int), ONE as int);
    }
    let rc = fx_mul(r, cv);
    proof {
        lemma_fmul_bound((TORUS_R + rc) as int, cu as int, 15 * (ONE as int), ONE as int);
        lemma_fmul_bound((TORUS_R + rc) as int, su as int, 15 * (ONE as int), ONE as int);
        lemma_fmul_bound(r as int, sv as int, 4 * (ONE as int), ONE as int);
    }
    Point3D { x: fx_mul(TORUS_R + rc, cu), y: fx_mul(TORUS_R + rc, su), z: fx_mul(r, sv) }
}

/// A torus frame matches the surface formula at every grid position.
pub open spec fn torus_frame_ok(pts: Vec<Point3D>, steps: int, ft: int) -> bool {
    &&& pts@.len() == steps * steps
    &&& forall|a: int, b: int|
        #![trigger pts@[idx2(a, b, steps)]]
        0 <= a < steps && 0 <= b < steps ==> point_is(
            pts@[idx2(a, b, steps)],
            spec_torus_point(
                ft,
                linspace_at(steps, 0, TAU as int, a),
                linspace_at(steps, 0, TAU as int, b),
            ),
        )
}

/// The animated torus: one frame per time sample, the minor radius
/// oscillating with the frame's sine.
pub fn animated_torus_plot(num_frames: usize, num_steps: usize) -> (frames: Vec<Vec<Point3D>>)
    requires
        2 <= num_frames <= 100000,
        2 <= num_steps <= 1024,
    ensures
        frames@.len() == num_frames,
        forall|f: int|
            0 <= f < num_frames ==> torus_frame_ok(
                #[trigger] frames@[f],
                num_steps as int,
                linspace_at(num_frames as int, 0, TAU as int, f),
            ),
{
    let frame_times = vector(num_frames, 0, TAU);
    let us = vector(num_steps, 0, TAU);
    let vs = vector(num_steps, 0, TAU);
    let mut frames: Vec<Vec<Point3D>> = Vec::new();
    let mut f: usize = 0;
    while f < num_frames
        invariant
            2 <= num_frames <= 100000,
            2 <= num_steps <= 1024,
            frame_times@.len() == num_frames,
            us@.len() == num_steps,
            vs@.len() == num_steps,
            forall|k: int|
                0 <= k < num_frames ==> #[trigger] frame_times@[k] == linspace_at(
                    num_frames as int,
                    0,
                    TAU as int,
                    k,
                ),
            forall|k: int|
                0 <= k < num_steps ==> #[trigger] us@[k] == linspace_at(
                    num_steps as int,
                    0,
                    TAU as int,
                    k,
                ),
            forall|k: int|
                0 <= k < num_steps ==> #[trigger] vs@[k] == linspace_at(
                    num_steps as int,
                    0,
                    TAU as int,
                    k,
                ),
            0 <= f <= num_frames,
            frames@.len() == f,
            forall|g: int|
                0 <= g < f ==> torus_frame_ok(
                    #[trigger] frames@[g],
                    num_steps as int,
                    linspace_at(num_frames as int, 0, TAU as int, g),
                ),
        decreases num_frames - f,
    {
        let ft = frame_times[f];
        proof {
            lemma_linspace_range(num_frames as int, 0, TAU as int, f as int);
        }
        let mut pts: Vec<Point3D> = Vec::new();
        let mut i: usize = 0;
        while i < num_steps
            invariant
                2 <= num_steps <= 1024,
                us@.len() == num_steps,
                vs@.len() == num_steps,
                forall|k: int|
                    0 <= k < num_steps ==> #[trigger] us@[k] == linspace_at(
                        num_steps as int,
                        0,
                        TAU as int,
                        k,
                    ),
                forall|k: int|
                    0 <= k < num_steps ==> #[trigger] vs@[k] == linspace_at(
                        num_steps as int,
                        0,
                        TAU as int,
                        k,
                    ),
                0 <= ft <= TAU,
                0 <= i <= num_steps,
                pts@.len() == idx2(i as int, 0, num_steps as int),
                forall|a: int, b: int|
                    #![trigger pts@[idx2(a, b, num_steps as int)]]
                    0 <= a && 0 <= b < num_steps && (a < i) ==> point_is(
                        pts@[idx2(a, b, num_steps as int)],
                        spec_torus_point(
                            ft as int,
                            linspace_at(num_steps as int, 0, TAU as int, a),
                            linspace_at(num_steps as int, 0, TAU as int, b),
                        ),
                    ),
            decreases num_steps - i,
        {
            let u = us[i];
            proof {
                lemma_linspace_range(num_steps as int, 0, TAU as int, i as int);
            }
            let mut j: usize = 0;
            while j < num_steps
                invariant
                    2 <= num_steps <= 1024,
                    vs@.len() == num_steps,
                    forall|k: int|
                        0 <= k < num_steps ==> #[trigger] vs@[k] == linspace_at(
                            num_steps as int,
                            0,
                            TAU as int,
                            k,
                        ),
                    0 <= ft <= TAU,
                    i < num_steps,
                    0 <= u <= TAU,
                    u == linspace_at(num_steps as int, 0, TAU as int, i as int),
                    0 <= j <= num_steps,
                    pts@.len() == idx2(i as int, j as int, num_steps as int),
                    forall|a: int, b: int|
                        #![trigger pts@[idx2(a, b, num_steps as int)]]
                        0 <= a && 0 <= b < num_steps && (a < i || (a == i && b < j)) ==> point_is(
                            pts@[idx2(a, b, num_steps as int)],
                            spec_torus_point(
                                ft as int,
                                linspace_at(num_steps as int, 0, TAU as int, a),
                                linspace_at(num_steps as int, 0, TAU as int, b),
                            ),
                        ),
                decreases num_steps - j,
            {
                let v = vs[j];
                proof {
                    lemma_linspace_range(num_steps as int, 0, TAU as int, j as int);
                }
                let p = torus_point(ft, u, v);
                pts.push(p);
                proof {
                    assert forall|a: int, b: int|
                        0 <= a && 0 <= b < num_steps && (a < i || (a == i && b < j
                            + 1)) implies point_is(
                        #[trigger] pts@[idx2(a, b, num_steps as int)],
                        spec_torus_point(
                            ft as int,
                            linspace_at(num_steps as int, 0, TAU as int, a),
                            linspace_at(num_steps as int, 0, TAU as int, b),
                        ),
                    ) by {
                        if a == i && b == j {
                        } else {
                            lemma_idx2_lex(a, b, i as int, j as int, num_steps as int);
                        }
                    }
                }
                j = j + 1;
            }
            proof {
                lemma_idx2_roll(i as int, num_steps as int);
            }
            i = i + 1;
        }
        frames.push(pts);
        f = f + 1;
    }
    frames
}

/// The Moebius strip: a band of the given width twisted once.
pub open spec fn spec_mobius_point(t: int, w: int) -> (int, int, int) {
    let hw = sdiv(w, 2);
    let c = fcos(t);
    let s = fsin(t);
    let base = (ONE as int) + sdiv(fmul(hw, c), 2);
    (fmul(base, c), fmul(base, s), sdiv(fmul(hw, s), 2))
}

/// One Moebius point.
fn mobius_point(t: i64, w: i64) -> (p: Point3D)
    requires
        -0x1000_0000 <= t <= 0x1000_0000,
        -ONE <= w <= ONE,
    ensures
        point_is(p, spec_mobius_point(t as int, w as int)),
{
    let hw = div_trunc(w, 2);
    let c = cos_fx(t);
    let s = sin_fx(t);
    proof {
        lemma_fmul_bound(hw as int, c as int, ONE as int, ONE as int);
        lemma_fmul_bound(hw as int, s as int, ONE as int, ONE as int);
    }
    let base = ONE + div_trunc(fx_mul(hw, c), 2);
    proof {
        lemma_fmul_bound(base as int, c as int, 2 * (ONE as int), ONE as int);
        lemma_fmul_bound(base as int, s as int, 2 * (ONE as int), ONE as int);
    }
    Point3D { x: fx_mul(base, c), y: fx_mul(base, s), z: div_trunc(fx_mul(hw, s), 2) }
}

/// The Moebius frame matches the band formula at every grid position.
pub open spec fn mobius_ok(pts: Vec<Point3D>, steps: int, num_w: int) -> bool {
    &&& pts@.len() == steps * num_w
    &&& forall|a: int, b: int|
        #![trigger pts@[idx2(a, b, num_w)]]
        0 <= a < steps && 0 <= b < num_w ==> point_is(
            pts@[idx2(a, b, num_w)],
            spec_mobius_point(
                linspace_at(steps, 0, TAU as int, a),
                linspace_at(num_w, -ONE as int, ONE as int, b),
            ),
        )
}

/// The Moebius strip, swept once (a single static frame).
pub fn mobius_strip_plot(num_steps: usize, num_w: usize) -> (pts: Vec<Point3D>)
    requires
        2 <= num_steps <= 4096,
        2 <= num_w <= 4096,
    ensures
        mobius_ok(pts, num_steps as int, num_w as int),
{
    let ts = vector(num_steps, 0, TAU);
    let ws = vector(num_w, -ONE, ONE);
    let mut pts: Vec<Point3D> = Vec::new();
    let mut i: usize = 0;
    while i < num_steps
        invariant
            2 <= num_steps <= 4096,
            2 <= num_w <= 4096,
            ts@.len() == num_steps,
            ws@.len() == num_w,
            forall|k: int|
                0 <= k < num_steps ==> #[trigger] ts@[k] == linspace_at(
                    num_steps as int,
                    0,
                    TAU as int,
                    k,
                ),
            forall|k: int|
                0 <= k < num_w ==> #[trigger] ws@[k] == linspace_at(
                    num_w as int,
                    -ONE as int,
                    ONE as int,
                    k,
                ),
            0 <= i <= num_steps,
            pts@.len() == idx2(i as int, 0, num_w as int),
            forall|a: int, b: int|
                #![trigger pts@[idx2(a, b, num_w as int)]]
                0 <= a && 0 <= b < num_w && (a < i) ==> point_is(
                    pts@[idx2(a, b, num_w as int)],
                    spec_mobius_point(
                        linspace_at(num_steps as int, 0, TAU as int, a),
                        linspace_at(num_w as int, -ONE as int, ONE as int, b),
                    ),
                ),
        decreases num_steps - i,
    {
        let t = ts[i];
        proof {
            lemma_linspace_range(num_steps as int, 0, TAU as int, i as int);
        }
        let mut j: usize = 0;
        while j < num_w
            invariant
                2 <= num_steps <= 4096,
                2 <= num_w <= 4096,
                ws@.len() == num_w,
                forall|k: int|
                    0 <= k < num_w ==> #[trigger] ws@[k] == linspace_at(
                        num_w as int,
                        -ONE as int,
                        ONE as int,
                        k,
                    ),
                i < num_steps,
                0 <= t <= TAU,
                t == linspace_at(num_steps as int, 0, TAU as int, i as int),
                0 <= j <= num_w,
                pts@.len() == idx2(i as int, j as int, num_w as int),
                forall|a: int, b: int|
                    #![trigger pts@[idx2(a, b, num_w as int)]]
                    0 <= a && 0 <= b < num_w && (a < i || (a == i && b < j)) ==> point_is(
                        pts@[idx2(a, b, num_w as int)],
                        spec_mobius_point(
                            linspace_at(num_steps as int, 0, TAU as int, a),
                            linspace_at(num_w as int, -ONE as int, ONE as int, b),
                        ),
                    ),
            decreases num_w - j,
        {
            let w = ws[j];
            proof {
                lemma_linspace_range(num_w as int, -ONE as int, ONE as int, j as int);
            }
            let p = mobius_point(t, w);
            pts.push(p);
            proof {
                assert forall|a: int, b: int|
                    0 <= a && 0 <= b < num_w && (a < i || (a == i && b < j + 1)) implies point_is(
                    #[trigger] pts@[idx2(a, b, num_w as int)],
                    spec_mobius_point(
                        linspace_at(num_steps as int, 0, TAU as int, a),
                        linspace_at(num_w as int, -ONE as int, ONE as int, b),
                    ),
                ) by {
                    if a == i && b == j {
                    } else {
                        lemma_idx2_lex(a, b, i as int, j as int, num_w as int);
                    }
                }
            }
            j = j + 1;
        }
        proof {
            lemma_idx2_roll(i as int, num_w as int);
        }
        i = i + 1;
    }
    pts
}

/// The rotated spherical shell: a polar grid point rotated about the
/// vertical axis by the frame angle.
pub open spec fn spec_spherical_point(ft: int, r: int, th: int, ph: int) -> (int, int, int) {
    let x = fmul(fmul(r, fsin(th)), fcos(ph));
    let y = fmul(fmul(r, fsin(th)), fsin(ph));
    let z = fmul(r, fcos(th));
    (fmul(x, fcos(ft)) + fmul(z, fsin(ft)), y, fmul(z, fcos(ft)) - fmul(x, fsin(ft)))
}

/// One spherical-shell point.
fn spherical_point(ft: i64, r: i64, th: i64, ph: i64) -> (p: Point3D)
    requires
        -0x1000_0000 <= ft <= 0x1000_0000,
        0 <= r <= 10 * ONE,
        -0x1000_0000 <= th <= 0x1000_0000,
        -0x1000_0000 <= ph <= 0x1000_0000,
    ensures
        point_is(p, spec_spherical_point(ft as int, r as int, th as int, ph as int)),
{
    let st = sin_fx(th);
    let ct = cos_fx(th);
    let sp = sin_fx(ph);
    let cp = cos_fx(ph);
    let cf = cos_fx(ft);
    let sf = sin_fx(ft);
    proof {
        lemma_fmul_bound(r as int, st as int, 10 * (ONE as int), ONE as int);
        lemma_fmul_bound(r as int, ct as int, 10 * (ONE as int), ONE as int);
    }
    let rs = fx_mul(r, st);
    let z = fx_mul(r, ct);
    proof {
        lemma_fmul_bound(rs as int, cp as int, 10 * (ONE as int), ONE as int);
        lemma_fmul_bound(rs as int, sp as int, 10 * (ONE as int), ONE as int);
    }
    let x = fx_mul(rs, cp);
    let y = fx_mul(rs, sp);
    proof {
        lemma_fmul_bound(x as int, cf as int, 10 * (ONE as int), ONE as int);
        lemma_fmul_bound(z as int, sf as int, 10 * (ONE as int), ONE as int);
        lemma_fmul_bound(z as int, cf as int, 10 * (ONE as int), ONE as int);
        lemma_fmul_bound(x as int, sf as int, 10 * (ONE as int), ONE as int);
    }
    Point3D {
        x: fx_mul(x, cf) + fx_mul(z, sf),
        y,
        z: fx_mul(z, cf) - fx_mul(x, sf),
    }
}

/// A spherical frame matches the shell formula at every polar grid
/// position, row-major over radius, inclination and azimuth.
pub open spec fn spherical_frame_ok(
    pts: Vec<Point3D>,
    nr: int,
    nt: int,
    np: int,
    ft: int,
) -> bool {
    &&& pts@.len() == idx3(nr, 0, 0, nt, np)
    &&& forall|a: int, b: int, c: int|
        #![trigger pts@[idx3(a, b, c, nt, np)]]
        0 <= a < nr && 0 <= b < nt && 0 <= c < np ==> point_is(
            pts@[idx3(a, b, c, nt, np)],
            spec_spherical_point(
                ft,
                linspace_at(nr, ONE as int, 10 * (ONE as int), a),
                linspace_at(nt, 0, PI as int, b),
                linspace_at(np, 0, TAU as int, c),
            ),
        )
}

/// The animated spherical grid: one frame per rotation angle.
pub fn animated_spherical_grid_plot(
    num_frames: usize,
    num_r: usize,
    num_theta: usize,
    num_phi: usize,
) -> (frames: Vec<Vec<Point3D>>)
    requires
        2 <= num_frames <= 100000,
        2 <= num_r <= 256,
        2 <= num_theta <= 256,
        2 <= num_phi <= 256,
    ensures
        frames@.len() == num_frames,
        forall|f: int|
            0 <= f < num_frames ==> spherical_frame_ok(
                #[trigger] frames@[f],
                num_r as int,
                num_theta as int,
                num_phi as int,
                linspace_at(num_frames as int, 0, TAU as int, f),
            ),
{
    let frame_times = vector(num_frames, 0, TAU);
    let rs = vector(num_r, ONE, 10 * ONE);
    let ths = vector(num_theta, 0, PI);
    let phs = vector(num_phi, 0, TAU);
    let mut frames: Vec<Vec<Point3D>> = Vec::new();
    let mut f: usize = 0;
    while f < num_frames
        invariant
            2 <= num_frames <= 100000,
            2 <= num_r <= 256,
            2 <= num_theta <= 256,
            2 <= num_phi <= 256,
            frame_times@.len() == num_frames,
            rs@.len() == num_r,
            ths@.len() == num_theta,
            phs@.len() == num_phi,
            forall|k: int|
                0 <= k < num_frames ==> #[trigger] frame_times@[k] == linspace_at(
                    num_frames as int,
                    0,
                    TAU as int,
                    k,
                ),
            forall|k: int|
                0 <= k < num_r ==> #[trigger] rs@[k] == linspace_at(
                    num_r as int,
                    ONE as int,
                    10 * (ONE as int),
                    k,
                ),
            forall|k: int|
                0 <= k < num_theta ==> #[trigger] ths@[k] == linspace_at(
                    num_theta as int,
                    0,
                    PI as int,
                    k,
                ),
            forall|k: int|
                0 <= k < num_phi ==> #[trigger] phs@[k] == linspace_at(
                    num_phi as int,
                    0,
                    TAU as int,
                    k,
                ),
            0 <= f <= num_frames,
            frames@.len() == f,
            forall|g: int|
                0 <= g < f ==> spherical_frame_ok(
                    #[trigger] frames@[g],
                    num_r as int,
                    num_theta as int,
                    num_phi as int,
                    linspace_at(num_frames as int, 0, TAU as int, g),
                ),
        decreases num_frames - f,
    {
        let ft = frame_times[f];
        proof {
            lemma_linspace_range(num_frames as int, 0, TAU as int, f as int);
        }
        let mut pts: Vec<Point3D> = Vec::new();
        proof {
            assert(idx3(0, 0, 0, num_theta as int, num_phi as int) == 0) by (nonlinear_arith);
        }
        let mut i: usize = 0;
        while i < num_r
            invariant
                2 <= num_r <= 256,
                2 <= num_theta <= 256,
                2 <= num_phi <= 256,
                rs@.len() == num_r,
                ths@.len() == num_theta,
                phs@.len() == num_phi,
                forall|k: int|
                    0 <= k < num_r ==> #[trigger] rs@[k] == linspace_at(
                        num_r as int,
                        ONE as int,
                        10 * (ONE as int),
                        k,
                    ),
                forall|k: int|
                    0 <= k < num_theta ==> #[trigger] ths@[k] == linspace_at(
                        num_theta as int,
                        0,
                        PI as int,
                        k,
                    ),
                forall|k: int|
                    0 <= k < num_phi ==> #[trigger] phs@[k] == linspace_at(
                        num_phi as int,
                        0,
                        TAU as int,
                        k,
                    ),
                0 <= ft <= TAU,
                0 <= i <= num_r,
                pts@.len() == idx3(i as int, 0, 0, num_theta as int, num_phi as int),
                forall|a: int, b: int, c: int|
                    #![trigger pts@[idx3(a, b, c, num_theta as int, num_phi as int)]]
                    0 <= a && 0 <= b < num_theta && 0 <= c < num_phi && (a < i) ==> point_is(
                        pts@[idx3(a, b, c, num_theta as int, num_phi as int)],
                        spec_spherical_point(
                            ft as int,
                            linspace_at(num_r as int, ONE as int, 10 * (ONE as int), a),
                            linspace_at(num_theta as int, 0, PI as int, b),
                            linspace_at(num_phi as int, 0, TAU as int, c),
                        ),
                    ),
            decreases num_r - i,
        {
            let r = rs[i];
            proof {
                lemma_linspace_range(num_r as int, ONE as int, 10 * (ONE as int), i as int);
            }
            let mut j: usize = 0;
            while j < num_theta
                invariant
                    2 <= num_r <= 256,
                    2 <= num_theta <= 256,
                    2 <= num_phi <= 256,
                    ths@.len() == num_theta,
                    phs@.len() == num_phi,
                    forall|k: int|
                        0 <= k < num_theta ==> #[trigger] ths@[k] == linspace_at(
                            num_theta as int,
                            0,
                            PI as int,
                            k,
                        ),
                    forall|k: int|
                        0 <= k < num_phi ==> #[trigger] phs@[k] == linspace_at(
                            num_phi as int,
                            0,
                            TAU as int,
                            k,
                        ),
                    0 <= ft <= TAU,
                    i < num_r,
                    ONE <= r <= 10 * ONE,
                    r == linspace_at(num_r as int, ONE as int, 10 * (ONE as int), i as int),
                    0 <= j <= num_theta,
                    pts@.len() == idx3(i as int, j as int, 0, num_theta as int, num_phi as int),
                    forall|a: int, b: int, c: int|
                        #![trigger pts@[idx3(a, b, c, num_theta as int, num_phi as int)]]
                        0 <= a && 0 <= b < num_theta && 0 <= c < num_phi && (a < i || (a == i && b
                            < j)) ==> point_is(
                            pts@[idx3(a, b, c, num_theta as int, num_phi as int)],
                            spec_spherical_point(
                                ft as int,
                                linspace_at(num_r as int, ONE as int, 10 * (ONE as int), a),
                                linspace_at(num_theta as int, 0, PI as int, b),
                                linspace_at(num_phi as int, 0, TAU as int, c),
                            ),
                        ),
                decreases num_theta - j,
            {
                let th = ths[j];
                proof {
                    lemma_linspace_range(num_theta as int, 0, PI as int, j as int);
                }
                let mut l: usize = 0;
                while l < num_phi
                    invariant
                        2 <= num_r <= 256,
                        2 <= num_theta <= 256,
                        2 <= num_phi <= 256,
                        phs@.len() == num_phi,
                        forall|k: int|
                            0 <= k < num_phi ==> #[trigger] phs@[k] == linspace_at(
                                num_phi as int,
                                0,
                                TAU as int,
                                k,
                            ),
                        0 <= ft <= TAU,
                        i < num_r,
                        j < num_theta,
                        ONE <= r <= 10 * ONE,
                        r == linspace_at(num_r as int, ONE as int, 10 * (ONE as int), i as int),
                        0 <= th <= PI,
                        th == linspace_at(num_theta as int, 0, PI as int, j as int),
                        0 <= l <= num_phi,
                        pts@.len() == idx3(
                            i as int,
                            j as int,
                            l as int,
                            num_theta as int,
                            num_phi as int,
                        ),
                        forall|a: int, b: int, c: int|
                            #![trigger pts@[idx3(a, b, c, num_theta as int, num_phi as int)]]
                            0 <= a && 0 <= b < num_theta && 0 <= c < num_phi && (a < i || (a == i
                                && b < j) || (a == i && b == j && c < l)) ==> point_is(
                                pts@[idx3(a, b, c, num_theta as int, num_phi as int)],
                                spec_spherical_point(
                                    ft as int,
                                    linspace_at(num_r as int, ONE as int, 10 * (ONE as int), a),
                                    linspace_at(num_theta as int, 0, PI as int, b),
                                    linspace_at(num_phi as int, 0, TAU as int, c),
                                ),
                            ),
                    decreases num_phi - l,
                {
                    let ph = phs[l];
                    proof {
                        lemma_linspace_range(num_phi as int, 0, TAU as int, l as int);
                    }
                    let p = spherical_point(ft, r, th, ph);
                    pts.push(p);
                    proof {
                        assert forall|a: int, b: int, c: int|
                            0 <= a && 0 <= b < num_theta && 0 <= c < num_phi && (a < i || (a == i
                                && b < j) || (a == i && b == j && c < l + 1)) implies point_is(
                            #[trigger] pts@[idx3(a, b, c, num_theta as int, num_phi as int)],
                            spec_spherical_point(
                                ft as int,
                                linspace_at(num_r as int, ONE as int, 10 * (ONE as int), a),
                                linspace_at(num_theta as int, 0, PI as int, b),
                                linspace_at(num_phi as int, 0, TAU as int, c),
                            ),
                        ) by {
                            if a == i && b == j && c == l {
                            } else {
                                lemma_idx3_lex(
                                    a,
                                    b,
                                    c,
                                    i as int,
                                    j as int,
                                    l as int,
                                    num_theta as int,
                                    num_phi as int,
                                );
                            }
                        }
                    }
                    l = l + 1;
                }
                proof {
                    lemma_idx3_roll(i as int, j as int, num_theta as int, num_phi as int);
                }
                j = j + 1;
            }
            proof {
                lemma_idx3_roll(i as int, num_theta as int, num_theta as int, num_phi as int);
                assert(idx3(i as int, num_theta as int, 0, num_theta as int, num_phi as int)
                    == idx3(i as int + 1, 0, 0, num_theta as int, num_phi as int));
            }
            i = i + 1;
        }
        frames.push(pts);
        f = f + 1;
    }
    frames
}

/// The composite terrain-like surface's configuration record, with
/// named fields in place of scattered call-site constants.
#[derive(Clone, Copy)]
pub struct PlotParams {
    /// Points per planar axis.
    pub resolution: usize,
    /// Horizontal coordinate range.
    pub x_range: (i64, i64),
    /// Depth coordinate range.
    pub y_range: (i64, i64),
    /// Number of animation frames.
    pub time_steps: usize,
    /// End of the time sweep.
    pub time_scale: i64,
    /// Number of interfering waves.
    pub wave_count: usize,
    /// Height multiplier.
    pub amplitude: i64,
    /// Wave frequency step.
    pub frequency: i64,
    /// Chaos factor of the spiral and noise terms.
    pub turbulence: i64,
}

/// The parameter ranges the terrain generator accepts.
pub open spec fn params_ok(p: PlotParams) -> bool {
    &&& 2 <= p.resolution <= 1024
    &&& -0x100_0000 <= p.x_range.0 <= 0x100_0000 && -0x100_0000 <= p.x_range.1 <= 0x100_0000
    &&& -0x100_0000 <= p.y_range.0 <= 0x100_0000 && -0x100_0000 <= p.y_range.1 <= 0x100_0000
    &&& 2 <= p.time_steps <= 100000
    &&& OFFSET_START <= p.time_scale <= 0x1000_0000
    &&& 1 <= p.wave_count <= 16
    &&& 0 <= p.amplitude <= 0x10_0000
    &&& 0 <= p.frequency <= 0x4_0000
    &&& 0 <= p.turbulence <= 0x4_0000
}

impl Default for PlotParams {
    /// The documented default configuration.
    fn default() -> (p: PlotParams)
        ensures
            p == (PlotParams {
                resolution: 300,
                x_range: (-1029440i64, 1029440i64),
                y_range: (-1029440i64, 1029440i64),
                time_steps: 150,
                time_scale: 617664i64,
                wave_count: 4,
                amplitude: 196608i64,
                frequency: ONE,
                turbulence: HALF,
            }),
            params_ok(p),
    {
        PlotParams {
            resolution: 300,
            x_range: (-FIVE_PI, FIVE_PI),
            y_range: (-FIVE_PI, FIVE_PI),
            time_steps: 150,
            time_scale: 3 * PI,
            wave_count: 4,
            amplitude: 3 * ONE,
            frequency: ONE,
            turbulence: HALF,
        }
    }
}

/// The wave superposition of the terrain surface: for each of the first
/// `k` waves, a travelling product of sines, an angular spiral term
/// damped by distance, and a radial standing wave.
#[verifier::opaque]
pub open spec fn wave_term(
    wc: int,
    freq: int,
    turb: int,
    t: int,
    dist: int,
    angle: int,
    i: int,
) -> int {
    let phase = sdiv(i * PI, wc);
    let fm = (ONE as int) + i * freq;
    fmul(fsin(t + phase), fsin(t + fmul(dist, fm))) + fmul(
        fcos(angle * wc + t),
        fexp(-fmul(dist, turb)),
    ) + fmul(fsin(fmul(dist, fm) - t), fcos(phase + sdiv(t, 2)))
}

/// The first `k` wave terms, summed.
pub open spec fn wave_sum(
    wc: int,
    freq: int,
    turb: int,
    t: int,
    dist: int,
    angle: int,
    k: nat,
) -> int
    decreases k,
{
    if k == 0 {
        0
    } else {
        wave_sum(wc, freq, turb, t, dist, angle, (k - 1) as nat) + wave_term(
            wc,
            freq,
            turb,
            t,
            dist,
            angle,
            k - 1,
        )
    }
}

/// The terrain height at one planar position and time.
pub open spec fn spec_enhanced_z(
    wc: int,
    freq: int,
    turb: int,
    amp: int,
    t: int,
    x: int,
    y: int,
) -> int {
    let dist = fsqrt(fmul(x, x) + fmul(y, y));
    let angle = fatan2(y, x);
    let z = sdiv(fmul(wave_sum(wc, freq, turb, t, dist, angle, wc as nat), amp), wc);
    let noise = fmul(fmul(fsin(fmul(x, turb)), fcos(fmul(y, turb))), fsin(t));
    z + sdiv(fmul(noise, amp), 5)
}


/// One wave term, executable.
#[verifier::rlimit(100)]
fn wave_term_fx(wc: usize, freq: i64, turb: i64, t: i64, dist: i64, angle: i64, k: usize) -> (r:
    i64)
    requires
        1 <= wc <= 16,
        k < wc,
        0 <= freq <= 0x4_0000,
        0 <= turb <= 0x4_0000,
        0 <= t <= 0x1000_0000,
        0 <= dist <= 0x8000_0000,
        -308832 <= angle <= 308832,
    ensures
        r == wave_term(
            wc as int,
            freq as int,
            turb as int,
            t as int,
            dist as int,
            angle as int,
            k as int,
        ),
        -3 * (ONE as int) <= r <= 3 * (ONE as int),
{
    proof {
        reveal(wave_term);
    }
    let ki = k as i64;
    let phase = div_trunc(ki * PI, wc as i64);
    proof {
        assert(0 <= (ki as int) * (freq as int) <= 15 * 0x4_0000) by (nonlinear_arith)
            requires
                0 <= ki <= 15,
                0 <= freq <= 0x4_0000,
        ;
    }
    let fm = ONE + ki * freq;
    let s1 = sin_fx(t + phase);
    proof {
        lemma_fmul_bound(dist as int, fm as int, 0x8000_0000, 0x40_0000);
    }
    let dfm = fx_mul(dist, fm);
    let s2 = sin_fx(t + dfm);
    proof {
        lemma_fmul_bound(s1 as int, s2 as int, ONE as int, ONE as int);
    }
    let t1 = fx_mul(s1, s2);
    proof {
        assert(-4941312 <= (angle as int) * (wc as int) <= 4941312) by (nonlinear_arith)
            requires
                -308832 <= angle <= 308832,
                1 <= wc <= 16,
        ;
    }
    let aw = angle * (wc as i64);
    let c1 = cos_fx(aw + t);
    proof {
        lemma_fmul_bound(dist as int, turb as int, 0x8000_0000, 0x4_0000);
        assert(0 <= (dist as int) * (turb as int)) by (nonlinear_arith)
            requires
                0 <= dist,
                0 <= turb,
        ;
        lemma_div_is_ordered(0, (dist as int) * (turb as int), ONE as int);
    }
    let ea = fx_mul(dist, turb);
    let ev = exp_fx(-ea);
    proof {
        lemma_fmul_bound(c1 as int, ev as int, ONE as int, ONE as int);
    }
    let t2 = fx_mul(c1, ev);
    let s3 = sin_fx(dfm - t);
    let c2 = cos_fx(phase + div_trunc(t, 2));
    proof {
        lemma_fmul_bound(s3 as int, c2 as int, ONE as int, ONE as int);
    }
    let t3 = fx_mul(s3, c2);
    t1 + t2 + t3
}

/// One terrain height, executable.
#[verifier::rlimit(100)]
fn enhanced_z(wc: usize, freq: i64, turb: i64, amp: i64, t: i64, x: i64, y: i64) -> (z: i64)
    requires
        1 <= wc <= 16,
        0 <= freq <= 0x4_0000,
        0 <= turb <= 0x4_0000,
        0 <= amp <= 0x10_0000,
        0 <= t <= 0x1000_0000,
        -0x100_0000 <= x <= 0x100_0000,
        -0x100_0000 <= y <= 0x100_0000,
    ensures
        z == spec_enhanced_z(
            wc as int,
            freq as int,
            turb as int,
            amp as int,
            t as int,
            x as int,
            y as int,
        ),
{
    proof {
        lemma_fmul_bound(x as int, x as int, 0x100_0000, 0x100_0000);
        lemma_fmul_bound(y as int, y as int, 0x100_0000, 0x100_0000);
        assert(0 <= (x as int) * (x as int) && 0 <= (y as int) * (y as int)) by (nonlinear_arith);
        lemma_div_is_ordered(0, (x as int) * (x as int), ONE as int);
        lemma_div_is_ordered(0, (y as int) * (y as int), ONE as int);
    }
    let dist = fx_sqrt(fx_mul(x, x) + fx_mul(y, y));
    let angle = atan2_fx(y, x);
    let mut acc: i64 = 0;
    let mut k: usize = 0;
    while k < wc
        invariant
            1 <= wc <= 16,
            0 <= freq <= 0x4_0000,
            0 <= turb <= 0x4_0000,
            0 <= t <= 0x1000_0000,
            0 <= dist <= 0x8000_0000,
            -308832 <= angle <= 308832,
            0 <= k <= wc,
            acc == wave_sum(
                wc as int,
                freq as int,
                turb as int,
                t as int,
                dist as int,
                angle as int,
                k as nat,
            ),
            -3 * (ONE as int) * (k as int) <= acc <= 3 * (ONE as int) * (k as int),
        decreases wc - k,
    {
        let term = wave_term_fx(wc, freq, turb, t, dist, angle, k);
        proof {
            assert(-3 * (ONE as int) * (k as int + 1) <= acc + term <= 3 * (ONE as int) * (k as int
                + 1) && -3145728 <= acc + term <= 3145728) by (nonlinear_arith)
                requires
                    -3 * (ONE as int) * (k as int) <= acc <= 3 * (ONE as int) * (k as int),
                    -3 * (ONE as int) <= term <= 3 * (ONE as int),
                    ONE == 65536,
                    0 <= k,
                    k + 1 <= 16,
            ;
        }
        acc = acc + term;
        k = k + 1;
    }
    proof {
        assert(-3145728 <= acc <= 3145728) by (nonlinear_arith)
            requires
                -3 * (ONE as int) * (wc as int) <= acc <= 3 * (ONE as int) * (wc as int),
                1 <= wc <= 16,
                ONE == 65536,
        ;
        lemma_fmul_bound(acc as int, amp as int, 3145728, 0x10_0000);
    }
    let z = div_trunc(fx_mul(acc, amp), wc as i64);
    proof {
        lemma_fmul_bound(x as int, turb as int, 0x100_0000, 0x4_0000);
        lemma_fmul_bound(y as int, turb as int, 0x100_0000, 0x4_0000);
    }
    let ns = sin_fx(fx_mul(x, turb));
    let nc = cos_fx(fx_mul(y, turb));
    proof {
        lemma_fmul_bound(ns as int, nc as int, ONE as int, ONE as int);
    }
    let n1 = fx_mul(ns, nc);
    let st = sin_fx(t);
    proof {
        lemma_fmul_bound(n1 as int, st as int, ONE as int, ONE as int);
    }
    let noise = fx_mul(n1, st);
    proof {
        lemma_fmul_bound(noise as int, amp as int, ONE as int, 0x10_0000);
    }
    z + div_trunc(fx_mul(noise, amp), 5)
}

/// A terrain frame matches the height formula at every grid position.
pub open spec fn enhanced_frame_ok(pts: Vec<Point3D>, p: PlotParams, t: int) -> bool {
    let res = p.resolution as int;
    &&& pts@.len() == res * res
    &&& forall|a: int, b: int|
        #![trigger pts@[idx2(a, b, res)]]
        0 <= a < res && 0 <= b < res ==> point_is(
            pts@[idx2(a, b, res)],
            ({
                let xa = linspace_at(res, p.x_range.0 as int, p.x_range.1 as int, a);
                let yb = linspace_at(res, p.y_range.0 as int, p.y_range.1 as int, b);
                (
                    xa,
                    yb,
                    spec_enhanced_z(
                        p.wave_count as int,
                        p.frequency as int,
                        p.turbulence as int,
                        p.amplitude as int,
                        t,
                        xa,
                        yb,
                    ),
                )
            }),
        )
}

/// The terrain animation: multi-wave superposition with spiral and
/// radial terms plus low-frequency noise, over the configured grid and
/// time sweep.
pub fn enhanced_room_plot(params: &PlotParams) -> (frames: Vec<Vec<Point3D>>)
    requires
        params_ok(*params),
    ensures
        frames@.len() == params.time_steps,
        forall|f: int|
            0 <= f < params.time_steps ==> enhanced_frame_ok(
                #[trigger] frames@[f],
                *params,
                linspace_at(
                    params.time_steps as int,
                    OFFSET_START as int,
                    params.time_scale as int,
                    f,
                ),
            ),
{
    let res = params.resolution;
    let xs = vector(res, params.x_range.0, params.x_range.1);
    let ys = vector(res, params.y_range.0, params.y_range.1);
    let times = vector(params.time_steps, OFFSET_START, params.time_scale);
    let mut frames: Vec<Vec<Point3D>> = Vec::new();
    let mut f: usize = 0;
    while f < params.time_steps
        invariant
            params_ok(*params),
            res == params.resolution,
            xs@.len() == res,
            ys@.len() == res,
            times@.len() == params.time_steps,
            forall|k: int|
                0 <= k < res ==> #[trigger] xs@[k] == linspace_at(
                    res as int,
                    params.x_range.0 as int,
                    params.x_range.1 as int,
                    k,
                ),
            forall|k: int|
                0 <= k < res ==> #[trigger] ys@[k] == linspace_at(
                    res as int,
                    params.y_range.0 as int,
                    params.y_range.1 as int,
                    k,
                ),
            forall|k: int|
                0 <= k < params.time_steps ==> #[trigger] times@[k] == linspace_at(
                    params.time_steps as int,
                    OFFSET_START as int,
                    params.time_scale as int,
                    k,
                ),
            0 <= f <= params.time_steps,
            frames@.len() == f,
            forall|g: int|
                0 <= g < f ==> enhanced_frame_ok(
                    #[trigger] frames@[g],
                    *params,
                    linspace_at(
                        params.time_steps as int,
                        OFFSET_START as int,
                        params.time_scale as int,
                        g,
                    ),
                ),
        decreases params.time_steps - f,
    {
        let t = times[f];
        proof {
            lemma_linspace_range(
                params.time_steps as int,
                OFFSET_START as int,
                params.time_scale as int,
                f as int,
            );
        }
        let mut pts: Vec<Point3D> = Vec::new();
        let mut i: usize = 0;
        while i < res
            invariant
                params_ok(*params),
                res == params.resolution,
                xs@.len() == res,
                ys@.len() == res,
                forall|k: int|
                    0 <= k < res ==> #[trigger] xs@[k] == linspace_at(
                        res as int,
                        params.x_range.0 as int,
                        params.x_range.1 as int,
                        k,
                    ),
                forall|k: int|
                    0 <= k < res ==> #[trigger] ys@[k] == linspace_at(
                        res as int,
                        params.y_range.0 as int,
                        params.y_range.1 as int,
                        k,
                    ),
                OFFSET_START <= t <= 0x1000_0000,
                0 <= i <= res,
                pts@.len() == idx2(i as int, 0, res as int),
                forall|a: int, b: int|
                    #![trigger pts@[idx2(a, b, res as int)]]
                    0 <= a && 0 <= b < res && (a < i) ==> point_is(
                        pts@[idx2(a, b, res as int)],
                        ({
                            let xa = linspace_at(
                                res as int,
                                params.x_range.0 as int,
                                params.x_range.1 as int,
                                a,
                            );
                            let yb = linspace_at(
                                res as int,
                                params.y_range.0 as int,
                                params.y_range.1 as int,
                                b,
                            );
                            (
                                xa,
                                yb,
                                spec_enhanced_z(
                                    params.wave_count as int,
                                    params.frequency as int,
                                    params.turbulence as int,
                                    params.amplitude as int,
                                    t as int,
                                    xa,
                                    yb,
                                ),
                            )
                        }),
                    ),
            decreases res - i,
        {
            let x = xs[i];
            proof {
                lemma_linspace_range(
                    res as int,
                    params.x_range.0 as int,
                    params.x_range.1 as int,
                    i as int,
                );
            }
            let mut j: usize = 0;
            while j < res
                invariant
                    params_ok(*params),
                    res == params.resolution,
                    ys@.len() == res,
                    forall|k: int|
                        0 <= k < res ==> #[trigger] ys@[k] == linspace_at(
                            res as int,
                            params.y_range.0 as int,
                            params.y_range.1 as int,
                            k,
                        ),
                    OFFSET_START <= t <= 0x1000_0000,
                    i < res,
                    -0x100_0000 <= x <= 0x100_0000,
                    x == linspace_at(
                        res as int,
                        params.x_range.0 as int,
                        params.x_range.1 as int,
                        i as int,
                    ),
                    0 <= j <= res,
                    pts@.len() == idx2(i as int, j as int, res as int),
                    forall|a: int, b: int|
                        #![trigger pts@[idx2(a, b, res as int)]]
                        0 <= a && 0 <= b < res && (a < i || (a == i && b < j)) ==> point_is(
                            pts@[idx2(a, b, res as int)],
                            ({
                                let xa = linspace_at(
                                    res as int,
                                    params.x_range.0 as int,
                                    params.x_range.1 as int,
                                    a,
                                );
                                let yb = linspace_at(
                                    res as int,
                                    params.y_range.0 as int,
                                    params.y_range.1 as int,
                                    b,
                                );
                                (
                                    xa,
                                    yb,
                                    spec_enhanced_z(
                                        params.wave_count as int,
                                        params.frequency as int,
                                        params.turbulence as int,
                                        params.amplitude as int,
                                        t as int,
                                        xa,
                                        yb,
                                    ),
                                )
                            }),
                        ),
                decreases res - j,
            {
                let y = ys[j];
                proof {
                    lemma_linspace_range(
                        res as int,
                        params.y_range.0 as int,
                        params.y_range.1 as int,
                        j as int,
                    );
                }
                let z = enhanced_z(
                    params.wave_count,
                    params.frequency,
                    params.turbulence,
                    params.amplitude,
                    t,
                    x,
                    y,
                );
                pts.push(Point3D { x, y, z });
                proof {
                    assert forall|a: int, b: int|
                        0 <= a && 0 <= b < res && (a < i || (a == i && b < j + 1)) implies point_is(
                        #[trigger] pts@[idx2(a, b, res as int)],
                        ({
                            let xa = linspace_at(
                                res as int,
                                params.x_range.0 as int,
                                params.x_range.1 as int,
                                a,
                            );
                            let yb = linspace_at(
                                res as int,
                                params.y_range.0 as int,
                                params.y_range.1 as int,
                                b,
                            );
                            (
                                xa,
                                yb,
                                spec_enhanced_z(
                                    params.wave_count as int,
                                    params.frequency as int,
                                    params.turbulence as int,
                                    params.amplitude as int,
                                    t as int,
                                    xa,
                                    yb,
                                ),
                            )
                        }),
                    ) by {
                        if a == i && b == j {
                        } else {
                            lemma_idx2_lex(a, b, i as int, j as int, res as int);
                        }
                    }
                }
                j = j + 1;
            }
            proof {
                lemma_idx2_roll(i as int, res as int);
            }
            i = i + 1;
        }
        frames.push(pts);
        f = f + 1;
    }
    frames
}


} // verus!
