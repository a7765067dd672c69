//! The stateful point-cloud generators: the particle simulation, whose
//! mutable particle buffer is the only state carried across frames, and
//! the recursive fractal cloud, rebuilt from scratch every frame.

use vstd::prelude::*;

verus! {

use crate::fixed::{ONE, PI, TAU, div_trunc, fmul, fx_mul, sdiv, lemma_fmul_bound};
use crate::trig::{sin_fx, cos_fx};
use crate::shapes::Point3D;
use crate::rng::RandomSource;

/// A simulated particle: a persistent position and velocity, both
/// mutated only by the integration step.
#[derive(Clone, Copy, PartialEq, Eq, Structural, Debug)]
pub struct Particle {
    pub pos: Point3D,
    pub vel: Point3D,
}

/// Toroidal boundary wrap of one coordinate: a coordinate beyond either
/// bound reappears at the opposite one.
pub open spec fn wrap1(c: int, b: int) -> int {
    if c > b {
        -b
    } else if c < -b {
        b
    } else {
        c
    }
}

/// The wrap always lands inside the box, whatever the coordinate was.
pub proof fn lemma_wrap_in_box(c: int, b: int)
    requires
        b >= 0,
    ensures
        -b <= wrap1(c, b) <= b,
{
}

/// A particle is inside the simulation box with a bounded velocity.
pub open spec fn particle_ok(p: Particle, b: int, s: int) -> bool {
    &&& -b <= p.pos.x <= b
    &&& -b <= p.pos.y <= b
    &&& -b <= p.pos.z <= b
    &&& -s <= p.vel.x <= s
    &&& -s <= p.vel.y <= s
    &&& -s <= p.vel.z <= s
}

/// Fresh particles, uniformly random in the box with uniformly random
/// velocities.
pub fn init_particles(rng: &mut RandomSource, n: usize, bound: i64, speed: i64) -> (ps: Vec<
    Particle,
>)
    requires
        1 <= bound <= 0x100_0000_0000,
        1 <= speed <= 0x100_0000_0000,
    ensures
        ps@.len() == n,
        forall|i: int| 0 <= i < n ==> particle_ok(#[trigger] ps@[i], bound as int, speed as int),
{
    let mut ps: Vec<Particle> = Vec::new();
    let mut i: usize = 0;
    while i < n
        invariant
            1 <= bound <= 0x100_0000_0000,
            1 <= speed <= 0x100_0000_0000,
            0 <= i <= n,
            ps@.len() == i,
            forall|j: int|
                0 <= j < i ==> particle_ok(#[trigger] ps@[j], bound as int, speed as int),
        decreases n - i,
    {
        let px = rng.next_in(-bound, bound);
        let py = rng.next_in(-bound, bound);
        let pz = rng.next_in(-bound, bound);
        let vx = rng.next_in(-speed, speed);
        let vy = rng.next_in(-speed, speed);
        let vz = rng.next_in(-speed, speed);
        ps.push(
            Particle {
                pos: Point3D { x: px, y: py, z: pz },
                vel: Point3D { x: vx, y: vy, z: vz },
            },
        );
        i = i + 1;
    }
    ps
}

/// One Euler step with boundary wrap: every position becomes the wrap
/// of position plus velocity, and no velocity is touched.  After the
/// step every coordinate is back inside the box.
pub fn step_particles(ps: &mut Vec<Particle>, bound: i64, speed: i64)
    requires
        1 <= bound <= 0x100_0000_0000,
        1 <= speed <= 0x100_0000_0000,
        forall|i: int|
            0 <= i < old(ps)@.len() ==> particle_ok(#[trigger] old(ps)@[i], bound as int, speed as int),
    ensures
        final(ps)@.len() == old(ps)@.len(),
        forall|i: int|
            #![trigger final(ps)@[i]]
            0 <= i < old(ps)@.len() ==> {
                let p0 = old(ps)@[i];
                let p1 = final(ps)@[i];
                &&& p1.vel == p0.vel
                &&& p1.pos.x == wrap1(p0.pos.x + p0.vel.x, bound as int)
                &&& p1.pos.y == wrap1(p0.pos.y + p0.vel.y, bound as int)
                &&& p1.pos.z == wrap1(p0.pos.z + p0.vel.z, bound as int)
                &&& particle_ok(p1, bound as int, speed as int)
            },
{
    let n = ps.len();
    let mut i: usize = 0;
    while i < n
        invariant
            1 <= bound <= 0x100_0000_0000,
            1 <= speed <= 0x100_0000_0000,
            n == old(ps)@.len(),
            ps@.len() == n,
            0 <= i <= n,
            forall|j: int|
                0 <= j < n ==> particle_ok(#[trigger] old(ps)@[j], bound as int, speed as int),
            forall|j: int|
                i <= j < n ==> #[trigger] ps@[j] == old(ps)@[j],
            forall|j: int|
                #![trigger ps@[j]]
                0 <= j < i ==> {
                    let p0 = old(ps)@[j];
                    let p1 = ps@[j];
                    &&& p1.vel == p0.vel
                    &&& p1.pos.x == wrap1(p0.pos.x + p0.vel.x, bound as int)
                    &&& p1.pos.y == wrap1(p0.pos.y + p0.vel.y, bound as int)
                    &&& p1.pos.z == wrap1(p0.pos.z + p0.vel.z, bound as int)
                    &&& particle_ok(p1, bound as int, speed as int)
                },
        decreases n - i,
    {
        let p = ps[i];
        let nx = wrap_coord(p.pos.x + p.vel.x, bound);
        let ny = wrap_coord(p.pos.y + p.vel.y, bound);
        let nz = wrap_coord(p.pos.z + p.vel.z, bound);
        let updated = Particle { pos: Point3D { x: nx, y: ny, z: nz }, vel: p.vel };
        ps.set(i, updated);
        i = i + 1;
    }
}

/// Executable boundary wrap of one coordinate.
fn wrap_coord(c: i64, b: i64) -> (r: i64)
    requires
        1 <= b,
    ensures
        r == wrap1(c as int, b as int),
        -b <= r <= b,
{
    if c > b {
        -b
    } else if c < -b {
        b
    } else {
        c
    }
}

/// The particle-swarm animation: `num_particles` particles with random
/// positions and velocities, integrated and wrapped each frame; every
/// emitted coordinate of every frame lies inside the box.
pub fn animated_particle_swarm_plot(
    rng: &mut RandomSource,
    num_frames: usize,
    num_particles: usize,
    bound: i64,
    speed: i64,
) -> (frames: Vec<Vec<Point3D>>)
    requires
        1 <= bound <= 0x100_0000_0000,
        1 <= speed <= 0x100_0000_0000,
    ensures
        frames@.len() == num_frames,
        forall|f: int|
            0 <= f < num_frames ==> (#[trigger] frames@[f])@.len() == num_particles,
        forall|f: int, i: int|
            #![trigger frames@[f]@[i]]
            0 <= f < num_frames && 0 <= i < num_particles ==> {
                let p = frames@[f]@[i];
                &&& -bound <= p.x <= bound
                &&& -bound <= p.y <= bound
                &&& -bound <= p.z <= bound
            },
{
    let mut particles = init_particles(rng, num_particles, bound, speed);
    let mut frames: Vec<Vec<Point3D>> = Vec::new();
    let mut f: usize = 0;
    while f < num_frames
        invariant
            1 <= bound <= 0x100_0000_0000,
            1 <= speed <= 0x100_0000_0000,
            particles@.len() == num_particles,
            forall|i: int|
                0 <= i < num_particles ==> particle_ok(
                    #[trigger] particles@[i],
                    bound as int,
                    speed as int,
                ),
            0 <= f <= num_frames,
            frames@.len() == f,
            forall|g: int|
                0 <= g < f ==> (#[trigger] frames@[g])@.len() == num_particles,
            forall|g: int, i: int|
                #![trigger frames@[g]@[i]]
                0 <= g < f && 0 <= i < num_particles ==> {
                    let p = frames@[g]@[i];
                    &&& -bound <= p.x <= bound
                    &&& -bound <= p.y <= bound
                    &&& -bound <= p.z <= bound
                },
        decreases num_frames - f,
    {
        step_particles(&mut particles, bound, speed);
        let mut snapshot: Vec<Point3D> = Vec::new();
        let mut i: usize = 0;
        while i < particles.len()
            invariant
                1 <= bound <= 0x100_0000_0000,
                1 <= speed <= 0x100_0000_0000,
                particles@.len() == num_particles,
                forall|j: int|
                    0 <= j < num_particles ==> particle_ok(
                        #[trigger] particles@[j],
                        bound as int,
                        speed as int,
                    ),
                0 <= i <= num_particles,
                snapshot@.len() == i,
                forall|j: int|
                    #![trigger snapshot@[j]]
                    0 <= j < i ==> {
                        let p = snapshot@[j];
                        &&& -bound <= p.x <= bound
                        &&& -bound <= p.y <= bound
                        &&& -bound <= p.z <= bound
                    },
            decreases num_particles - i,
        {
            let p = particles[i];
            snapshot.push(p.pos);
            i = i + 1;
        }
        frames.push(snapshot);
        f = f + 1;
    }
    frames
}

/// The number of points a fractal cloud of the given depth holds:
/// eight to the power of the depth.
pub open spec fn pow8(d: nat) -> nat
    decreases d,
{
    if d == 0 {
        1
    } else {
        8 * pow8((d - 1) as nat)
    }
}

/// Executable `pow8`, for callers that need the expected cloud size.
pub fn pow8_of(d: usize) -> (r: usize)
    requires
        d <= 10,
    ensures
        r == pow8(d as nat),
{
    proof {
        lemma_pow8_bound(d as nat);
    }
    let mut r: usize = 1;
    let mut k: usize = 0;
    while k < d
        invariant
            0 <= k <= d <= 10,
            r == pow8(k as nat),
            1 <= r <= 0x4000_0000,
        decreases d - k,
    {
        proof {
            lemma_pow8_bound((k + 1) as nat);
        }
        r = 8 * r;
        k = k + 1;
    }
    r
}

/// The first eleven values of `pow8`, by unfolding.
pub proof fn lemma_pow8_values()
    ensures
        pow8(0) == 1,
        pow8(1) == 8,
        pow8(2) == 64,
        pow8(3) == 512,
        pow8(4) == 4096,
        pow8(5) == 32768,
        pow8(6) == 262144,
        pow8(7) == 2097152,
        pow8(8) == 16777216,
        pow8(9) == 134217728,
        pow8(10) == 0x4000_0000,
{
    assert(pow8(0) == 1);
    assert(pow8(1) == 8);
    assert(pow8(2) == 64);
    assert(pow8(3) == 512);
    assert(pow8(4) == 4096);
    assert(pow8(5) == 32768);
    assert(pow8(6) == 262144);
    assert(pow8(7) == 2097152);
    assert(pow8(8) == 16777216);
    assert(pow8(9) == 134217728);
    assert(pow8(10) == 0x4000_0000);
}

/// `pow8` stays below 2^30 for the depths the generator accepts.
pub proof fn lemma_pow8_bound(d: nat)
    requires
        d <= 10,
    ensures
        1 <= pow8(d) <= 0x4000_0000,
{
    lemma_pow8_values();
    if d == 0 {
    } else if d == 1 {
    } else if d == 2 {
    } else if d == 3 {
    } else if d == 4 {
    } else if d == 5 {
    } else if d == 6 {
    } else if d == 7 {
    } else if d == 8 {
    } else if d == 9 {
    } else {
        assert(d == 10);
    }
}

/// The recursive fractal cloud: at depth zero, exactly the origin; at
/// greater depth, eight randomly displaced subclouds of half the
/// radius.  The number of appended points is exactly `8 ^ depth`, and
/// everything already in the buffer stays untouched.
pub fn generate_fractal_cloud(
    rng: &mut RandomSource,
    origin: Point3D,
    radius: i64,
    depth: usize,
    points: &mut Vec<Point3D>,
)
    requires
        depth <= 10,
        0 <= radius <= 0x10_0000_0000,
        -0x100_0000_0000 <= origin.x - radius && origin.x + radius <= 0x100_0000_0000,
        -0x100_0000_0000 <= origin.y - radius && origin.y + radius <= 0x100_0000_0000,
        -0x100_0000_0000 <= origin.z - radius && origin.z + radius <= 0x100_0000_0000,
        old(points)@.len() + pow8(depth as nat) <= 0x1000_0000_0000,
    ensures
        final(points)@.len() == old(points)@.len() + pow8(depth as nat),
        forall|k: int| 0 <= k < old(points)@.len() ==> #[trigger] final(points)@[k] == old(points)@[k],
        depth == 0 ==> final(points)@ == old(points)@.push(origin),
    decreases depth,
{
    if depth == 0 {
        points.push(origin);
        return ;
    }
    let mut child: usize = 0;
    proof {
        lemma_pow8_bound(depth as nat);
        lemma_pow8_bound((depth - 1) as nat);
    }
    while child < 8
        invariant
            depth >= 1,
            depth <= 10,
            0 <= radius <= 0x10_0000_0000,
            -0x100_0000_0000 <= origin.x - radius && origin.x + radius <= 0x100_0000_0000,
            -0x100_0000_0000 <= origin.y - radius && origin.y + radius <= 0x100_0000_0000,
            -0x100_0000_0000 <= origin.z - radius && origin.z + radius <= 0x100_0000_0000,
            old(points)@.len() + pow8(depth as nat) <= 0x1000_0000_0000,
            0 <= child <= 8,
            points@.len() == old(points)@.len() + child * pow8((depth - 1) as nat),
            1 <= pow8((depth - 1) as nat) <= 0x4000_0000,
            pow8(depth as nat) == 8 * pow8((depth - 1) as nat),
            forall|k: int|
                0 <= k < old(points)@.len() ==> #[trigger] points@[k] == old(points)@[k],
        decreases 8 - child,
    {
        let theta = rng.next_in(0, PI);
        let phi = rng.next_in(0, TAU);
        let u = rng.next_unit();
        proof {
            lemma_fmul_bound(radius as int, u as int, 0x10_0000_0000, ONE as int);
            crate::fixed::lemma_fmul_contract(radius as int, u as int);
        }
        let scaled = fx_mul(radius, u);
        let rr = div_trunc(scaled, 2);
        let half = div_trunc(radius, 2);
        proof {
            vstd::arithmetic::div_mod::lemma_div_is_ordered(scaled as int, radius as int, 2);
            vstd::arithmetic::div_mod::lemma_fundamental_div_mod(radius as int, 2);
            assert(rr <= half);
            assert(2 * half <= radius);
        }
        let st = sin_fx(theta);
        let ct = cos_fx(theta);
        let sp = sin_fx(phi);
        let cp = cos_fx(phi);
        proof {
            lemma_fmul_bound(st as int, cp as int, ONE as int, ONE as int);
            lemma_fmul_bound(st as int, sp as int, ONE as int, ONE as int);
        }
        let dir_x = fx_mul(st, cp);
        let dir_y = fx_mul(st, sp);
        proof {
            lemma_fmul_bound(rr as int, dir_x as int, 0x8_0000_0000, ONE as int);
            lemma_fmul_bound(rr as int, dir_y as int, 0x8_0000_0000, ONE as int);
            lemma_fmul_bound(rr as int, ct as int, 0x8_0000_0000, ONE as int);
            crate::fixed::lemma_fmul_contract(rr as int, dir_x as int);
            crate::fixed::lemma_fmul_contract(rr as int, dir_y as int);
            crate::fixed::lemma_fmul_contract(rr as int, ct as int);
        }
        let ox = origin.x + fx_mul(rr, dir_x);
        let oy = origin.y + fx_mul(rr, dir_y);
        let oz = origin.z + fx_mul(rr, ct);
        let ghost prev_len = points@.len() as int;
        proof {
            assert((child + 1) * pow8((depth - 1) as nat) <= 8 * pow8((depth - 1) as nat))
                by (nonlinear_arith)
                requires
                    0 <= child < 8,
                    pow8((depth - 1) as nat) >= 0,
            ;
            assert(child * pow8((depth - 1) as nat) + pow8((depth - 1) as nat) == (child + 1)
                * pow8((depth - 1) as nat)) by (nonlinear_arith);
        }
        generate_fractal_cloud(
            rng,
            Point3D { x: ox, y: oy, z: oz },
            half,
            depth - 1,
            points,
        );
        proof {
            assert(points@.len() == prev_len + pow8((depth - 1) as nat));
            assert((child + 1) * pow8((depth - 1) as nat) == child * pow8((depth - 1) as nat)
                + pow8((depth - 1) as nat)) by (nonlinear_arith);
        }
        child = child + 1;
    }
    proof {
        assert(8 * pow8((depth - 1) as nat) == pow8(depth as nat));
    }
}

/// The fractal-cloud animation: each frame rebuilds the cloud from the
/// origin with a time-modulated initial radius; every frame holds
/// exactly `8 ^ max_depth` points.
pub fn animated_fractal_cloud_plot(
    rng: &mut RandomSource,
    num_frames: usize,
    max_depth: usize,
    initial_radius: i64,
) -> (frames: Vec<Vec<Point3D>>)
    requires
        1 <= num_frames <= 100000,
        max_depth <= 8,
        5 * ONE <= initial_radius <= 0x1_0000_0000,
    ensures
        frames@.len() == num_frames,
        forall|f: int|
            0 <= f < num_frames ==> (#[trigger] frames@[f])@.len() == pow8(max_depth as nat),
{
    let mut frames: Vec<Vec<Point3D>> = Vec::new();
    let mut f: usize = 0;
    while f < num_frames
        invariant
            1 <= num_frames <= 100000,
            max_depth <= 8,
            5 * ONE <= initial_radius <= 0x1_0000_0000,
            0 <= f <= num_frames,
            frames@.len() == f,
            forall|g: int|
                0 <= g < f ==> (#[trigger] frames@[g])@.len() == pow8(max_depth as nat),
        decreases num_frames - f,
    {
        let sv = sin_fx(div_trunc((f as i64) * 655360, num_frames as i64));
        proof {
            lemma_fmul_bound(sv as int, 5 * (ONE as int), ONE as int, 5 * (ONE as int));
        }
        let swing = fx_mul(sv, 5 * ONE);
        let radius = initial_radius + swing;
        let mut points: Vec<Point3D> = Vec::new();
        proof {
            lemma_pow8_bound(max_depth as nat);
        }
        generate_fractal_cloud(rng, Point3D { x: 0, y: 0, z: 0 }, radius, max_depth, &mut points);
        frames.push(points);
        f = f + 1;
    }
    frames
}

} // verus!
