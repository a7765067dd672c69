//! Tests of the 3D point-cloud generators: surfaces, the particle
//! simulation and the recursive fractal cloud.

use vizgen::particles::{init_particles, pow8_of, step_particles};
use vizgen::threed::FIVE_PI;
use vizgen::{
    animated_fractal_cloud_plot, animated_particle_swarm_plot, animated_spherical_grid_plot,
    animated_torus_plot, enhanced_room_plot, generate_fractal_cloud, mobius_strip_plot, room_plot,
};
use vizgen::{PlotParams, Point3D, RandomSource, ONE};

#[test]
fn torus_first_point_is_thirteen_zero_zero() {
    // Frame 0 has minor radius exactly 3 (sin 0 == 0); at u == v == 0 the
    // point is (R + r, 0, 0) == (13, 0, 0).
    let frames = animated_torus_plot(60, 10);
    assert_eq!(frames.len(), 60);
    assert_eq!(frames[0].len(), 100);
    let p = frames[0][0];
    assert_eq!(p, Point3D { x: 13 * ONE, y: 0, z: 0 });
}

#[test]
fn room_plot_shapes_and_coordinates() {
    let frames = room_plot(2, 2);
    assert_eq!(frames.len(), 2);
    assert_eq!(frames[0].len(), 4);
    assert_eq!(frames[0][0].x, -FIVE_PI);
    assert_eq!(frames[0][0].y, -FIVE_PI);
    assert_eq!(frames[0][3].x, FIVE_PI);
}

#[test]
fn mobius_strip_first_point() {
    let pts = mobius_strip_plot(4, 4);
    assert_eq!(pts.len(), 16);
    // t == 0, w == -1: base == 1 + (-1/2)/2 == 3/4; point (3/4, 0, 0).
    assert_eq!(pts[0], Point3D { x: 49152, y: 0, z: 0 });
}

#[test]
fn spherical_grid_first_point_on_axis() {
    let frames = animated_spherical_grid_plot(2, 2, 2, 2);
    assert_eq!(frames.len(), 2);
    assert_eq!(frames[0].len(), 8);
    // r == 1, theta == 0, phi == 0, no rotation: the point (0, 0, 1).
    assert_eq!(frames[0][0], Point3D { x: 0, y: 0, z: ONE });
}

#[test]
fn particle_positions_stay_inside_box() {
    // After every wrap, every coordinate is inside [-bound, bound].
    let mut rng = RandomSource::from_seed(7);
    let bound = 50 * ONE;
    let frames = animated_particle_swarm_plot(&mut rng, 5, 200, bound, 6554);
    assert_eq!(frames.len(), 5);
    for f in &frames {
        assert_eq!(f.len(), 200);
        for p in f {
            assert!(-bound <= p.x && p.x <= bound);
            assert!(-bound <= p.y && p.y <= bound);
            assert!(-bound <= p.z && p.z <= bound);
        }
    }
}

#[test]
fn wrap_step_never_touches_velocity() {
    let mut rng = RandomSource::from_seed(11);
    let mut ps = init_particles(&mut rng, 64, 50 * ONE, 6554);
    let vels: Vec<(i64, i64, i64)> = ps.iter().map(|p| (p.vel.x, p.vel.y, p.vel.z)).collect();
    step_particles(&mut ps, 50 * ONE, 6554);
    step_particles(&mut ps, 50 * ONE, 6554);
    for (p, v) in ps.iter().zip(vels.iter()) {
        assert_eq!((p.vel.x, p.vel.y, p.vel.z), *v);
        assert!(-50 * ONE <= p.pos.x && p.pos.x <= 50 * ONE);
    }
}

#[test]
fn fractal_cloud_depth_zero_is_the_origin() {
    let mut rng = RandomSource::from_seed(3);
    let mut pts: Vec<Point3D> = Vec::new();
    let origin = Point3D { x: ONE, y: 2 * ONE, z: -ONE };
    generate_fractal_cloud(&mut rng, origin, 10 * ONE, 0, &mut pts);
    assert_eq!(pts.len(), 1);
    assert_eq!(pts[0], origin);
}

#[test]
fn fractal_cloud_counts_are_powers_of_eight() {
    let mut rng = RandomSource::from_seed(5);
    for depth in 0..4usize {
        let mut pts: Vec<Point3D> = Vec::new();
        generate_fractal_cloud(
            &mut rng,
            Point3D { x: 0, y: 0, z: 0 },
            20 * ONE,
            depth,
            &mut pts,
        );
        assert_eq!(pts.len(), pow8_of(depth));
    }
}

#[test]
fn fractal_cloud_animation_frame_sizes() {
    let mut rng = RandomSource::from_seed(9);
    let frames = animated_fractal_cloud_plot(&mut rng, 3, 2, 20 * ONE);
    assert_eq!(frames.len(), 3);
    for f in &frames {
        assert_eq!(f.len(), 64);
    }
}

#[test]
fn enhanced_room_shapes() {
    let params = PlotParams {
        resolution: 3,
        x_range: (-2 * ONE, 2 * ONE),
        y_range: (-2 * ONE, 2 * ONE),
        time_steps: 2,
        time_scale: 3 * ONE,
        wave_count: 2,
        amplitude: 2 * ONE,
        frequency: ONE,
        turbulence: ONE / 2,
    };
    let frames = enhanced_room_plot(&params);
    assert_eq!(frames.len(), 2);
    for f in &frames {
        assert_eq!(f.len(), 9);
    }
    // The abscissas come from the configured ranges.
    assert_eq!(frames[0][0].x, -2 * ONE);
    assert_eq!(frames[0][8].x, 2 * ONE);
}

#[test]
fn default_params_are_the_documented_ones() {
    let p = PlotParams::default();
    assert_eq!(p.resolution, 300);
    assert_eq!(p.x_range.0, -1029440);
    assert_eq!(p.x_range.1, 1029440);
    assert_eq!(p.y_range.0, -1029440);
    assert_eq!(p.y_range.1, 1029440);
    assert_eq!(p.time_steps, 150);
    assert_eq!(p.time_scale, 617664);
    assert_eq!(p.wave_count, 4);
    assert_eq!(p.amplitude, 3 * ONE);
    assert_eq!(p.frequency, ONE);
    assert_eq!(p.turbulence, ONE / 2);
}
