//! Tests of the scalar-field grid generators and the fractal renderer.

use vizgen::fractal::{escape_iter, fractal_frame};
use vizgen::grid::{cellular_frame, heat_map_frame, interference_frame, vector_field_frame};
use vizgen::{cellular_grid, heat_maps, interference_grid, vector_field_grid};
use vizgen::{Point2D, ONE};

#[test]
fn heat_map_dimensions_and_center_cell() {
    let g = heat_map_frame(4, 4, 0);
    assert_eq!(g.len(), 4);
    for row in &g {
        assert_eq!(row.len(), 4);
    }
    // At the midpoint the distance is zero: red 1, green 1, blue sin(0).
    let c = g[2][2];
    assert_eq!(c.r, ONE);
    assert_eq!(c.g, ONE);
    assert_eq!(c.b, 0);
}

#[test]
fn heat_maps_frame_count() {
    let frames = heat_maps(3, 3, 2);
    assert_eq!(frames.len(), 3);
    for f in &frames {
        assert_eq!(f.len(), 3);
        assert_eq!(f[0].len(), 3);
    }
}

#[test]
fn interference_single_source_at_its_own_cell() {
    // A 4x4 field with one source at (2, 2), time 0: the cell at the
    // source has distance zero, so the intensity is exactly one half.
    let sources = vec![Point2D { x: 2 * ONE, y: 2 * ONE }];
    let g = interference_frame(&sources, 4, 4, 0);
    let c = g[2][2];
    assert_eq!(c.r, ONE / 2);
    assert_eq!(c.g, ONE - ONE / 2);
    assert_eq!(c.b, ONE / 2);
}

#[test]
fn interference_grid_frame_count() {
    let sources = vec![
        Point2D { x: ONE, y: ONE },
        Point2D { x: 3 * ONE, y: 3 * ONE },
    ];
    let frames = interference_grid(4, 4, 2, &sources);
    assert_eq!(frames.len(), 3);
}

#[test]
fn cellular_grid_shapes() {
    let g = cellular_frame(5, 3, 123456);
    assert_eq!(g.len(), 3);
    assert_eq!(g[0].len(), 5);
    let frames = cellular_grid(3, 3, 1);
    assert_eq!(frames.len(), 2);
}

#[test]
fn vector_field_shapes_and_range() {
    let g = vector_field_frame(6, 6, 98765);
    assert_eq!(g.len(), 6);
    for row in &g {
        assert_eq!(row.len(), 6);
        for c in row {
            // Intensity and phase are sines mapped into [0, 1].
            assert!(0 <= c.r && c.r <= ONE);
            assert!(0 <= c.g && c.g <= ONE);
        }
    }
    let frames = vector_field_grid(3, 3, 1);
    assert_eq!(frames.len(), 2);
}

#[test]
fn fractal_far_point_escapes_immediately() {
    // c = (2, 2) lies far outside the escape radius: the loop leaves at
    // iteration 1, whatever the cap.
    let (it, zx, zy) = escape_iter(2 * ONE, 2 * ONE, 500);
    assert_eq!(it, 1);
    assert_eq!(zx, 2 * ONE);
    assert_eq!(zy, 2 * ONE);
    let (it2, _, _) = escape_iter(2 * ONE, 2 * ONE, 7);
    assert_eq!(it2, 1);
}

#[test]
fn fractal_cardioid_center_runs_to_cap() {
    // c = (0, 0) never escapes: the orbit stays at the origin and the
    // iteration runs to the cap.
    let (it, zx, zy) = escape_iter(0, 0, 400);
    assert_eq!(it, 400);
    assert_eq!(zx, 0);
    assert_eq!(zy, 0);
}

#[test]
fn fractal_smooth_count_stable_under_larger_cap() {
    // For a fixed escaping point, a larger cap changes nothing: the
    // smooth count is (weakly) monotone in the cap.
    let r1 = escape_iter(ONE / 2, ONE / 2, 100);
    let r2 = escape_iter(ONE / 2, ONE / 2, 1000);
    assert!(r1.0 < 100);
    assert_eq!(r1, r2);
}

#[test]
fn fractal_frame_paints_center_black() {
    // Around the origin target at time 0 the center cells hold bounded
    // orbits, painted black.
    let g = fractal_frame(4, 4, 0, 0, 0);
    assert_eq!(g.len(), 4);
    assert_eq!(g[0].len(), 4);
    // At time 0 the spiral camera sits one unit right of the target, so
    // pixel (1, 2) maps to the plane origin exactly: black.
    let c = g[2][1];
    assert_eq!((c.r, c.g, c.b), (0, 0, 0));
}
