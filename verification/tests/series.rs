//! Tests of the line-series generators.

use vizgen::{
    generate_circular_dance, generate_damped_oscillations, generate_fourier_square_wave,
    generate_fractal_flow, generate_harmonic_waves, generate_lines, generate_quantum_waves,
    generate_sine_cosine_waves, generate_spiral_waves,
};
use vizgen::{Point2D, RandomSource, ONE};

#[test]
fn damped_oscillation_starts_at_unit_amplitude() {
    // Frame 0, first curve (A == 1, gamma == 0.1): the point at t == 0 is
    // exactly (0, 1), since e^0 == 1 and cos(0) == 1 in this model.
    let frames = generate_damped_oscillations(1, 8);
    assert_eq!(frames.len(), 1);
    assert_eq!(frames[0].len(), 2);
    assert_eq!(frames[0][0].len(), 8);
    assert_eq!(frames[0][0][0], Point2D { x: 0, y: ONE });
}

#[test]
fn damped_oscillation_decays() {
    let frames = generate_damped_oscillations(1, 64);
    // Late in the sweep the envelope has shrunk well below the start.
    let late = frames[0][0][63];
    assert!(late.y.abs() < ONE);
}

#[test]
fn fourier_square_wave_first_harmonic() {
    let frames = generate_fourier_square_wave(1, 4);
    assert_eq!(frames[0].len(), 2);
    // First harmonic at t == tau/4 == pi/2: (4/pi) * sin(pi/2) == 4/pi.
    assert_eq!(frames[0][0][1], Point2D { x: 102944, y: 83443 });
    // Third harmonic's coefficient is a third of the first's.
    assert_eq!(frames[0][1][1].x, 102944);
}

#[test]
fn basic_lines_shapes_and_abscissa() {
    let mut rng = RandomSource::from_seed(1);
    let frames = generate_lines(&mut rng, 2, 16);
    assert_eq!(frames.len(), 2);
    assert_eq!(frames[0].len(), 2);
    assert_eq!(frames[0][0].len(), 16);
    assert_eq!(frames[0][0][0].x, 0);
    // The abscissa sweep ends at ten half-turns.
    assert_eq!(frames[0][0][15].x, 10 * 205888);
}

#[test]
fn sine_cosine_first_curve_is_exact_sine() {
    let mut rng = RandomSource::from_seed(2);
    let frames = generate_sine_cosine_waves(&mut rng, 1, 8);
    assert_eq!(frames[0].len(), 2);
    // Curve 0 carries no jitter: at x == 0 the sine is exactly 0.
    assert_eq!(frames[0][0][0], Point2D { x: 0, y: 0 });
}

#[test]
fn spiral_waves_radius_grows() {
    let mut rng = RandomSource::from_seed(3);
    let frames = generate_spiral_waves(&mut rng, 1, 32);
    assert_eq!(frames[0].len(), 2);
    let first = frames[0][0][0];
    // At v == 0, frame 0: angle 0, radius 0: the x coordinate is 0.
    assert_eq!(first.x, 0);
    assert!(0 <= first.y && first.y < 6554);
}

#[test]
fn harmonic_waves_shapes() {
    let mut rng = RandomSource::from_seed(4);
    let frames = generate_harmonic_waves(&mut rng, 2, 12);
    assert_eq!(frames.len(), 2);
    assert_eq!(frames[0].len(), 3);
    assert_eq!(frames[0][2].len(), 12);
    // Abscissas run from -pi to pi.
    assert_eq!(frames[0][0][0].x, -205888);
    assert_eq!(frames[0][0][11].x, 205888);
}

#[test]
fn circular_dance_stays_near_its_circle() {
    let mut rng = RandomSource::from_seed(5);
    let frames = generate_circular_dance(&mut rng, 1, 16);
    assert_eq!(frames[0].len(), 4);
    for (i, curve) in frames[0].iter().enumerate() {
        let radius = ONE + (i as i64) * (ONE / 2);
        for p in curve {
            // Within the circle's box plus the jitter margin.
            assert!(p.x.abs() <= radius + 3277);
            assert!(p.y.abs() <= radius + 3277);
        }
    }
}

#[test]
fn fractal_flow_shapes() {
    let mut rng = RandomSource::from_seed(6);
    let frames = generate_fractal_flow(&mut rng, 1, 10);
    assert_eq!(frames[0].len(), 4);
    assert_eq!(frames[0][0].len(), 10);
    // Abscissas run from -tau to tau.
    assert_eq!(frames[0][0][0].x, -411776);
    assert_eq!(frames[0][0][9].x, 411776);
}

#[test]
fn quantum_wave_packet_fades_far_out() {
    let mut rng = RandomSource::from_seed(8);
    let frames = generate_quantum_waves(&mut rng, 1, 33);
    assert_eq!(frames[0].len(), 3);
    // Far from the center the Gaussian envelope kills the wave: only the
    // (envelope-scaled) jitter remains, which is then also tiny.
    let edge = frames[0][0][0];
    assert!(edge.y.abs() <= 1311);
    // At the center the envelope is 1 and the carrier has unit scale.
    let mid = frames[0][0][16];
    assert!(mid.y.abs() <= 2 * ONE);
}
