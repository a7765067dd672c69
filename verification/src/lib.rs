//! Procedural generation of animated numeric visualization datasets:
//! scalar-field grids of colors, multi-series line charts, and 3D point
//! clouds, each computed frame by frame from closed-form or short-iterative
//! models over a fixed-point representation of real numbers (an `i64`
//! holding the value times [`ONE`]).
//!
//! Every generator's output is pinned, point by point and cell by cell, to
//! a spec-level formula; randomness enters only through an explicit,
//! seedable [`rng::RandomSource`], and only the range of each draw is
//! specified.

pub mod color;
pub mod coords;
pub mod explog;
pub mod fixed;
pub mod fractal;
pub mod grid;
pub mod lines;
pub mod particles;
pub mod rng;
pub mod shapes;
pub mod threed;
pub mod trig;

pub use coords::vector;
pub use fixed::ONE;
pub use fractal::fractal_grid;
pub use grid::cellular_grid;
pub use grid::heat_maps;
pub use grid::interference_grid;
pub use grid::vector_field_grid;
pub use lines::generate_circular_dance;
pub use lines::generate_damped_oscillations;
pub use lines::generate_fourier_square_wave;
pub use lines::generate_fractal_flow;
pub use lines::generate_harmonic_waves;
pub use lines::generate_lines;
pub use lines::generate_quantum_waves;
pub use lines::generate_sine_cosine_waves;
pub use lines::generate_spiral_waves;
pub use particles::animated_fractal_cloud_plot;
pub use particles::animated_particle_swarm_plot;
pub use particles::generate_fractal_cloud;
pub use rng::RandomSource;
pub use shapes::Point2D;
pub use shapes::Point3D;
pub use shapes::Rgb;
pub use threed::animated_spherical_grid_plot;
pub use threed::animated_torus_plot;
pub use threed::enhanced_room_plot;
pub use threed::mobius_strip_plot;
pub use threed::room_plot;
pub use threed::PlotParams;
