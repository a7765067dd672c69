//! Plain geometric value types carried by every generator: a 2D point,
//! a 3D point, and a color triple, all in fixed-point units.

use vstd::prelude::*;

verus! {

/// A color as three fixed-point components, each meant to store a value
/// in `[0, 1]`; nothing clamps them, out-of-range components pass
/// through unchanged.
#[derive(Clone, Copy, PartialEq, Eq, Structural, Debug)]
pub struct Rgb {
    pub r: i64,
    pub g: i64,
    pub b: i64,
}

impl Rgb {
    /// Grayscale-like color from a single intensity.
    pub fn from_intensity(v: i64) -> (c: Rgb)
        ensures
            c == (Rgb { r: v, g: v, b: v }),
    {
        Rgb { r: v, g: v, b: v }
    }

    /// Identity constructor: the components pass through unchanged.
    pub fn from_components(r: i64, g: i64, b: i64) -> (c: Rgb)
        ensures
            c == (Rgb { r, g, b }),
    {
        Rgb { r, g, b }
    }
}

/// A point of a 2D line series, in fixed-point units.
#[derive(Clone, Copy, PartialEq, Eq, Structural, Debug)]
pub struct Point2D {
    pub x: i64,
    pub y: i64,
}

impl Point2D {
    /// Plain constructor.
    pub fn new(x: i64, y: i64) -> (p: Point2D)
        ensures
            p == (Point2D { x, y }),
    {
        Point2D { x, y }
    }
}

/// A point of a 3D cloud, in fixed-point units.
#[derive(Clone, Copy, PartialEq, Eq, Structural, Debug)]
pub struct Point3D {
    pub x: i64,
    pub y: i64,
    pub z: i64,
}

impl Point3D {
    /// Plain constructor.
    pub fn new(x: i64, y: i64, z: i64) -> (p: Point3D)
        ensures
            p == (Point3D { x, y, z }),
    {
        Point3D { x, y, z }
    }
}

} // verus!
