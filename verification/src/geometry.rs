//! Fixed-point geometry and colour.
//!
//! Every length, coordinate and colour channel is an integer number of
//! hundredths: `100` stands for one world unit (or for full intensity), `-95`
//! for `-0.95`. A renderer divides by [`UNIT`] once, at the very end.

use vstd::prelude::*;

verus! {

/// Number of fixed-point steps in one world unit.
pub const UNIT: i32 = 100;

/// A vector of three fixed-point coordinates.
#[derive(Clone, Copy, Debug, PartialEq, Eq, Structural)]
pub struct Vec3 {
    pub x: i32,
    pub y: i32,
    pub z: i32,
}

impl Vec3 {
    /// The vector with the given coordinates.
    pub fn new(x: i32, y: i32, z: i32) -> (v: Vec3)
        ensures
            v == (Vec3 { x, y, z }),
    {
        Vec3 { x, y, z }
    }

    /// The vector whose three coordinates all equal `value`.
    pub fn splat(value: i32) -> (v: Vec3)
        ensures
            v == (Vec3 { x: value, y: value, z: value }),
    {
        Vec3 { x: value, y: value, z: value }
    }

    /// Centre of the board square in row `row` and column `column`: rows run
    /// along X, columns along Z, and the board lies in the plane Y = 0.
    pub open spec fn square(row: int, column: int) -> Vec3 {
        Vec3 { x: (row * 100) as i32, y: 0, z: (column * 100) as i32 }
    }

    /// Centre of a board square, see [`Vec3::square`]. Any `u8` is accepted,
    /// so squares beyond the eighth row or column can be addressed too.
    pub fn at_square(row: u8, column: u8) -> (v: Vec3)
        ensures
            v == Vec3::square(row as int, column as int),
            v.x == row * 100,
            v.y == 0,
            v.z == column * 100,
    {
        let x: i32 = row as i32 * UNIT;
        let z: i32 = column as i32 * UNIT;
        Vec3 { x, y: 0, z }
    }
}

/// A rotation, given by the four fixed-point components of a quaternion.
///
/// Only the direction of the quaternion matters: whoever turns it into a
/// rotation normalises it first. `(0, 0, 0, 100)` is the identity.
#[derive(Clone, Copy, Debug, PartialEq, Eq, Structural)]
pub struct Quat {
    pub x: i32,
    pub y: i32,
    pub z: i32,
    pub w: i32,
}

impl Quat {
    /// The rotation that turns nothing.
    pub open spec fn spec_identity() -> Quat {
        Quat { x: 0, y: 0, z: 0, w: 100 }
    }

    /// The rotation that turns nothing.
    #[verifier::when_used_as_spec(spec_identity)]
    pub fn identity() -> (q: Quat)
        ensures
            q == Quat::spec_identity(),
    {
        Quat { x: 0, y: 0, z: 0, w: UNIT }
    }

    /// The quaternion with the given components.
    pub fn from_xyzw(x: i32, y: i32, z: i32, w: i32) -> (q: Quat)
        ensures
            q == (Quat { x, y, z, w }),
    {
        Quat { x, y, z, w }
    }
}

/// Placement of an entity relative to its parent (or to the world, for an
/// entity without parent): scale first, then rotate, then translate.
#[derive(Clone, Copy, Debug, PartialEq, Eq, Structural)]
pub struct Transform {
    pub translation: Vec3,
    pub rotation: Quat,
    /// Scale factor per axis; `100` leaves the axis unchanged.
    pub scale: Vec3,
}

impl Transform {
    /// The transform that moves by `translation` and neither turns nor scales.
    pub open spec fn spec_from_translation(translation: Vec3) -> Transform {
        Transform {
            translation,
            rotation: Quat::spec_identity(),
            scale: Vec3 { x: 100, y: 100, z: 100 },
        }
    }

    /// The transform that moves by `translation` and neither turns nor scales.
    #[verifier::when_used_as_spec(spec_from_translation)]
    pub fn from_translation(translation: Vec3) -> (t: Transform)
        ensures
            t == Transform::spec_from_translation(translation),
    {
        Transform { translation, rotation: Quat::identity(), scale: Vec3::splat(UNIT) }
    }

    /// The transform that turns by `rotation`, then moves by `translation`.
    pub fn from_rotation_translation(rotation: Quat, translation: Vec3) -> (t: Transform)
        ensures
            t == (Transform { translation, rotation, scale: Vec3 { x: 100, y: 100, z: 100 } }),
    {
        Transform { translation, rotation, scale: Vec3::splat(UNIT) }
    }

    /// This transform with its scale replaced by `scale`.
    pub open spec fn spec_scaled(self, scale: Vec3) -> Transform {
        Transform { scale, ..self }
    }

    /// This transform with its scale replaced by `scale`.
    #[verifier::when_used_as_spec(spec_scaled)]
    pub fn scaled(self, scale: Vec3) -> (t: Transform)
        ensures
            t == self.spec_scaled(scale),
    {
        Transform { translation: self.translation, rotation: self.rotation, scale }
    }
}

/// An opaque surface colour with fixed-point red, green and blue channels.
#[derive(Clone, Copy, Debug, PartialEq, Eq, Structural)]
pub struct Color {
    pub r: i32,
    pub g: i32,
    pub b: i32,
}

impl Color {
    /// The colour with the given channels.
    pub fn rgb(r: i32, g: i32, b: i32) -> (c: Color)
        ensures
            c == (Color { r, g, b }),
    {
        Color { r, g, b }
    }
}

} // verus!
