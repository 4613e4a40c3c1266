//! Integer-valued translations and transforms.
//!
//! Every position in the engine is an exact integer vector, so layout and
//! animation rules can be stated and proved without rounding surprises.

use vstd::prelude::*;

verus! {

/// A 3-component integer translation.
#[derive(Clone, Copy, PartialEq, Eq, Structural, Debug)]
pub struct Vec3i {
    pub x: i64,
    pub y: i64,
    pub z: i64,
}

impl Vec3i {
    /// Component-wise sum, or `None` when a component would overflow.
    pub fn checked_add(self, other: Vec3i) -> (r: Option<Vec3i>)
        ensures
            r is Some <==> {
                &&& i64::MIN <= self.x + other.x <= i64::MAX
                &&& i64::MIN <= self.y + other.y <= i64::MAX
                &&& i64::MIN <= self.z + other.z <= i64::MAX
            },
            r matches Some(v) ==> v == (Vec3i {
                x: (self.x + other.x) as i64,
                y: (self.y + other.y) as i64,
                z: (self.z + other.z) as i64,
            }),
    {
        match (self.x.checked_add(other.x), self.y.checked_add(other.y), self.z.checked_add(other.z)) {
            (Some(x), Some(y), Some(z)) => Some(Vec3i { x, y, z }),
            _ => None,
        }
    }

    /// Component-wise difference, or `None` when a component would overflow.
    pub fn checked_sub(self, other: Vec3i) -> (r: Option<Vec3i>)
        ensures
            r is Some <==> {
                &&& i64::MIN <= self.x - other.x <= i64::MAX
                &&& i64::MIN <= self.y - other.y <= i64::MAX
                &&& i64::MIN <= self.z - other.z <= i64::MAX
            },
            r matches Some(v) ==> v == (Vec3i {
                x: (self.x - other.x) as i64,
                y: (self.y - other.y) as i64,
                z: (self.z - other.z) as i64,
            }),
    {
        match (self.x.checked_sub(other.x), self.y.checked_sub(other.y), self.z.checked_sub(other.z)) {
            (Some(x), Some(y), Some(z)) => Some(Vec3i { x, y, z }),
            _ => None,
        }
    }
}

/// Whether the Euclidean distance between `a` and `b` is at most `radius`,
/// stated on squares so it is exact on integers.
pub open spec fn within_distance(a: Vec3i, b: Vec3i, radius: int) -> bool {
    let dx = a.x - b.x;
    let dy = a.y - b.y;
    let dz = a.z - b.z;
    dx * dx + dy * dy + dz * dz <= radius * radius
}

/// Decides [`within_distance`] for a non-negative, bounded radius.
pub fn check_within_distance(a: Vec3i, b: Vec3i, radius: i64) -> (r: bool)
    requires
        0 <= radius <= 0x1_0000_0000,
    ensures
        r == within_distance(a, b, radius as int),
{
    let dx: i128 = a.x as i128 - b.x as i128;
    let dy: i128 = a.y as i128 - b.y as i128;
    let dz: i128 = a.z as i128 - b.z as i128;
    let rad: i128 = radius as i128;
    if dx > rad || dx < -rad || dy > rad || dy < -rad || dz > rad || dz < -rad {
        proof {
            let dxi = a.x - b.x;
            let dyi = a.y - b.y;
            let dzi = a.z - b.z;
            assert(dxi * dxi + dyi * dyi + dzi * dzi > radius * radius) by (nonlinear_arith)
                requires
                    0 <= radius,
                    dxi == a.x - b.x,
                    dyi == a.y - b.y,
                    dzi == a.z - b.z,
                    dxi > radius || dxi < -radius || dyi > radius || dyi < -radius || dzi > radius
                        || dzi < -radius,
            ;
        }
        false
    } else {
        proof {
            let dxi = a.x - b.x;
            let dyi = a.y - b.y;
            let dzi = a.z - b.z;
            assert(0 <= dxi * dxi <= radius * radius && 0 <= dyi * dyi <= radius * radius && 0
                <= dzi * dzi <= radius * radius && radius * radius <= 0x1_0000_0000
                * 0x1_0000_0000) by (nonlinear_arith)
                requires
                    0 <= radius <= 0x1_0000_0000,
                    dxi == a.x - b.x,
                    dyi == a.y - b.y,
                    dzi == a.z - b.z,
                    -radius <= dxi <= radius,
                    -radius <= dyi <= radius,
                    -radius <= dzi <= radius,
            ;
        }
        dx * dx + dy * dy + dz * dz <= rad * rad
    }
}

/// A transform: an exact translation plus an opaque scale. Scale is carried
/// and installed but never combined arithmetically with anything.
#[derive(Clone, Copy, PartialEq, Eq, Structural, Debug)]
pub struct Transform {
    pub translation: Vec3i,
    pub scale: i64,
}

impl Transform {
    /// The identity transform: zero translation, unit scale.
    pub fn identity() -> (r: Transform)
        ensures
            r == (Transform { translation: Vec3i { x: 0, y: 0, z: 0 }, scale: 1 }),
    {
        Transform { translation: Vec3i { x: 0, y: 0, z: 0 }, scale: 1 }
    }
}

} // verus!
