//! Three-component vectors of fixed-point coordinates.

use vstd::prelude::*;
use crate::fixed::MAX_COORD;

verus! {

/// A 3-vector whose coordinates are integer counts of `1/SCALE` world units.
#[derive(Clone, Copy, PartialEq, Eq, Structural, Debug)]
pub struct Vec3 {
    pub x: i64,
    pub y: i64,
    pub z: i64,
}

/// All three coordinates lie within `m` in magnitude.
pub open spec fn within(v: Vec3, m: i64) -> bool {
    &&& -m <= v.x <= m
    &&& -m <= v.y <= m
    &&& -m <= v.z <= m
}

/// The mathematical dot product of two vectors, exact and unscaled.
pub open spec fn dot(u: Vec3, v: Vec3) -> int {
    u.x * v.x + u.y * v.y + u.z * v.z
}

impl Vec3 {
    pub fn new(x: i64, y: i64, z: i64) -> (v: Vec3)
        ensures
            v == (Vec3 { x, y, z }),
    {
        Vec3 { x, y, z }
    }

    /// Coordinates small enough for the intersection math to stay exact.
    pub open spec fn bounded(self) -> bool {
        within(self, MAX_COORD)
    }

    pub open spec fn is_zero(self) -> bool {
        self.x == 0 && self.y == 0 && self.z == 0
    }
}

} // verus!
