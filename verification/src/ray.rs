//! Rays and hit records.

use vstd::prelude::*;
use crate::fixed::{floor_div, lemma_div_bounds, MAX_COORD, MAX_POINT, SCALE};
use crate::vec3::{within, Vec3};

verus! {

/// A ray: origin plus direction, giving the point `origin + t * direction`.
/// The direction need not be unit length, but must not be zero.
#[derive(Clone, Copy, PartialEq, Eq, Structural, Debug)]
pub struct Ray {
    pub origin: Vec3,
    pub direction: Vec3,
}

/// One coordinate of `origin + t * direction`: the product carries two
/// scale factors, so it is scaled back down by `SCALE`, rounded toward
/// negative infinity.
pub open spec fn at_coord(o: i64, d: i64, t: int) -> int {
    o + (t * d) / (SCALE as int)
}

/// `p` is exactly the fixed-point evaluation of `ray.at(t)`.
pub open spec fn ray_at(ray: Ray, t: int, p: Vec3) -> bool {
    &&& p.x == at_coord(ray.origin.x, ray.direction.x, t)
    &&& p.y == at_coord(ray.origin.y, ray.direction.y, t)
    &&& p.z == at_coord(ray.origin.z, ray.direction.z, t)
}

impl Ray {
    /// Bounded coordinates and a non-zero direction: the inputs the
    /// intersection routines accept.
    pub open spec fn wf(self) -> bool {
        &&& self.origin.bounded()
        &&& self.direction.bounded()
        &&& !self.direction.is_zero()
    }

    pub fn new(origin: Vec3, direction: Vec3) -> (r: Ray)
        ensures
            r == (Ray { origin, direction }),
    {
        Ray { origin, direction }
    }

    /// The point at parameter `t` along the ray.
    pub fn at(&self, t: i64) -> (p: Vec3)
        requires
            self.origin.bounded(),
            self.direction.bounded(),
            -MAX_COORD <= t <= MAX_COORD,
        ensures
            ray_at(*self, t as int, p),
            within(p, MAX_POINT),
    {
        let x = at_exec(self.origin.x, self.direction.x, t);
        let y = at_exec(self.origin.y, self.direction.y, t);
        let z = at_exec(self.origin.z, self.direction.z, t);
        Vec3 { x, y, z }
    }
}

/// One coordinate of a ray evaluation, computed in `i128` and proved to fit
/// back into `i64`.
fn at_exec(o: i64, d: i64, t: i64) -> (r: i64)
    requires
        -MAX_COORD <= o <= MAX_COORD,
        -MAX_COORD <= d <= MAX_COORD,
        -MAX_COORD <= t <= MAX_COORD,
    ensures
        r == at_coord(o, d, t as int),
        -MAX_POINT <= r <= MAX_POINT,
{
    proof {
        assert(-0x100_0000_0000_0000 <= (t as int) * (d as int) <= 0x100_0000_0000_0000)
            by (nonlinear_arith)
            requires
                -MAX_COORD <= t <= MAX_COORD,
                -MAX_COORD <= d <= MAX_COORD,
                MAX_COORD == 0x1000_0000;
        lemma_div_bounds((t as int) * (d as int), SCALE as int, 0x100_0000_0000_0000);
        assert(0x100_0000_0000_0000int / (SCALE as int) == 0x100_0000_0000int);
    }
    let num: i128 = (t as i128) * (d as i128);
    let q: i128 = floor_div(num, SCALE as i128);
    o + (q as i64)
}

/// The record of a successful ray-surface intersection.
#[derive(Clone, Copy, PartialEq, Eq, Structural, Debug)]
pub struct Hit {
    /// The ray parameter of the intersection, within the queried range.
    pub t: i64,
    /// The intersection point; always exactly `ray.at(t)` for the ray that
    /// produced the record.
    pub point: Vec3,
    /// The outward surface normal at `point`, scaled so that a length of
    /// `SCALE` is unit length.
    pub normal: Vec3,
    /// An opaque material handle, stored and passed through for the shading
    /// code; this crate never interprets it.
    pub material: usize,
}

impl Hit {
    /// Builds a hit record. The point is derived from the ray, never supplied
    /// by the caller, so `point == ray.at(t)` holds of every record built
    /// here.
    pub fn new(t: i64, ray: &Ray, material: usize, normal: Vec3) -> (h: Hit)
        requires
            ray.origin.bounded(),
            ray.direction.bounded(),
            -MAX_COORD <= t <= MAX_COORD,
        ensures
            h.t == t,
            h.material == material,
            h.normal == normal,
            ray_at(*ray, t as int, h.point),
            within(h.point, MAX_POINT),
    {
        let point = ray.at(t);
        Hit { t, point, normal, material }
    }
}

} // verus!
