//! The sphere primitive and its ray intersection by analytic quadratic solve.

use vstd::prelude::*;
use crate::fixed::{floor_div, isqrt, sqrt_floor, MAX_COORD, MAX_POINT, SCALE};
use crate::ray::{ray_at, Hit, Ray};
use crate::vec3::{dot, within, Vec3};

verus! {

/// A sphere: center, radius and an opaque material handle. Immutable after
/// construction; the radius must be positive.
#[derive(Clone, Copy, PartialEq, Eq, Structural, Debug)]
pub struct Sphere {
    pub center: Vec3,
    pub radius: i64,
    pub material: usize,
}

/// One coordinate of the vector from the sphere center to the ray origin.
pub open spec fn oc_x(s: Sphere, ray: Ray) -> int {
    ray.origin.x - s.center.x
}

pub open spec fn oc_y(s: Sphere, ray: Ray) -> int {
    ray.origin.y - s.center.y
}

pub open spec fn oc_z(s: Sphere, ray: Ray) -> int {
    ray.origin.z - s.center.z
}

/// The leading quadratic coefficient: `direction . direction`.
pub open spec fn quad_a(ray: Ray) -> int {
    dot(ray.direction, ray.direction)
}

/// The half middle coefficient: `oc . direction`.
pub open spec fn quad_b(s: Sphere, ray: Ray) -> int {
    oc_x(s, ray) * ray.direction.x + oc_y(s, ray) * ray.direction.y + oc_z(s, ray)
        * ray.direction.z
}

/// The constant coefficient: `oc . oc - radius^2`.
pub open spec fn quad_c(s: Sphere, ray: Ray) -> int {
    oc_x(s, ray) * oc_x(s, ray) + oc_y(s, ray) * oc_y(s, ray) + oc_z(s, ray) * oc_z(s, ray)
        - s.radius * s.radius
}

/// The quadratic discriminant `b^2 - a*c`; negative exactly when the ray
/// misses the sphere entirely.
pub open spec fn disc(s: Sphere, ray: Ray) -> int {
    quad_b(s, ray) * quad_b(s, ray) - quad_a(ray) * quad_c(s, ray)
}

/// The nearer root `(-b - sqrt(disc)) / a`, as a fixed-point parameter
/// (scaled by `SCALE`, rounded toward negative infinity).
pub open spec fn root_near(s: Sphere, ray: Ray) -> int {
    (SCALE * (-quad_b(s, ray) - sqrt_floor(disc(s, ray)))) / quad_a(ray)
}

/// The farther root `(-b + sqrt(disc)) / a`, scaled and rounded the same way.
pub open spec fn root_far(s: Sphere, ray: Ray) -> int {
    (SCALE * (-quad_b(s, ray) + sqrt_floor(disc(s, ray)))) / quad_a(ray)
}

/// The ray parameter `Sphere::hit` reports for a query range: the nearer
/// root if it lies in range, else the farther root if it does, else nothing.
pub open spec fn sphere_hit_t(s: Sphere, ray: Ray, t_min: int, t_max: int) -> Option<int> {
    if disc(s, ray) < 0 {
        None
    } else if t_min <= root_near(s, ray) <= t_max {
        Some(root_near(s, ray))
    } else if t_min <= root_far(s, ray) <= t_max {
        Some(root_far(s, ray))
    } else {
        None
    }
}

/// One coordinate of the outward normal at `p`: `SCALE * (p - center) /
/// radius`, rounded toward negative infinity, so that a length of `SCALE`
/// is unit length.
pub open spec fn normal_coord(p: i64, c: i64, radius: i64) -> int {
    (SCALE * (p - c)) / (radius as int)
}

/// `n` is exactly the fixed-point outward normal of `s` at the point `p`.
pub open spec fn outward_normal(s: Sphere, p: Vec3, n: Vec3) -> bool {
    &&& n.x == normal_coord(p.x, s.center.x, s.radius)
    &&& n.y == normal_coord(p.y, s.center.y, s.radius)
    &&& n.z == normal_coord(p.z, s.center.z, s.radius)
}

/// One coordinate of the exact, unrounded vector from the sphere center to
/// the ray point at parameter `t`: it carries two scale factors, so its
/// world value is this divided by `SCALE^2`.
pub open spec fn off_x(s: Sphere, ray: Ray, t: int) -> int {
    SCALE * oc_x(s, ray) + t * ray.direction.x
}

pub open spec fn off_y(s: Sphere, ray: Ray, t: int) -> int {
    SCALE * oc_y(s, ray) + t * ray.direction.y
}

pub open spec fn off_z(s: Sphere, ray: Ray, t: int) -> int {
    SCALE * oc_z(s, ray) + t * ray.direction.z
}

/// The squared distance (doubly scaled) from the sphere center to the exact
/// ray point at parameter `t`.
pub open spec fn off_sq(s: Sphere, ray: Ray, t: int) -> int {
    off_x(s, ray, t) * off_x(s, ray, t) + off_y(s, ray, t) * off_y(s, ray, t) + off_z(s, ray, t)
        * off_z(s, ray, t)
}

/// Squaring a scaled binomial, one coordinate at a time.
proof fn lemma_coord_square(o: int, w: int, t: int)
    by (nonlinear_arith)
    ensures
        (65536 * o + t * w) * (65536 * o + t * w) == 4294967296 * (o * o) + 131072 * ((o * w)
            * t) + (w * w) * (t * t),
{
}

/// Distributing a common factor over a three-term sum.
proof fn lemma_distribute3(p1: int, p2: int, p3: int, t: int)
    by (nonlinear_arith)
    ensures
        p1 * t + p2 * t + p3 * t == (p1 + p2 + p3) * t,
{
}

/// Regrouping the scaled quadratic so that every scalar is a single literal.
proof fn lemma_quad_shape(a: int, b: int, c: int, t: int, sc: int)
    by (nonlinear_arith)
    requires
        sc == 65536,
    ensures
        a * t * t + 2 * sc * b * t + sc * sc * c == a * (t * t) + 131072 * (b * t) + 4294967296
            * c,
{
}

/// Collapsing a double scale factor into a single literal.
proof fn lemma_scale_sq_shape(x: int, sc: int)
    by (nonlinear_arith)
    requires
        sc == 65536,
    ensures
        sc * sc * x == 4294967296 * x,
{
}

/// Any parameter that exactly satisfies the scaled quadratic places the
/// exact ray point exactly on the sphere surface: the squared distance from
/// the center equals the squared radius (each doubly scaled). Equivalently,
/// the exact outward normal `off / (SCALE * radius)` has unit length.
pub proof fn lemma_root_on_sphere(s: Sphere, ray: Ray, t: int)
    requires
        quad_a(ray) * t * t + 2 * SCALE * quad_b(s, ray) * t + SCALE * SCALE * quad_c(s, ray)
            == 0,
    ensures
        off_sq(s, ray, t) == SCALE * SCALE * (s.radius * s.radius),
{
    let ox = oc_x(s, ray);
    let oy = oc_y(s, ray);
    let oz = oc_z(s, ray);
    let dx = ray.direction.x as int;
    let dy = ray.direction.y as int;
    let dz = ray.direction.z as int;
    let r = s.radius as int;
    assert(off_x(s, ray, t) == 65536 * ox + t * dx);
    assert(off_y(s, ray, t) == 65536 * oy + t * dy);
    assert(off_z(s, ray, t) == 65536 * oz + t * dz);
    lemma_coord_square(ox, dx, t);
    lemma_coord_square(oy, dy, t);
    lemma_coord_square(oz, dz, t);
    lemma_distribute3(ox * dx, oy * dy, oz * dz, t);
    lemma_distribute3(dx * dx, dy * dy, dz * dz, t * t);
    assert(quad_b(s, ray) * t == (ox * dx + oy * dy + oz * dz) * t);
    assert(quad_a(ray) * (t * t) == (dx * dx + dy * dy + dz * dz) * (t * t));
    assert(off_sq(s, ray, t) == quad_a(ray) * (t * t) + 131072 * (quad_b(s, ray) * t)
        + 4294967296 * quad_c(s, ray) + 4294967296 * (r * r));
    lemma_quad_shape(quad_a(ray), quad_b(s, ray), quad_c(s, ray), t, SCALE as int);
    lemma_scale_sq_shape(s.radius * s.radius, SCALE as int);
}

/// Scaling the quadratic by its own leading coefficient.
proof fn lemma_quad_scale(a: int, b: int, c: int, t: int)
    by (nonlinear_arith)
    ensures
        a * (a * (t * t) + 131072 * (b * t) + 4294967296 * c) == (a * t) * (a * t) + 131072 * (b
            * (a * t)) + 4294967296 * (a * c),
{
}

/// Substituting either exact root into the scaled quadratic leaves only the
/// discriminant defect.
proof fn lemma_plug_root(b: int, d: int, a: int, c: int, x: int)
    by (nonlinear_arith)
    requires
        x == 65536 * (-b - d) || x == 65536 * (-b + d),
    ensures
        x * x + 131072 * (b * x) + 4294967296 * (a * c) == 4294967296 * (d * d - (b * b - a
            * c)),
{
}

/// A positive multiple of a value is zero only if the value is.
proof fn lemma_cancel_factor(a: int, q: int)
    by (nonlinear_arith)
    requires
        a >= 1,
        a * q == 0,
    ensures
        q == 0,
{
}

/// When the discriminant is a perfect square and the root division is exact,
/// the reported root satisfies the scaled quadratic exactly.
pub proof fn lemma_exact_root(s: Sphere, ray: Ray, t: int, num: int)
    requires
        quad_a(ray) >= 1,
        disc(s, ray) >= 0,
        sqrt_floor(disc(s, ray)) * sqrt_floor(disc(s, ray)) == disc(s, ray),
        num == SCALE * (-quad_b(s, ray) - sqrt_floor(disc(s, ray))) || num == SCALE * (-quad_b(
            s,
            ray,
        ) + sqrt_floor(disc(s, ray))),
        num % quad_a(ray) == 0,
        t == num / quad_a(ray),
    ensures
        quad_a(ray) * t * t + 2 * SCALE * quad_b(s, ray) * t + SCALE * SCALE * quad_c(s, ray)
            == 0,
{
    let a = quad_a(ray);
    let b = quad_b(s, ray);
    let c = quad_c(s, ray);
    let d = sqrt_floor(disc(s, ray));
    assert(SCALE * (-b - d) == 65536 * (-b - d) && SCALE * (-b + d) == 65536 * (-b + d))
        by (nonlinear_arith)
        requires
            SCALE == 65536,
            b == quad_b(s, ray),
            d == sqrt_floor(disc(s, ray));
    vstd::arithmetic::div_mod::lemma_fundamental_div_mod(num, a);
    assert(a * t == num);
    lemma_quad_scale(a, b, c, t);
    lemma_plug_root(b, d, a, c, num);
    assert(b * (a * t) == b * num);
    assert((a * t) * (a * t) == num * num);
    assert(a * (a * (t * t) + 131072 * (b * t) + 4294967296 * c) == 4294967296 * (d * d - (b * b
        - a * c)));
    assert(d * d == b * b - a * c);
    assert(a * (a * (t * t) + 131072 * (b * t) + 4294967296 * c) == 0);
    lemma_cancel_factor(a, a * (t * t) + 131072 * (b * t) + 4294967296 * c);
    lemma_quad_shape(a, b, c, t, SCALE as int);
}

/// On-sphere law: whenever the intersection test reports a hit and the root
/// is exactly representable (the discriminant is a perfect square and both
/// root divisions are exact), the reported parameter places the exact ray
/// point on the sphere surface, so the exact outward normal has unit length.
pub proof fn lemma_hit_on_sphere(s: Sphere, ray: Ray, t_min: int, t_max: int)
    requires
        quad_a(ray) >= 1,
        sqrt_floor(disc(s, ray)) * sqrt_floor(disc(s, ray)) == disc(s, ray),
        (SCALE * (-quad_b(s, ray) - sqrt_floor(disc(s, ray)))) % quad_a(ray) == 0,
        (SCALE * (-quad_b(s, ray) + sqrt_floor(disc(s, ray)))) % quad_a(ray) == 0,
    ensures
        sphere_hit_t(s, ray, t_min, t_max) matches Some(t) ==> off_sq(s, ray, t) == SCALE * SCALE
            * (s.radius * s.radius),
{
    if sphere_hit_t(s, ray, t_min, t_max) is Some {
        let t = sphere_hit_t(s, ray, t_min, t_max)->0;
        assert(disc(s, ray) >= 0) by {
            if disc(s, ray) < 0 {
                assert(sphere_hit_t(s, ray, t_min, t_max) is None);
            }
        }
        if t == root_near(s, ray) && t_min <= root_near(s, ray) <= t_max {
            lemma_exact_root(s, ray, t, SCALE * (-quad_b(s, ray) - sqrt_floor(disc(s, ray))));
        } else {
            lemma_exact_root(s, ray, t, SCALE * (-quad_b(s, ray) + sqrt_floor(disc(s, ray))));
        }
        lemma_root_on_sphere(s, ray, t);
    }
}

/// Tangent law: a zero discriminant admits exactly one distinct root value;
/// a hit is reported exactly when that single root lies in range, and then
/// that root is the reported parameter.
pub proof fn lemma_tangent_single_root(s: Sphere, ray: Ray, t_min: int, t_max: int)
    requires
        disc(s, ray) == 0,
    ensures
        root_near(s, ray) == root_far(s, ray),
        sphere_hit_t(s, ray, t_min, t_max) == (if t_min <= root_near(s, ray) <= t_max {
            Some(root_near(s, ray))
        } else {
            None::<int>
        }),
{
    crate::fixed::lemma_sqrt_floor_unique(0, 0);
}

/// `h` is a hit record that `s` produces for `ray` at parameter `h.t`: the
/// point is the ray evaluation at `h.t`, the normal points outward from the
/// center, and the material handle is the sphere's.
pub open spec fn hit_record_for(h: Hit, s: Sphere, ray: Ray) -> bool {
    &&& ray_at(ray, h.t as int, h.point)
    &&& outward_normal(s, h.point, h.normal)
    &&& h.material == s.material
    &&& within(h.point, MAX_POINT)
}

/// A non-zero direction has a positive leading coefficient.
pub proof fn lemma_quad_a_pos(ray: Ray)
    by (nonlinear_arith)
    requires
        !ray.direction.is_zero(),
    ensures
        quad_a(ray) >= 1,
{
}

/// When the discriminant is non-negative, the nearer root really is no
/// farther than the farther root.
pub proof fn lemma_roots_ordered(s: Sphere, ray: Ray)
    requires
        disc(s, ray) >= 0,
        quad_a(ray) >= 1,
    ensures
        root_near(s, ray) <= root_far(s, ray),
{
    crate::fixed::lemma_sqrt_floor(disc(s, ray));
    let d = sqrt_floor(disc(s, ray));
    let b = quad_b(s, ray);
    assert(SCALE * (-b - d) <= SCALE * (-b + d)) by (nonlinear_arith)
        requires
            d >= 0,
            SCALE == 65536;
    vstd::arithmetic::div_mod::lemma_div_is_ordered(
        SCALE * (-b - d),
        SCALE * (-b + d),
        quad_a(ray),
    );
}

/// Narrowing the upper end of the query range keeps exactly the hits whose
/// parameter still lies below the new bound, with the same parameter.
pub proof fn lemma_hit_narrow(s: Sphere, ray: Ray, t_min: int, t_max: int, c: int)
    requires
        quad_a(ray) >= 1,
        c <= t_max,
    ensures
        sphere_hit_t(s, ray, t_min, c) == (match sphere_hit_t(s, ray, t_min, t_max) {
            Some(t) => if t <= c {
                Some(t)
            } else {
                None
            },
            None => None,
        }),
{
    if disc(s, ray) >= 0 {
        lemma_roots_ordered(s, ray);
    }
}

/// The product of two values each bounded in magnitude is bounded by the
/// product of the bounds.
pub proof fn lemma_mul_bound(x: int, y: int, bx: int, by: int)
    by (nonlinear_arith)
    requires
        -bx <= x <= bx,
        -by <= y <= by,
        0 <= bx,
        0 <= by,
    ensures
        -(bx * by) <= x * y <= bx * by,
{
}

impl Sphere {
    /// Geometry the intersection math accepts: a bounded center and a
    /// positive, bounded radius.
    pub open spec fn wf(self) -> bool {
        &&& self.center.bounded()
        &&& 0 < self.radius <= MAX_COORD
    }

    pub fn new(center: Vec3, radius: i64, material: usize) -> (s: Sphere)
        ensures
            s == (Sphere { center, radius, material }),
    {
        Sphere { center, radius, material }
    }

    /// Attempts intersection against `ray` within `[t_min, t_max]`: returns
    /// the intersection with the smallest in-range parameter if one exists.
    /// A negative discriminant always reports no intersection.
    pub fn hit(&self, ray: &Ray, t_min: i64, t_max: i64) -> (r: Option<Hit>)
        requires
            self.wf(),
            ray.wf(),
            -MAX_COORD <= t_min <= MAX_COORD,
            -MAX_COORD <= t_max <= MAX_COORD,
        ensures
            (r is Some) <==> (sphere_hit_t(*self, *ray, t_min as int, t_max as int) is Some),
            r matches Some(h) ==> {
                &&& sphere_hit_t(*self, *ray, t_min as int, t_max as int) == Some(h.t as int)
                &&& t_min <= h.t <= t_max
                &&& hit_record_for(h, *self, *ray)
            },
            disc(*self, *ray) < 0 ==> r is None,
    {
        let ocx: i128 = ray.origin.x as i128 - self.center.x as i128;
        let ocy: i128 = ray.origin.y as i128 - self.center.y as i128;
        let ocz: i128 = ray.origin.z as i128 - self.center.z as i128;
        let dx: i128 = ray.direction.x as i128;
        let dy: i128 = ray.direction.y as i128;
        let dz: i128 = ray.direction.z as i128;
        let rad: i128 = self.radius as i128;
        proof {
            let cb: int = 0x2000_0000;
            lemma_mul_bound(dx as int, dx as int, MAX_COORD as int, MAX_COORD as int);
            lemma_mul_bound(dy as int, dy as int, MAX_COORD as int, MAX_COORD as int);
            lemma_mul_bound(dz as int, dz as int, MAX_COORD as int, MAX_COORD as int);
            lemma_mul_bound(ocx as int, dx as int, cb, MAX_COORD as int);
            lemma_mul_bound(ocy as int, dy as int, cb, MAX_COORD as int);
            lemma_mul_bound(ocz as int, dz as int, cb, MAX_COORD as int);
            lemma_mul_bound(ocx as int, ocx as int, cb, cb);
            lemma_mul_bound(ocy as int, ocy as int, cb, cb);
            lemma_mul_bound(ocz as int, ocz as int, cb, cb);
            lemma_mul_bound(rad as int, rad as int, MAX_COORD as int, MAX_COORD as int);
        }
        let a: i128 = dx * dx + dy * dy + dz * dz;
        let b: i128 = ocx * dx + ocy * dy + ocz * dz;
        let c: i128 = ocx * ocx + ocy * ocy + ocz * ocz - rad * rad;
        proof {
            assert(a >= 1) by (nonlinear_arith)
                requires
                    !(dx == 0 && dy == 0 && dz == 0),
                    a == dx * dx + dy * dy + dz * dz;
            lemma_mul_bound(b as int, b as int, 0x800_0000_0000_0000, 0x800_0000_0000_0000);
            lemma_mul_bound(a as int, c as int, 0x400_0000_0000_0000, 0x2000_0000_0000_0000);
        }
        let disc_v: i128 = b * b - a * c;
        if disc_v < 0 {
            return None;
        }
        let d_root: i128 = isqrt(disc_v);
        let num1: i128 = (SCALE as i128) * (-b - d_root);
        let root1: i128 = floor_div(num1, a);
        if t_min as i128 <= root1 && root1 <= t_max as i128 {
            return Some(self.make_hit(ray, root1 as i64));
        }
        let num2: i128 = (SCALE as i128) * (-b + d_root);
        let root2: i128 = floor_div(num2, a);
        if t_min as i128 <= root2 && root2 <= t_max as i128 {
            return Some(self.make_hit(ray, root2 as i64));
        }
        None
    }

    /// Assembles the hit record for an accepted root: the point is the ray
    /// evaluation at `t` and the normal points outward from the center.
    fn make_hit(&self, ray: &Ray, t: i64) -> (h: Hit)
        requires
            self.wf(),
            ray.origin.bounded(),
            ray.direction.bounded(),
            -MAX_COORD <= t <= MAX_COORD,
        ensures
            h.t == t,
            h.material == self.material,
            ray_at(*ray, t as int, h.point),
            outward_normal(*self, h.point, h.normal),
            within(h.point, MAX_POINT),
    {
        let p = ray.at(t);
        let nx = normal_exec(p.x, self.center.x, self.radius);
        let ny = normal_exec(p.y, self.center.y, self.radius);
        let nz = normal_exec(p.z, self.center.z, self.radius);
        let normal = Vec3 { x: nx, y: ny, z: nz };
        let h = Hit::new(t, ray, self.material, normal);
        proof {
            assert(h.point == p);
        }
        h
    }
}

/// One coordinate of the outward normal, computed in `i128` and proved to
/// fit back into `i64`.
fn normal_exec(p: i64, c: i64, radius: i64) -> (n: i64)
    requires
        -MAX_POINT <= p <= MAX_POINT,
        -MAX_COORD <= c <= MAX_COORD,
        0 < radius <= MAX_COORD,
    ensures
        n == normal_coord(p, c, radius),
{
    let num: i128 = (SCALE as i128) * (p as i128 - c as i128);
    let q: i128 = floor_div(num, radius as i128);
    q as i64
}

} // verus!
