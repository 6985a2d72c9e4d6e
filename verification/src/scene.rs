//! The surface aggregate (nearest-hit over a list of spheres), the camera,
//! and the scene that bundles them.

use vstd::prelude::*;
use crate::fixed::{floor_div, lemma_div_bounds, MAX_COORD, SCALE};
use crate::ray::{Hit, Ray};
use crate::sphere::{hit_record_for, lemma_hit_narrow, lemma_quad_a_pos, sphere_hit_t, Sphere};
use crate::vec3::Vec3;

verus! {

/// The index and parameter of the hit `SurfaceList::hit` reports: scanning
/// left to right, a later surface replaces the current best only with a
/// strictly smaller parameter, so on an exact tie the earliest-listed
/// surface wins.
pub open spec fn list_hit_t(ss: Seq<Sphere>, ray: Ray, t_min: int, t_max: int) -> Option<
    (int, int),
>
    decreases ss.len(),
{
    if ss.len() == 0 {
        None
    } else {
        let prefix = list_hit_t(ss.drop_last(), ray, t_min, t_max);
        let last = sphere_hit_t(ss.last(), ray, t_min, t_max);
        match (prefix, last) {
            (None, None) => None,
            (None, Some(t)) => Some((ss.len() - 1, t)),
            (Some(p), None) => Some(p),
            (Some(p), Some(t)) => if t < p.1 {
                Some((ss.len() - 1, t))
            } else {
                Some(p)
            },
        }
    }
}

/// An ordered sequence of surfaces, itself answering intersection queries by
/// keeping the closest hit among its children.
pub struct SurfaceList {
    pub surfaces: Vec<Sphere>,
}

impl SurfaceList {
    /// Every child accepts the intersection math.
    pub open spec fn wf(self) -> bool {
        forall|i: int|
            0 <= i < self.surfaces@.len() ==> (#[trigger] self.surfaces@[i]).wf()
    }

    pub fn new() -> (l: SurfaceList)
        ensures
            l.surfaces@.len() == 0,
    {
        SurfaceList { surfaces: Vec::new() }
    }

    /// Appends a surface at the end of the scan order.
    pub fn push(&mut self, s: Sphere)
        ensures
            final(self).surfaces@ == old(self).surfaces@.push(s),
    {
        self.surfaces.push(s);
    }

    /// The nearest intersection among all children within `[t_min, t_max]`:
    /// each child is queried with the range narrowed to the best parameter
    /// found so far, and only a strictly closer hit replaces the current
    /// best, so the earliest-listed child wins an exact tie.
    pub fn hit(&self, ray: &Ray, t_min: i64, t_max: i64) -> (r: Option<Hit>)
        requires
            self.wf(),
            ray.wf(),
            -MAX_COORD <= t_min <= MAX_COORD,
            -MAX_COORD <= t_max <= MAX_COORD,
        ensures
            (r is Some) <==> (list_hit_t(self.surfaces@, *ray, t_min as int, t_max as int)
                is Some),
            r matches Some(h) ==> {
                &&& list_hit_t(self.surfaces@, *ray, t_min as int, t_max as int) matches Some(
                    (bi, bt),
                ) && h.t as int == bt && 0 <= bi < self.surfaces@.len() && hit_record_for(
                    h,
                    self.surfaces@[bi],
                    *ray,
                )
                &&& t_min <= h.t <= t_max
            },
            r matches Some(h) ==> forall|j: int|
                0 <= j < self.surfaces@.len() && (#[trigger] sphere_hit_t(
                    self.surfaces@[j],
                    *ray,
                    t_min as int,
                    t_max as int,
                )) is Some ==> h.t <= sphere_hit_t(
                    self.surfaces@[j],
                    *ray,
                    t_min as int,
                    t_max as int,
                )->0,
    {
        let ghost ss = self.surfaces@;
        let mut best: Option<Hit> = None;
        let mut closest: i64 = t_max;
        let n = self.surfaces.len();
        let mut i: usize = 0;
        while i < n
            invariant
                0 <= i <= n,
                n == ss.len(),
                ss == self.surfaces@,
                self.wf(),
                ray.wf(),
                -MAX_COORD <= t_min <= MAX_COORD,
                -MAX_COORD <= t_max <= MAX_COORD,
                -MAX_COORD <= closest <= MAX_COORD,
                closest <= t_max,
                (best is Some) <==> (list_hit_t(ss.take(i as int), *ray, t_min as int, t_max as int)
                    is Some),
                best is None ==> closest == t_max,
                best matches Some(h) ==> {
                    &&& list_hit_t(ss.take(i as int), *ray, t_min as int, t_max as int)
                        matches Some((bi, bt)) && h.t as int == bt && 0 <= bi < i
                        && hit_record_for(h, ss[bi], *ray)
                    &&& t_min <= h.t <= t_max
                    &&& closest == h.t
                },
            decreases n - i,
        {
            let s = self.surfaces[i];
            let res = s.hit(ray, t_min, closest);
            proof {
                lemma_quad_a_pos(*ray);
                lemma_hit_narrow(s, *ray, t_min as int, t_max as int, closest as int);
                assert(ss.take(i as int + 1).drop_last() =~= ss.take(i as int));
                assert(ss.take(i as int + 1).last() == ss[i as int]);
            }
            match res {
                Some(h) => {
                    let replace = match &best {
                        None => true,
                        Some(bh) => h.t < bh.t,
                    };
                    if replace {
                        closest = h.t;
                        best = Some(h);
                    }
                },
                None => {},
            }
            i = i + 1;
        }
        proof {
            assert(ss.take(n as int) =~= ss);
            lemma_list_hit_nearest(ss, *ray, t_min as int, t_max as int);
        }
        best
    }
}

/// Nearest-hit law: the aggregate reports a hit exactly when some child
/// does, the reported parameter is that child's own report over the full
/// range, no child reports a smaller parameter, and every earlier-listed
/// child reports a strictly larger one (the earliest-listed child wins an
/// exact tie). In particular the winning parameter does not depend on the
/// order of the list.
pub proof fn lemma_list_hit_nearest(ss: Seq<Sphere>, ray: Ray, t_min: int, t_max: int)
    ensures
        (list_hit_t(ss, ray, t_min, t_max) is Some) <==> exists|j: int|
            0 <= j < ss.len() && (#[trigger] sphere_hit_t(ss[j], ray, t_min, t_max)) is Some,
        list_hit_t(ss, ray, t_min, t_max) matches Some((i, t)) ==> {
            &&& 0 <= i < ss.len()
            &&& sphere_hit_t(ss[i], ray, t_min, t_max) == Some(t)
            &&& forall|j: int|
                0 <= j < ss.len() && (#[trigger] sphere_hit_t(ss[j], ray, t_min, t_max))
                    is Some ==> t <= sphere_hit_t(ss[j], ray, t_min, t_max)->0
            &&& forall|j: int|
                0 <= j < i && (#[trigger] sphere_hit_t(ss[j], ray, t_min, t_max)) is Some ==> t
                    < sphere_hit_t(ss[j], ray, t_min, t_max)->0
        },
    decreases ss.len(),
{
    if ss.len() > 0 {
        lemma_list_hit_nearest(ss.drop_last(), ray, t_min, t_max);
        assert(forall|j: int|
            0 <= j < ss.len() - 1 ==> ss.drop_last()[j] == #[trigger] ss[j]);
    }
}

/// Two-sphere order-independence law: with two spheres on one ray, both
/// list orders report the same, smaller parameter; on an exact tie each
/// order reports its first-listed sphere (index 0).
pub proof fn lemma_two_sphere_order(s1: Sphere, s2: Sphere, ray: Ray, t_min: int, t_max: int)
    ensures
        match (sphere_hit_t(s1, ray, t_min, t_max), sphere_hit_t(s2, ray, t_min, t_max)) {
            (Some(t1), Some(t2)) => {
                &&& list_hit_t(seq![s1, s2], ray, t_min, t_max) == Some(
                    (if t2 < t1 { 1int } else { 0int }, if t1 <= t2 { t1 } else { t2 }),
                )
                &&& list_hit_t(seq![s2, s1], ray, t_min, t_max) == Some(
                    (if t1 < t2 { 1int } else { 0int }, if t2 <= t1 { t2 } else { t1 }),
                )
            },
            (Some(t1), None) => list_hit_t(seq![s1, s2], ray, t_min, t_max) == Some((0int, t1))
                && list_hit_t(seq![s2, s1], ray, t_min, t_max) == Some((1int, t1)),
            (None, Some(t2)) => list_hit_t(seq![s1, s2], ray, t_min, t_max) == Some((1int, t2))
                && list_hit_t(seq![s2, s1], ray, t_min, t_max) == Some((0int, t2)),
            (None, None) => list_hit_t(seq![s1, s2], ray, t_min, t_max) is None && list_hit_t(
                seq![s2, s1],
                ray,
                t_min,
                t_max,
            ) is None,
        },
{
    reveal_with_fuel(list_hit_t, 3);
    assert(seq![s1, s2].drop_last() =~= seq![s1]);
    assert(seq![s2, s1].drop_last() =~= seq![s2]);
    assert(seq![s1].drop_last() =~= Seq::<Sphere>::empty());
    assert(seq![s2].drop_last() =~= Seq::<Sphere>::empty());
    assert(seq![s1, s2].last() == s2);
    assert(seq![s2, s1].last() == s1);
    assert(seq![s1].last() == s1);
    assert(seq![s2].last() == s2);
    assert(list_hit_t(seq![s1], ray, t_min, t_max) == (match sphere_hit_t(s1, ray, t_min, t_max) {
        None => None::<(int, int)>,
        Some(t) => Some((0int, t)),
    }));
    assert(list_hit_t(seq![s2], ray, t_min, t_max) == (match sphere_hit_t(s2, ray, t_min, t_max) {
        None => None::<(int, int)>,
        Some(t) => Some((0int, t)),
    }));
}

/// One coordinate of a camera ray direction: `lower_left + u*horiz + v*vert
/// - origin`, with each scaled product rounded toward negative infinity.
pub open spec fn ray_dir_coord(ll: i64, h: i64, vt: i64, o: i64, u: int, v: int) -> int {
    ll + (u * h) / (SCALE as int) + (v * vt) / (SCALE as int) - o
}

/// Maps normalized screen coordinates to rays: four vectors giving the
/// camera origin and the image plane it looks through. Row coordinates grow
/// top to bottom, so the default preset's `vert` points downward.
#[derive(Clone, Copy, PartialEq, Eq, Structural, Debug)]
pub struct Camera {
    pub lower_left: Vec3,
    pub horiz: Vec3,
    pub vert: Vec3,
    pub origin: Vec3,
}

impl Camera {
    /// All four vectors accept the intersection math.
    pub open spec fn wf(self) -> bool {
        &&& self.lower_left.bounded()
        &&& self.horiz.bounded()
        &&& self.vert.bounded()
        &&& self.origin.bounded()
    }

    /// The ray from the camera origin toward `lower_left + u*horiz + v*vert`,
    /// for fixed-point screen coordinates (`0..=SCALE` spans the image
    /// plane).
    pub fn get_ray(&self, u: i64, v: i64) -> (r: Ray)
        requires
            self.wf(),
            -MAX_COORD <= u <= MAX_COORD,
            -MAX_COORD <= v <= MAX_COORD,
        ensures
            r.origin == self.origin,
            r.direction.x == ray_dir_coord(
                self.lower_left.x,
                self.horiz.x,
                self.vert.x,
                self.origin.x,
                u as int,
                v as int,
            ),
            r.direction.y == ray_dir_coord(
                self.lower_left.y,
                self.horiz.y,
                self.vert.y,
                self.origin.y,
                u as int,
                v as int,
            ),
            r.direction.z == ray_dir_coord(
                self.lower_left.z,
                self.horiz.z,
                self.vert.z,
                self.origin.z,
                u as int,
                v as int,
            ),
    {
        let dx = ray_dir_exec(self.lower_left.x, self.horiz.x, self.vert.x, self.origin.x, u, v);
        let dy = ray_dir_exec(self.lower_left.y, self.horiz.y, self.vert.y, self.origin.y, u, v);
        let dz = ray_dir_exec(self.lower_left.z, self.horiz.z, self.vert.z, self.origin.z, u, v);
        Ray { origin: self.origin, direction: Vec3 { x: dx, y: dy, z: dz } }
    }
}

impl Default for Camera {
    /// The default view frustum: a fixed numeric preset, constructed anew
    /// for each owner rather than shared as global state.
    fn default() -> (c: Camera)
        ensures
            // In world units: lower_left (-2, 1, -1), horiz (4, 0, 0),
            // vert (0, -2, 0), origin (-1, 0.5, 1).
            c.lower_left == (Vec3 { x: -131072i64, y: 65536i64, z: -65536i64 }),
            c.horiz == (Vec3 { x: 262144i64, y: 0i64, z: 0i64 }),
            c.vert == (Vec3 { x: 0i64, y: -131072i64, z: 0i64 }),
            c.origin == (Vec3 { x: -65536i64, y: 32768i64, z: 65536i64 }),
            c.wf(),
    {
        Camera {
            lower_left: Vec3 { x: -131072, y: 65536, z: -65536 },
            horiz: Vec3 { x: 262144, y: 0, z: 0 },
            vert: Vec3 { x: 0, y: -131072, z: 0 },
            origin: Vec3 { x: -65536, y: 32768, z: 65536 },
        }
    }
}

/// One coordinate of a camera ray direction, computed in `i128` and proved
/// to fit back into `i64`.
fn ray_dir_exec(ll: i64, h: i64, vt: i64, o: i64, u: i64, v: i64) -> (r: i64)
    requires
        -MAX_COORD <= ll <= MAX_COORD,
        -MAX_COORD <= h <= MAX_COORD,
        -MAX_COORD <= vt <= MAX_COORD,
        -MAX_COORD <= o <= MAX_COORD,
        -MAX_COORD <= u <= MAX_COORD,
        -MAX_COORD <= v <= MAX_COORD,
    ensures
        r == ray_dir_coord(ll, h, vt, o, u as int, v as int),
{
    proof {
        assert(-0x100_0000_0000_0000 <= (u as int) * (h as int) <= 0x100_0000_0000_0000
            && -0x100_0000_0000_0000 <= (v as int) * (vt as int) <= 0x100_0000_0000_0000)
            by (nonlinear_arith)
            requires
                -MAX_COORD <= u <= MAX_COORD,
                -MAX_COORD <= h <= MAX_COORD,
                -MAX_COORD <= v <= MAX_COORD,
                -MAX_COORD <= vt <= MAX_COORD,
                MAX_COORD == 0x1000_0000;
        lemma_div_bounds((u as int) * (h as int), SCALE as int, 0x100_0000_0000_0000);
        lemma_div_bounds((v as int) * (vt as int), SCALE as int, 0x100_0000_0000_0000);
        assert(0x100_0000_0000_0000int / (SCALE as int) == 0x100_0000_0000int);
    }
    let uh: i128 = floor_div((u as i128) * (h as i128), SCALE as i128);
    let vv: i128 = floor_div((v as i128) * (vt as i128), SCALE as i128);
    ((ll as i128) + uh + vv - (o as i128)) as i64
}

/// Bundles image dimensions, the world surface list and the camera. Built
/// once by scene-construction code and never mutated while rendering.
pub struct Scene {
    pub width: u32,
    pub height: u32,
    pub world: SurfaceList,
    pub camera: Camera,
}

impl Scene {
    /// Positive pixel dimensions and well-formed geometry.
    pub open spec fn wf(self) -> bool {
        &&& self.width > 0
        &&& self.height > 0
        &&& self.world.wf()
        &&& self.camera.wf()
    }
}

} // verus!
