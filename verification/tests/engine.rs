// Intersection-engine tests over fixed-point coordinates: one world unit is
// 65536 fixed-point units.

use raycore::fixed::{floor_div, isqrt, MAX_COORD, SCALE};
use raycore::ray::{Hit, Ray};
use raycore::scene::{Camera, Scene, SurfaceList};
use raycore::sphere::Sphere;
use raycore::vec3::Vec3;

const S: i64 = 65536;

fn unit_sphere_front(material: usize) -> Sphere {
    // Center (0, 0, -1), radius 0.5, in world units.
    Sphere::new(Vec3::new(0, 0, -S), S / 2, material)
}

#[test]
fn sphere_direct_hit() {
    // Ray straight at the sphere: first surface point is at t = 0.5.
    let sphere = unit_sphere_front(7);
    let ray = Ray::new(Vec3::new(0, 0, 0), Vec3::new(0, 0, -S));
    let hit = sphere.hit(&ray, 0, MAX_COORD).expect("must hit");
    assert_eq!(hit.t, S / 2);
    assert_eq!(hit.point, Vec3::new(0, 0, -S / 2));
    assert_eq!(hit.normal, Vec3::new(0, 0, S));
    assert_eq!(hit.material, 7);
}

#[test]
fn sphere_parallel_miss() {
    // Parallel ray offset by two world units: negative discriminant, no hit.
    let sphere = unit_sphere_front(7);
    let ray = Ray::new(Vec3::new(2 * S, 0, 0), Vec3::new(0, 0, -S));
    assert!(sphere.hit(&ray, 0, MAX_COORD).is_none());
}

#[test]
fn negative_discriminant_misses_any_range() {
    let sphere = unit_sphere_front(7);
    let ray = Ray::new(Vec3::new(2 * S, 0, 0), Vec3::new(0, 0, -S));
    assert!(sphere.hit(&ray, -MAX_COORD, MAX_COORD).is_none());
    assert!(sphere.hit(&ray, 0, S).is_none());
    assert!(sphere.hit(&ray, S, 0).is_none());
}

#[test]
fn tangent_single_hit() {
    // Ray grazing the sphere at x = 0.5: zero discriminant, one root at t = 1.
    let sphere = unit_sphere_front(3);
    let ray = Ray::new(Vec3::new(S / 2, 0, 0), Vec3::new(0, 0, -S));
    let hit = sphere.hit(&ray, 0, MAX_COORD).expect("tangent must hit");
    assert_eq!(hit.t, S);
    assert_eq!(hit.point, Vec3::new(S / 2, 0, -S));
    assert_eq!(hit.normal, Vec3::new(S, 0, 0));
    // The single root is reported once: outside its range there is nothing.
    assert!(sphere.hit(&ray, 0, S - 1).is_none());
    assert!(sphere.hit(&ray, S + 1, MAX_COORD).is_none());
}

#[test]
fn hit_point_lies_on_sphere() {
    // |point - center|^2 == radius^2 and |normal| == 1, exactly, for an
    // exactly representable root.
    let sphere = unit_sphere_front(7);
    let ray = Ray::new(Vec3::new(0, 0, 0), Vec3::new(0, 0, -S));
    let hit = sphere.hit(&ray, 0, MAX_COORD).expect("must hit");
    let center = Vec3::new(0, 0, -S);
    let dx = (hit.point.x - center.x) as i128;
    let dy = (hit.point.y - center.y) as i128;
    let dz = (hit.point.z - center.z) as i128;
    let r = (S / 2) as i128;
    assert_eq!(dx * dx + dy * dy + dz * dz, r * r);
    let nx = hit.normal.x as i128;
    let ny = hit.normal.y as i128;
    let nz = hit.normal.z as i128;
    assert_eq!(nx * nx + ny * ny + nz * nz, (S as i128) * (S as i128));
}

#[test]
fn ray_at_matches_hit_point() {
    let sphere = unit_sphere_front(7);
    let ray = Ray::new(Vec3::new(3, 5, 9), Vec3::new(11, -7, -S));
    if let Some(hit) = sphere.hit(&ray, 0, MAX_COORD) {
        assert_eq!(ray.at(hit.t), hit.point);
    }
    let direct = Ray::new(Vec3::new(0, 0, 0), Vec3::new(0, 0, -S));
    let hit = sphere.hit(&direct, 0, MAX_COORD).expect("must hit");
    assert_eq!(direct.at(hit.t), hit.point);
}

#[test]
fn hit_record_point_is_derived() {
    let ray = Ray::new(Vec3::new(100, -200, 300), Vec3::new(S, 2 * S, -S));
    let h = Hit::new(3 * S, &ray, 42, Vec3::new(0, 0, S));
    assert_eq!(h.point, ray.at(3 * S));
    assert_eq!(h.t, 3 * S);
    assert_eq!(h.material, 42);
}

#[test]
fn far_root_accepted_from_inside() {
    // Ray starting at the center: the near root is behind the origin, the
    // far root at t = radius is reported.
    let sphere = unit_sphere_front(7);
    let ray = Ray::new(Vec3::new(0, 0, -S), Vec3::new(0, 0, -S));
    let hit = sphere.hit(&ray, 0, 2 * S).expect("must hit");
    assert_eq!(hit.t, S / 2);
    assert_eq!(hit.point, Vec3::new(0, 0, -S - S / 2));
    assert_eq!(hit.normal, Vec3::new(0, 0, -S));
}

#[test]
fn range_excludes_hit() {
    let sphere = unit_sphere_front(7);
    let ray = Ray::new(Vec3::new(0, 0, 0), Vec3::new(0, 0, -S));
    // Both roots (0.5 and 1.5) lie beyond t_max.
    assert!(sphere.hit(&ray, 0, S / 4).is_none());
    // Both roots lie below t_min.
    assert!(sphere.hit(&ray, 2 * S, MAX_COORD).is_none());
}

#[test]
fn nearest_of_two_spheres_either_order() {
    // Two spheres on the same ray: the nearer one wins in both list orders.
    let near = Sphere::new(Vec3::new(0, 0, -2 * S), S / 2, 1);
    let far = Sphere::new(Vec3::new(0, 0, -4 * S), S / 2, 2);
    let ray = Ray::new(Vec3::new(0, 0, 0), Vec3::new(0, 0, -S));

    let mut list_a = SurfaceList::new();
    list_a.push(near);
    list_a.push(far);
    let hit_a = list_a.hit(&ray, 0, MAX_COORD).expect("must hit");

    let mut list_b = SurfaceList::new();
    list_b.push(far);
    list_b.push(near);
    let hit_b = list_b.hit(&ray, 0, MAX_COORD).expect("must hit");

    assert_eq!(hit_a.t, S + S / 2);
    assert_eq!(hit_b.t, S + S / 2);
    assert_eq!(hit_a.material, 1);
    assert_eq!(hit_b.material, 1);
    assert_eq!(hit_a.point, hit_b.point);
    assert_eq!(hit_a.normal, hit_b.normal);
}

#[test]
fn tie_first_listed_wins() {
    // Identical geometry, different materials: the earliest-listed sphere
    // wins the exact tie in either order.
    let first = unit_sphere_front(1);
    let second = unit_sphere_front(2);
    let ray = Ray::new(Vec3::new(0, 0, 0), Vec3::new(0, 0, -S));

    let list_a = SurfaceList { surfaces: vec![first, second] };
    assert_eq!(list_a.hit(&ray, 0, MAX_COORD).expect("must hit").material, 1);

    let list_b = SurfaceList { surfaces: vec![second, first] };
    assert_eq!(list_b.hit(&ray, 0, MAX_COORD).expect("must hit").material, 2);
}

#[test]
fn empty_list_misses() {
    let list = SurfaceList::new();
    let ray = Ray::new(Vec3::new(0, 0, 0), Vec3::new(0, 0, -S));
    assert!(list.hit(&ray, 0, MAX_COORD).is_none());
}

#[test]
fn camera_default_corners() {
    // get_ray(0,0) points at the lower-left corner of the image plane;
    // get_ray(1,1) (in fixed point: SCALE, SCALE) at the opposite corner.
    let camera = Camera::default();
    let corner = camera.get_ray(0, 0);
    assert_eq!(corner.origin, camera.origin);
    assert_eq!(
        corner.direction,
        Vec3::new(
            camera.lower_left.x - camera.origin.x,
            camera.lower_left.y - camera.origin.y,
            camera.lower_left.z - camera.origin.z,
        )
    );
    let opposite = camera.get_ray(SCALE, SCALE);
    assert_eq!(
        opposite.direction,
        Vec3::new(
            camera.lower_left.x + camera.horiz.x + camera.vert.x - camera.origin.x,
            camera.lower_left.y + camera.horiz.y + camera.vert.y - camera.origin.y,
            camera.lower_left.z + camera.horiz.z + camera.vert.z - camera.origin.z,
        )
    );
}

#[test]
fn camera_default_preset_values() {
    // The default preset, in fixed point: lower_left (-2, 1, -1),
    // horiz (4, 0, 0), vert (0, -2, 0), origin (-1, 0.5, 1).
    let camera = Camera::default();
    assert_eq!(camera.lower_left, Vec3::new(-2 * S, S, -S));
    assert_eq!(camera.horiz, Vec3::new(4 * S, 0, 0));
    assert_eq!(camera.vert, Vec3::new(0, -2 * S, 0));
    assert_eq!(camera.origin, Vec3::new(-S, S / 2, S));
}

#[test]
fn scene_bundles_world_and_camera() {
    let mut world = SurfaceList::new();
    world.push(unit_sphere_front(5));
    let scene = Scene { width: 4, height: 2, world, camera: Camera::default() };
    assert_eq!(scene.width, 4);
    assert_eq!(scene.height, 2);
    let ray = Ray::new(Vec3::new(0, 0, 0), Vec3::new(0, 0, -S));
    let hit = scene.world.hit(&ray, 0, MAX_COORD).expect("must hit");
    assert_eq!(hit.material, 5);
}

#[test]
fn ray_at_floors_toward_negative_infinity() {
    // 1.5 rounds down to 1; -1.5 rounds down to -2.
    let ray = Ray::new(Vec3::new(0, 0, 0), Vec3::new(3, -3, -S));
    let p = ray.at(S / 2);
    assert_eq!(p.x, 1);
    assert_eq!(p.y, -2);
    assert_eq!(p.z, -S / 2);
}

#[test]
fn floor_div_rounds_toward_negative_infinity() {
    assert_eq!(floor_div(7, 2), 3);
    assert_eq!(floor_div(-7, 2), -4);
    assert_eq!(floor_div(-4, 2), -2);
    assert_eq!(floor_div(0, 5), 0);
    assert_eq!(floor_div(-1, 65536), -1);
}

#[test]
fn isqrt_rounds_down() {
    assert_eq!(isqrt(0), 0);
    assert_eq!(isqrt(1), 1);
    assert_eq!(isqrt(15), 3);
    assert_eq!(isqrt(16), 4);
    assert_eq!(isqrt(2147483647), 46340);
    let big: i128 = (1i128 << 60) - 1;
    let r = isqrt(big * big);
    assert_eq!(r, big);
}
