use raytrace::fixed::{SCALE, T_LIMIT};
use raytrace::material::{Lambertian, Material};
use raytrace::object::HittableList;
use raytrace::ray::Ray;
use raytrace::sphere::Sphere;
use raytrace::vec3::Vec3;

const S: i128 = SCALE;
const T_EPS: i128 = 65;

fn gray() -> Material {
    Material::Lambertian(Lambertian::new(Vec3::new(S / 2, S / 2, S / 2)))
}

// A ray aimed straight at the center from outside hits at distance
// |origin - center| - radius: two units away, radius a half, so the first
// root lies three quarters of the way along the direction (origin - center).
#[test]
fn hit_aimed_at_center_first_root() {
    let sphere = Sphere::new(Vec3::new(0, 0, -2 * S), S / 2, gray());
    let ray = Ray::new(Vec3::zero(), Vec3::new(0, 0, -2 * S));
    let rec = sphere.hit(&ray, T_EPS, T_LIMIT).expect("must hit");
    assert_eq!(rec.t, 3 * S / 4);
    assert_eq!(rec.point, Vec3::new(0, 0, -3 * S / 2));
    assert!(rec.front_face);
    assert_eq!(rec.normal, Vec3::new(0, 0, S));
    assert_eq!(rec.material, gray());
}

// A ray whose closest approach to the center exceeds the radius misses.
#[test]
fn miss_when_closest_approach_exceeds_radius() {
    let sphere = Sphere::new(Vec3::new(0, 0, -2 * S), S / 2, gray());
    let ray = Ray::new(Vec3::zero(), Vec3::new(0, S, 0));
    assert!(sphere.hit(&ray, T_EPS, T_LIMIT).is_none());
    // grazing past one unit above the center: still outside the half-radius
    let ray2 = Ray::new(Vec3::new(0, S, 0), Vec3::new(0, 0, -S));
    assert!(sphere.hit(&ray2, T_EPS, T_LIMIT).is_none());
}

// A ray fired from inside the sphere exits through the far root, hitting the
// back face.
#[test]
fn hit_from_inside_far_root_back_face() {
    let sphere = Sphere::new(Vec3::zero(), S, gray());
    let ray = Ray::new(Vec3::zero(), Vec3::new(0, 0, -S));
    let rec = sphere.hit(&ray, T_EPS, T_LIMIT).expect("must hit");
    assert_eq!(rec.t, S);
    assert!(!rec.front_face);
    // outward normal points along -z; stored normal is flipped against it
    assert_eq!(rec.normal, Vec3::new(0, 0, S));
}

// A window that excludes both roots reports no hit.
#[test]
fn miss_when_window_excludes_roots() {
    let sphere = Sphere::new(Vec3::new(0, 0, -2 * S), S / 2, gray());
    let ray = Ray::new(Vec3::zero(), Vec3::new(0, 0, -2 * S));
    // both roots lie past half a unit of parameter
    assert!(sphere.hit(&ray, T_EPS, S / 2).is_none());
}

// A zero radius accepts a root landing exactly on the center, where no
// normal exists: treated as no intersection.
#[test]
fn degenerate_zero_radius() {
    let sphere = Sphere::new(Vec3::new(0, 0, -2 * S), 0, gray());
    let ray = Ray::new(Vec3::zero(), Vec3::new(0, 0, -2 * S));
    assert!(sphere.hit(&ray, T_EPS, T_LIMIT).is_none());
}

// A zero direction yields no finite root.
#[test]
fn degenerate_zero_direction() {
    let sphere = Sphere::new(Vec3::new(0, 0, -2 * S), S / 2, gray());
    let ray = Ray::new(Vec3::zero(), Vec3::zero());
    assert!(sphere.hit(&ray, T_EPS, T_LIMIT).is_none());
}

fn red() -> Material {
    Material::Lambertian(Lambertian::new(Vec3::new(S, 0, 0)))
}

// The aggregate query returns the nearest hit, whatever the insertion order.
#[test]
fn list_returns_nearest_hit() {
    let near = Sphere::new(Vec3::new(0, 0, -2 * S), S / 2, red());
    let far = Sphere::new(Vec3::new(0, 0, -4 * S), S / 2, gray());
    let ray = Ray::new(Vec3::zero(), Vec3::new(0, 0, -S));

    let mut world = HittableList::new();
    world.add(near);
    world.add(far);
    let rec = world.hit(&ray, T_EPS, T_LIMIT).expect("must hit");
    assert_eq!(rec.material, red());
    assert_eq!(rec.t, 3 * S / 2);

    let mut world2 = HittableList::new();
    world2.add(far);
    world2.add(near);
    let rec2 = world2.hit(&ray, T_EPS, T_LIMIT).expect("must hit");
    assert_eq!(rec2.material, red());
    assert_eq!(rec2.t, rec.t);
}

// An empty scene, or a cleared one, reports no hit.
#[test]
fn list_empty_and_clear() {
    let ray = Ray::new(Vec3::zero(), Vec3::new(0, 0, -S));
    let mut world = HittableList::new();
    assert!(world.hit(&ray, T_EPS, T_LIMIT).is_none());
    world.add(Sphere::new(Vec3::new(0, 0, -2 * S), S / 2, gray()));
    assert!(world.hit(&ray, T_EPS, T_LIMIT).is_some());
    world.clear();
    assert!(world.hit(&ray, T_EPS, T_LIMIT).is_none());
}
