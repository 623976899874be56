use raytrace::fixed::SCALE;
use raytrace::material::{Lambertian, Material};
use raytrace::object::HittableList;
use raytrace::ray::Ray;
use raytrace::sphere::Sphere;
use raytrace::tracer::{background_color, ray_color, SKY_B, SKY_G, SKY_R};
use raytrace::vec3::Vec3;

const S: i128 = SCALE;

fn single_sphere_world() -> HittableList {
    let mut world = HittableList::new();
    world.add(Sphere::new(
        Vec3::new(0, 0, -S),
        S / 2,
        Material::Lambertian(Lambertian::new(Vec3::new(S / 2, S / 2, S / 2))),
    ));
    world
}

// With the bounce budget exhausted no light is gathered, whatever the scene.
#[test]
fn budget_zero_returns_black() {
    let mut rng = rand::thread_rng();
    let world = single_sphere_world();
    let ray = Ray::new(Vec3::zero(), Vec3::new(0, 0, -S));
    assert_eq!(ray_color(&mut rng, &ray, &world, 0), Vec3::zero());
}

// The gradient endpoints: straight up is pure sky blue, straight down pure
// white.
#[test]
fn background_endpoints() {
    let up = Ray::new(Vec3::zero(), Vec3::new(0, S, 0));
    let down = Ray::new(Vec3::zero(), Vec3::new(0, -S, 0));
    assert_eq!(background_color(&up), Vec3::new(SKY_R, SKY_G, SKY_B));
    assert_eq!(background_color(&down), Vec3::new(S, S, S));
}

// A ray that leaves an empty scene earns exactly the background gradient.
#[test]
fn miss_returns_background() {
    let mut rng = rand::thread_rng();
    let world = HittableList::new();
    let up = Ray::new(Vec3::zero(), Vec3::new(0, S, 0));
    assert_eq!(ray_color(&mut rng, &up, &world, 8), Vec3::new(SKY_R, SKY_G, SKY_B));
    let down = Ray::new(Vec3::zero(), Vec3::new(0, -S, 0));
    assert_eq!(ray_color(&mut rng, &down, &world, 8), Vec3::new(S, S, S));
    let slanted = Ray::new(Vec3::new(S, 0, 0), Vec3::new(2 * S, S, -S));
    assert_eq!(ray_color(&mut rng, &slanted, &world, 8), background_color(&slanted));
}

// One gray sphere of radius one half at distance one, camera looking down
// the negative z axis: the ray through the image center must return
// something other than the sky gradient, while a corner ray that misses the
// sphere must equal the gradient exactly.
#[test]
fn center_pixel_shaded_corner_pixel_background() {
    let mut rng = rand::thread_rng();
    let world = single_sphere_world();

    let center = Ray::new(Vec3::zero(), Vec3::new(0, 0, -S));
    let expected_background = background_color(&center);
    for _ in 0..20 {
        let shaded = ray_color(&mut rng, &center, &world, 8);
        assert_ne!(shaded, expected_background);
        // the half-gray albedo caps every channel at half a unit
        assert!(shaded.x <= S / 2 && shaded.y <= S / 2 && shaded.z <= S / 2);
    }

    let corner = Ray::new(Vec3::zero(), Vec3::new(2 * S, S, -S));
    assert_eq!(ray_color(&mut rng, &corner, &world, 8), background_color(&corner));
}
