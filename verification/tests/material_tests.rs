use raytrace::fixed::SCALE;
use raytrace::material::{Dielectric, Lambertian, Material, Metal};
use raytrace::object::HitRecord;
use raytrace::ray::Ray;
use raytrace::vec3::Vec3;

const S: i128 = SCALE;

fn record(point: Vec3, normal: Vec3, front_face: bool) -> HitRecord {
    HitRecord {
        point,
        normal,
        material: Material::Lambertian(Lambertian::new(Vec3::zero())),
        t: S,
        front_face,
    }
}

// Lambertian scatter always continues and its attenuation is exactly the
// configured albedo, on every call.
#[test]
fn lambertian_always_scatters_with_albedo() {
    let mut rng = rand::thread_rng();
    let albedo = Vec3::new(S / 2, S / 4, S / 8);
    let material = Lambertian::new(albedo);
    let hit = record(Vec3::new(S, 2 * S, 3 * S), Vec3::new(0, S, 0), true);
    let in_ray = Ray::new(Vec3::zero(), Vec3::new(0, -S, 0));
    for _ in 0..200 {
        let (attenuation, scattered) = material.scatter(&in_ray, &hit, &mut rng);
        assert_eq!(attenuation, albedo);
        let ray = scattered.expect("lambertian never absorbs");
        assert_eq!(ray.origin, hit.point);
        assert!(!ray.direction.is_near_zero());
    }
}

// Metal with zero fuzz is a deterministic mirror: for normal (0,1,0) and
// incoming direction (0,-1,0) the scattered direction is (0,1,0).
#[test]
fn metal_zero_fuzz_reflects_along_normal() {
    let mut rng = rand::thread_rng();
    let albedo = Vec3::new(4 * S / 5, 4 * S / 5, 4 * S / 5);
    let material = Metal::new(albedo, 0);
    let hit = record(Vec3::zero(), Vec3::new(0, S, 0), true);
    let in_ray = Ray::new(Vec3::new(0, S, 0), Vec3::new(0, -S, 0));
    for _ in 0..50 {
        let (attenuation, scattered) = material.scatter(&in_ray, &hit, &mut rng);
        assert_eq!(attenuation, albedo);
        let ray = scattered.expect("mirror reflection points away from the surface");
        assert_eq!(ray.direction, Vec3::new(0, S, 0));
        assert_eq!(ray.origin, hit.point);
    }
}

// A reflection that would re-enter the surface is absorbed.
#[test]
fn metal_absorbs_inward_scatter() {
    let mut rng = rand::thread_rng();
    let albedo = Vec3::new(S, S, S);
    let material = Metal::new(albedo, 0);
    let hit = record(Vec3::zero(), Vec3::new(0, S, 0), true);
    // incoming along the normal: the mirror image points into the surface
    let in_ray = Ray::new(Vec3::new(0, -S, 0), Vec3::new(0, S, 0));
    let (attenuation, scattered) = material.scatter(&in_ray, &hit, &mut rng);
    assert_eq!(attenuation, albedo);
    assert!(scattered.is_none());
}

// The roughness clamp touches only the upper bound.
#[test]
fn metal_fuzz_clamp_upper_only() {
    let albedo = Vec3::new(S, S, S);
    assert_eq!(Metal::new(albedo, 3 * S).fuzz, S);
    assert_eq!(Metal::new(albedo, S / 2).fuzz, S / 2);
    assert_eq!(Metal::new(albedo, -5).fuzz, -5);
}

// A dielectric matching the surrounding medium (index one) refracts straight
// through: for a head-on ray the outgoing direction equals the incoming one,
// exactly. The Schlick term is (1 - cos)^5 rather than identically zero, but
// at normal incidence the cosine is exactly one, so no draw can reflect:
// a known boundary case of the model, not a defect.
#[test]
fn dielectric_index_one_refracts_straight() {
    let mut rng = rand::thread_rng();
    let material = Dielectric::new(S);
    let hit = record(Vec3::zero(), Vec3::new(0, 0, S), true);
    let in_ray = Ray::new(Vec3::new(0, 0, S), Vec3::new(0, 0, -S));
    for _ in 0..100 {
        let (attenuation, scattered) = material.scatter(&in_ray, &hit, &mut rng);
        assert_eq!(attenuation, Vec3::new(S, S, S));
        let ray = scattered.expect("dielectric never absorbs");
        assert_eq!(ray.direction, Vec3::new(0, 0, -S));
        assert_eq!(ray.origin, hit.point);
    }
}

// Past the critical angle a dense-to-thin crossing must reflect: total
// internal reflection, deterministically, whatever the random draw.
#[test]
fn dielectric_total_internal_reflection() {
    let mut rng = rand::thread_rng();
    let material = Dielectric::new(3 * S / 2);
    // leaving the material at forty-five degrees: sine exceeds 1/1.5
    let hit = record(Vec3::zero(), Vec3::new(0, 0, S), false);
    let in_ray = Ray::new(Vec3::zero(), Vec3::new(S, 0, -S));
    for _ in 0..100 {
        let (attenuation, scattered) = material.scatter(&in_ray, &hit, &mut rng);
        assert_eq!(attenuation, Vec3::new(S, S, S));
        let ray = scattered.expect("dielectric never absorbs");
        // the mirror image of the normalized incoming direction
        assert_eq!(ray.direction, Vec3::new(46341, 0, 46341));
    }
}

// Dispatch hands each variant its own model.
#[test]
fn material_dispatch() {
    let mut rng = rand::thread_rng();
    let albedo = Vec3::new(S / 2, S / 2, S / 2);
    let hit = record(Vec3::zero(), Vec3::new(0, S, 0), true);
    let in_ray = Ray::new(Vec3::new(0, S, 0), Vec3::new(0, -S, 0));

    let lambertian = Material::Lambertian(Lambertian::new(albedo));
    let (att, sc) = lambertian.scatter(&in_ray, &hit, &mut rng);
    assert_eq!(att, albedo);
    assert!(sc.is_some());

    let metal = Material::Metal(Metal::new(albedo, 0));
    let (att, sc) = metal.scatter(&in_ray, &hit, &mut rng);
    assert_eq!(att, albedo);
    assert_eq!(sc.expect("reflects").direction, Vec3::new(0, S, 0));

    let dielectric = Material::Dielectric(Dielectric::new(3 * S / 2));
    let (att, sc) = dielectric.scatter(&in_ray, &hit, &mut rng);
    assert_eq!(att, Vec3::new(S, S, S));
    assert!(sc.is_some());
}
