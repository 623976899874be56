use raytrace::fixed::SCALE;
use raytrace::material::{Lambertian, Material};
use raytrace::object::HitRecord;
use raytrace::ray::Ray;
use raytrace::vec3::Vec3;

const S: i128 = SCALE;

#[test]
fn empty_record_is_black_lambertian_at_origin() {
    let rec = HitRecord::empty();
    assert_eq!(rec.point, Vec3::zero());
    assert_eq!(rec.normal, Vec3::zero());
    assert_eq!(rec.t, 0);
    assert!(!rec.front_face);
    assert_eq!(rec.material, Material::Lambertian(Lambertian::new(Vec3::zero())));
}

#[test]
fn face_normal_oriented_against_the_ray() {
    let outward = Vec3::new(0, S, 0);

    // ray meets the surface from outside: the normal is kept as given
    let mut rec = HitRecord::empty();
    let from_above = Ray::new(Vec3::new(0, S, 0), Vec3::new(0, -S, 0));
    rec.set_face_normal(&from_above, &outward);
    assert!(rec.front_face);
    assert_eq!(rec.normal, outward);

    // ray meets the surface from inside: the normal is flipped
    let mut rec2 = HitRecord::empty();
    let from_below = Ray::new(Vec3::new(0, -S, 0), Vec3::new(0, S, 0));
    rec2.set_face_normal(&from_below, &outward);
    assert!(!rec2.front_face);
    assert_eq!(rec2.normal, Vec3::new(0, -S, 0));

    // a grazing ray, orthogonal to the normal: not a front face
    let mut rec3 = HitRecord::empty();
    let grazing = Ray::new(Vec3::zero(), Vec3::new(S, 0, 0));
    rec3.set_face_normal(&grazing, &outward);
    assert!(!rec3.front_face);
    assert_eq!(rec3.normal, Vec3::new(0, -S, 0));
}
