use raytrace::fixed::SCALE;
use raytrace::ray::Ray;
use raytrace::vec3::Vec3;

const S: i128 = SCALE;

#[test]
fn test_at() {
    let r = Ray::new(Vec3::zero(), Vec3::new(S, 2 * S, 3 * S));
    assert_eq!(r.at(10 * S), Vec3::new(10 * S, 20 * S, 30 * S));
}

#[test]
fn test_accessors() {
    let origin = Vec3::new(S, 0, -S);
    let direction = Vec3::new(0, 2 * S, 0);
    let r = Ray::new(origin, direction);
    assert_eq!(r.origin(), origin);
    assert_eq!(r.direction(), direction);
}

#[test]
fn test_at_fractional() {
    // a quarter of the way along a non-axis direction, truncated per component
    let r = Ray::new(Vec3::new(S, S, S), Vec3::new(2 * S, -2 * S, S));
    let quarter = S / 4;
    assert_eq!(r.at(quarter), Vec3::new(S + S / 2, S - S / 2, S + S / 4));
}
