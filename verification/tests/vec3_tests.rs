use raytrace::fixed::SCALE;
use raytrace::vec3::{unit_vector, Vec3};

const S: i128 = SCALE;

#[test]
fn test_length_squared() {
    let v = Vec3::new(S, 2 * S, 3 * S);
    assert_eq!(v.length_squared(), 14 * S);
}

#[test]
fn test_length() {
    let v = Vec3::new(4 * S, 0, 3 * S);
    assert_eq!(v.length(), 5 * S);
}

#[test]
fn test_dot() {
    let v1 = Vec3::new(S, 2 * S, 3 * S);
    let v2 = Vec3::new(10 * S, 20 * S, 30 * S);
    assert_eq!(v1.dot(&v2), 140 * S);
}

#[test]
fn test_cross() {
    let v1 = Vec3::new(S, 2 * S, 3 * S);
    let v2 = Vec3::new(4 * S, 5 * S, 6 * S);
    assert_eq!(v1.cross(&v2), Vec3::new(-3 * S, 6 * S, -3 * S));
}

#[test]
fn test_unit_vector() {
    let v = Vec3::new(4 * S, 0, 3 * S);
    assert_eq!(unit_vector(v), Vec3::new(4 * S / 5, 0, 3 * S / 5));
}

#[test]
fn test_unit_vector_inexact() {
    // a diagonal of irrational length: each component truncates the same way,
    // and the squared norm lands inside the proved band around one unit
    let u = unit_vector(Vec3::new(S, S, S));
    assert_eq!(u, Vec3::new(37837, 37837, 37837));
    let n = u.x * u.x + u.y * u.y + u.z * u.z;
    assert!(S * S - 6 * S <= n && n <= S * S + 8 * S);
}

#[test]
fn test_neg() {
    assert_eq!(Vec3::new(S, 2 * S, 0).neg(), Vec3::new(-S, -2 * S, 0));
}

#[test]
fn test_sub() {
    let v = Vec3::new(S, 2 * S, 3 * S);
    assert_eq!(v.sub(v), Vec3::zero());
}

#[test]
fn test_add() {
    let v1 = Vec3::new(S, 2 * S, 3 * S);
    let v2 = Vec3::new(4 * S, 5 * S, 6 * S);
    assert_eq!(v1.add(v2), Vec3::new(5 * S, 7 * S, 9 * S));
}

#[test]
fn test_add_assign() {
    let mut v1 = Vec3::new(S, 2 * S, 3 * S);
    let v2 = Vec3::new(4 * S, 5 * S, 6 * S);
    v1.add_assign(v2);
    assert_eq!(v1, Vec3::new(5 * S, 7 * S, 9 * S));
}

#[test]
fn test_mul_const() {
    assert_eq!(Vec3::new(S, 2 * S, 3 * S).scale(2 * S), Vec3::new(2 * S, 4 * S, 6 * S));
}

#[test]
fn test_mul_assign_const() {
    let mut v = Vec3::new(S, 2 * S, 3 * S);
    v.scale_assign(2 * S);
    assert_eq!(v, Vec3::new(2 * S, 4 * S, 6 * S));
}

#[test]
fn test_mul_vec() {
    let v1 = Vec3::new(S, 2 * S, 3 * S);
    let v2 = Vec3::new(2 * S, 2 * S, 2 * S);
    assert_eq!(v1.mul(v2), Vec3::new(2 * S, 4 * S, 6 * S));
}

#[test]
fn test_mul_assign_vec() {
    let mut v1 = Vec3::new(S, 2 * S, 3 * S);
    let v2 = Vec3::new(2 * S, 2 * S, 2 * S);
    v1.mul_assign(v2);
    assert_eq!(v1, Vec3::new(2 * S, 4 * S, 6 * S));
}

#[test]
fn test_div() {
    assert_eq!(Vec3::new(2 * S, 4 * S, 6 * S).div(2 * S), Vec3::new(S, 2 * S, 3 * S));
}

#[test]
fn test_div_assign() {
    let mut v = Vec3::new(2 * S, 4 * S, 6 * S);
    v.div_assign(2 * S);
    assert_eq!(v, Vec3::new(S, 2 * S, 3 * S));
}

#[test]
fn test_is_near_zero() {
    assert!(Vec3::zero().is_near_zero());
    assert!(!Vec3::new(1, 0, 0).is_near_zero());
    assert!(!Vec3::new(0, -1, 0).is_near_zero());
}

#[test]
fn test_random_ranges() {
    let mut rng = rand::thread_rng();
    let mut all_equal = true;
    let first = Vec3::random(&mut rng);
    for _ in 0..100 {
        let v = Vec3::random(&mut rng);
        assert!(0 <= v.x && v.x < S);
        assert!(0 <= v.y && v.y < S);
        assert!(0 <= v.z && v.z < S);
        if v != first {
            all_equal = false;
        }
        let w = Vec3::random_range(&mut rng, -S, S);
        assert!(-S <= w.x && w.x < S);
        assert!(-S <= w.y && w.y < S);
        assert!(-S <= w.z && w.z < S);
    }
    assert!(!all_equal);
}

#[test]
fn test_random_in_unit_sphere() {
    let mut rng = rand::thread_rng();
    for _ in 0..100 {
        let v = Vec3::random_in_unit_sphere(&mut rng);
        assert!(v.x * v.x + v.y * v.y + v.z * v.z < S * S);
    }
}

#[test]
fn test_random_unit_vector_length() {
    let mut rng = rand::thread_rng();
    for _ in 0..100 {
        let v = Vec3::random_unit_vector(&mut rng);
        let n = v.x * v.x + v.y * v.y + v.z * v.z;
        // within a few grid steps of unit length
        assert!((S - 32) * (S - 32) <= n && n <= (S + 32) * (S + 32));
    }
}

#[test]
fn test_random_in_unit_disk() {
    let mut rng = rand::thread_rng();
    for _ in 0..100 {
        let v = Vec3::random_in_unit_disk(&mut rng);
        assert_eq!(v.z, 0);
        assert!(v.x * v.x + v.y * v.y < S * S);
    }
}
