//! The one geometric primitive: a sphere with an attached material.
//!
//! The intersection routine solves the quadratic obtained by substituting the
//! parametric ray equation into the implicit sphere equation, in the half-b
//! form. All coefficients are exact raw integers; rounding enters only at the
//! final division producing each candidate root, and the spec functions below
//! name every one of those steps.

use crate::fixed::{
    int_sqrt, isqrt, lemma_mul_mag, lemma_square_bounds, lemma_tdiv_exact, lemma_tdiv_mag,
    lemma_tdiv_mono, lemma_tdiv_nonneg, mag, tdiv, COORD_LIMIT, SCALE, T_LIMIT,
};
use crate::material::Material;
use crate::object::HitRecord;
use crate::ray::{ray_at, Ray};
use crate::vec3::{dot3, unit_vector, Point3, Vec3, VEC_LIMIT};
use vstd::prelude::*;

verus! {

#[derive(Clone, Copy, Debug, PartialEq, Eq, Structural)]
pub struct Sphere {
    pub center: Point3,
    pub radius: i128,
    pub material: Material,
}

impl Sphere {
    /// The domain the intersection contract covers: coordinates and radius
    /// small enough for the quadratic solver, and a material the scattering
    /// contracts accept.
    pub open spec fn wf(self) -> bool {
        self.center.bounded(COORD_LIMIT as int) && mag(self.radius as int) <= COORD_LIMIT as int
            && self.material.wf()
    }

    pub fn new(center: Point3, radius: i128, material: Material) -> (r: Sphere)
        ensures
            r.center == center,
            r.radius == radius,
            r.material == material,
    {
        Sphere { center, radius, material }
    }

    /// Closest intersection of `ray` with this sphere whose parameter lies in
    /// `[t_min, t_max]`, if any. The returned record carries the hit point,
    /// the unit normal oriented against the ray, and this sphere's material.
    pub fn hit(&self, ray: &Ray, t_min: i128, t_max: i128) -> (res: Option<HitRecord>)
        requires
            self.wf(),
            ray.wf(),
            mag(t_min as int) <= T_LIMIT as int,
            mag(t_max as int) <= T_LIMIT as int,
        ensures
            match res {
                Option::None => sph_miss(*self, *ray, t_min as int, t_max as int),
                Option::Some(rec) => {
                    &&& sph_chosen(*self, *ray, t_min as int, t_max as int) == Option::Some(
                        rec.t as int,
                    )
                    &&& sph_record_matches(*self, *ray, rec)
                    &&& t_min <= rec.t <= t_max
                },
            },
    {
        let dx: i128 = ray.direction.x;
        let dy: i128 = ray.direction.y;
        let dz: i128 = ray.direction.z;
        proof {
            lemma_mul_mag(dx as int, dx as int, COORD_LIMIT as int, COORD_LIMIT as int);
            lemma_mul_mag(dy as int, dy as int, COORD_LIMIT as int, COORD_LIMIT as int);
            lemma_mul_mag(dz as int, dz as int, COORD_LIMIT as int, COORD_LIMIT as int);
            lemma_square_bounds(dx as int, COORD_LIMIT as int);
            lemma_square_bounds(dy as int, COORD_LIMIT as int);
            lemma_square_bounds(dz as int, COORD_LIMIT as int);
        }
        let ocx: i128 = ray.origin.x - self.center.x;
        let ocy: i128 = ray.origin.y - self.center.y;
        let ocz: i128 = ray.origin.z - self.center.z;
        let a: i128 = dx * dx + dy * dy + dz * dz;
        proof {
            lemma_mul_mag(dx as int, ocx as int, COORD_LIMIT as int, 2 * COORD_LIMIT as int);
            lemma_mul_mag(dy as int, ocy as int, COORD_LIMIT as int, 2 * COORD_LIMIT as int);
            lemma_mul_mag(dz as int, ocz as int, COORD_LIMIT as int, 2 * COORD_LIMIT as int);
            lemma_square_bounds(ocx as int, 2 * COORD_LIMIT as int);
            lemma_square_bounds(ocy as int, 2 * COORD_LIMIT as int);
            lemma_square_bounds(ocz as int, 2 * COORD_LIMIT as int);
            lemma_square_bounds(self.radius as int, COORD_LIMIT as int);
        }
        let half_b: i128 = dx * ocx + dy * ocy + dz * ocz;
        let c: i128 = ocx * ocx + ocy * ocy + ocz * ocz - self.radius * self.radius;
        if a == 0 {
            // A zero direction admits no finite root.
            return Option::None;
        }
        proof {
            lemma_mul_mag(
                half_b as int,
                half_b as int,
                0x6000_0000_0000_0000,
                0x6000_0000_0000_0000,
            );
            lemma_mul_mag(a as int, c as int, 0x3000_0000_0000_0000, 0xD000_0000_0000_0000);
        }
        let disc: i128 = half_b * half_b - a * c;
        if disc < 0 {
            return Option::None;
        }
        let sqrt_d: i128 = int_sqrt(disc);
        proof {
            assert((sqrt_d as int) < 0x2_0000_0000_0000_0000) by (nonlinear_arith)
                requires
                    sqrt_d >= 0,
                    (sqrt_d as int) * (sqrt_d as int) < 0x8000_0000_0000_0000_0000_0000_0000_0000;
            lemma_mul_mag(
                -(half_b as int) - (sqrt_d as int),
                SCALE as int,
                0x3_0000_0000_0000_0000,
                SCALE as int,
            );
            lemma_mul_mag(
                -(half_b as int) + (sqrt_d as int),
                SCALE as int,
                0x3_0000_0000_0000_0000,
                SCALE as int,
            );
        }
        let num1: i128 = (-half_b - sqrt_d) * SCALE;
        let root1: i128 = crate::fixed::div_trunc(num1, a);
        let root: i128;
        if t_min <= root1 && root1 <= t_max {
            root = root1;
        } else {
            let num2: i128 = (-half_b + sqrt_d) * SCALE;
            let root2: i128 = crate::fixed::div_trunc(num2, a);
            if t_min <= root2 && root2 <= t_max {
                root = root2;
            } else {
                return Option::None;
            }
        }
        proof {
            assert(sph_chosen(*self, *ray, t_min as int, t_max as int) == Option::Some(
                root as int,
            ));
            lemma_mul_mag(dx as int, root as int, COORD_LIMIT as int, T_LIMIT as int);
            lemma_mul_mag(dy as int, root as int, COORD_LIMIT as int, T_LIMIT as int);
            lemma_mul_mag(dz as int, root as int, COORD_LIMIT as int, T_LIMIT as int);
        }
        let p: Point3 = ray.at(root);
        proof {
            lemma_point_bound(dx as int, root as int, ray.origin.x as int, p.x as int);
            lemma_point_bound(dy as int, root as int, ray.origin.y as int, p.y as int);
            lemma_point_bound(dz as int, root as int, ray.origin.z as int, p.z as int);
        }
        let off: Vec3 = p.sub(self.center);
        if off.is_near_zero() {
            // The accepted root lands exactly on the center: no normal exists
            // there, so the query reports no intersection.
            return Option::None;
        }
        proof {
            lemma_square_bounds(off.x as int, 0x200_0000_0000_0000);
            lemma_square_bounds(off.y as int, 0x200_0000_0000_0000);
            lemma_square_bounds(off.z as int, 0x200_0000_0000_0000);
            if off.x != 0 {
                assert(off.x * off.x >= 1) by (nonlinear_arith)
                    requires
                        off.x != 0;
            } else if off.y != 0 {
                assert(off.y * off.y >= 1) by (nonlinear_arith)
                    requires
                        off.y != 0;
            } else {
                assert(off.z * off.z >= 1) by (nonlinear_arith)
                    requires
                        off.z != 0;
            }
        }
        let outward: Vec3 = unit_vector(off);
        let mut rec = HitRecord::empty();
        rec.t = root;
        rec.point = p;
        rec.set_face_normal(ray, &outward);
        rec.material = self.material;
        Option::Some(rec)
    }
}

/// One coordinate of a hit point stays within a small multiple of the
/// coordinate limit: the truncated product shrinks by the scale.
proof fn lemma_point_bound(d: int, t: int, o: int, px: int)
    requires
        px == ray_at(o, d, t),
        mag(d * t) <= 0x40_0000_0000_0000_0000,
        mag(o) <= COORD_LIMIT as int,
    ensures
        mag(px) <= 0x100_0000_0000_0000,
{
    lemma_tdiv_mag(d * t, SCALE as int);
    lemma_tdiv_nonneg(mag(d * t), SCALE as int);
    lemma_tdiv_mono(mag(d * t), 0x40_0000_0000_0000_0000, SCALE as int);
    lemma_tdiv_exact(0x40_0000_0000_0000, SCALE as int);
}

/// Exact quadratic coefficient `a`: the raw squared length of the direction.
pub open spec fn sph_a(s: Sphere, r: Ray) -> int {
    dot3(r.direction, r.direction)
}

/// Exact coefficient `b/2`: direction dotted with (origin - center), raw.
pub open spec fn sph_half_b(s: Sphere, r: Ray) -> int {
    r.direction.x * (r.origin.x - s.center.x) + r.direction.y * (r.origin.y - s.center.y)
        + r.direction.z * (r.origin.z - s.center.z)
}

/// Raw squared distance between the ray origin and the sphere center.
pub open spec fn sph_oc2(s: Sphere, r: Ray) -> int {
    (r.origin.x - s.center.x) * (r.origin.x - s.center.x) + (r.origin.y - s.center.y) * (r.origin.y
        - s.center.y) + (r.origin.z - s.center.z) * (r.origin.z - s.center.z)
}

/// Exact coefficient `c`: squared offset of the origin minus squared radius.
pub open spec fn sph_c(s: Sphere, r: Ray) -> int {
    (r.origin.x - s.center.x) * (r.origin.x - s.center.x) + (r.origin.y - s.center.y) * (r.origin.y
        - s.center.y) + (r.origin.z - s.center.z) * (r.origin.z - s.center.z) - s.radius * s.radius
}

/// Exact discriminant of the half-b quadratic.
pub open spec fn sph_disc(s: Sphere, r: Ray) -> int {
    sph_half_b(s, r) * sph_half_b(s, r) - sph_a(s, r) * sph_c(s, r)
}

/// The smaller candidate root, truncated once at the final division.
pub open spec fn sph_root1(s: Sphere, r: Ray) -> int {
    tdiv((-sph_half_b(s, r) - isqrt(sph_disc(s, r))) * SCALE, sph_a(s, r))
}

/// The larger candidate root, truncated once at the final division.
pub open spec fn sph_root2(s: Sphere, r: Ray) -> int {
    tdiv((-sph_half_b(s, r) + isqrt(sph_disc(s, r))) * SCALE, sph_a(s, r))
}

/// The root the solver accepts: the smaller one if it lies in
/// `[t_min, t_max]`, else the larger one if it does, else none. A negative
/// discriminant or a zero direction yields none.
pub open spec fn sph_chosen(s: Sphere, r: Ray, t_min: int, t_max: int) -> Option<int> {
    if sph_a(s, r) == 0 || sph_disc(s, r) < 0 {
        Option::None
    } else if t_min <= sph_root1(s, r) <= t_max {
        Option::Some(sph_root1(s, r))
    } else if t_min <= sph_root2(s, r) <= t_max {
        Option::Some(sph_root2(s, r))
    } else {
        Option::None
    }
}

/// Raw squared distance between a point and the sphere center.
pub open spec fn sph_off2(s: Sphere, p: Vec3) -> int {
    (p.x - s.center.x) * (p.x - s.center.x) + (p.y - s.center.y) * (p.y - s.center.y) + (p.z
        - s.center.z) * (p.z - s.center.z)
}

/// Components of the outward unit normal at a surface point.
pub open spec fn sph_outward_x(s: Sphere, p: Vec3) -> int {
    tdiv((p.x - s.center.x) * SCALE, isqrt(sph_off2(s, p)))
}

pub open spec fn sph_outward_y(s: Sphere, p: Vec3) -> int {
    tdiv((p.y - s.center.y) * SCALE, isqrt(sph_off2(s, p)))
}

pub open spec fn sph_outward_z(s: Sphere, p: Vec3) -> int {
    tdiv((p.z - s.center.z) * SCALE, isqrt(sph_off2(s, p)))
}

/// Raw inner product of the ray direction with the outward normal at `p`;
/// its sign decides the front face.
pub open spec fn sph_face_dot(s: Sphere, r: Ray, p: Vec3) -> int {
    r.direction.x * sph_outward_x(s, p) + r.direction.y * sph_outward_y(s, p) + r.direction.z
        * sph_outward_z(s, p)
}

/// Squared offset from the center of the point the ray reaches at `t`.
pub open spec fn sph_off2_at(s: Sphere, r: Ray, t: int) -> int {
    (ray_at(r.origin.x as int, r.direction.x as int, t) - s.center.x) * (ray_at(
        r.origin.x as int,
        r.direction.x as int,
        t,
    ) - s.center.x) + (ray_at(r.origin.y as int, r.direction.y as int, t) - s.center.y) * (ray_at(
        r.origin.y as int,
        r.direction.y as int,
        t,
    ) - s.center.y) + (ray_at(r.origin.z as int, r.direction.z as int, t) - s.center.z) * (ray_at(
        r.origin.z as int,
        r.direction.z as int,
        t,
    ) - s.center.z)
}

/// A query that must report no intersection: no acceptable root, or the
/// accepted root lands exactly on the center, where no normal exists.
pub open spec fn sph_miss(s: Sphere, r: Ray, t_min: int, t_max: int) -> bool {
    match sph_chosen(s, r, t_min, t_max) {
        Option::None => true,
        Option::Some(t) => sph_off2_at(s, r, t) == 0,
    }
}

/// Everything a reported hit record says about the sphere it was found on:
/// the hit point is the ray evaluated at `t`, the normal is the outward unit
/// normal at that point flipped against the ray, and the material is the
/// sphere's own.
pub open spec fn sph_record_matches(s: Sphere, r: Ray, rec: HitRecord) -> bool {
    &&& rec.point.x == ray_at(r.origin.x as int, r.direction.x as int, rec.t as int)
    &&& rec.point.y == ray_at(r.origin.y as int, r.direction.y as int, rec.t as int)
    &&& rec.point.z == ray_at(r.origin.z as int, r.direction.z as int, rec.t as int)
    &&& sph_off2(s, rec.point) >= 1
    &&& rec.front_face == (sph_face_dot(s, r, rec.point) < 0)
    &&& rec.normal.x == if rec.front_face {
        sph_outward_x(s, rec.point)
    } else {
        -sph_outward_x(s, rec.point)
    }
    &&& rec.normal.y == if rec.front_face {
        sph_outward_y(s, rec.point)
    } else {
        -sph_outward_y(s, rec.point)
    }
    &&& rec.normal.z == if rec.front_face {
        sph_outward_z(s, rec.point)
    } else {
        -sph_outward_z(s, rec.point)
    }
    &&& rec.material == s.material
    &&& rec.normal_ok()
    &&& rec.point.bounded(0x100_0000_0000_0000 as int)
}

} // verus!
