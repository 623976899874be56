//! Material scattering models: diffuse (Lambertian), specular with roughness
//! (Metal), and transmissive (Dielectric).
//!
//! Each model is a pure function of the incoming ray, the hit record and the
//! random source. The spec functions below mirror the reflection and
//! refraction formulas step for step, truncation for truncation, so a
//! contract can pin a scattered direction exactly wherever no random draw
//! stands in the way.

use crate::fixed::{
    fx_div, fx_mul, int_sqrt, isqrt, lemma_mul_mag, lemma_tdiv_abs_le, lemma_tdiv_exact,
    lemma_tdiv_mag, lemma_tdiv_mono, lemma_tdiv_nonneg, lemma_tdiv_scale_bound, mag, tdiv,
    COORD_LIMIT, SCALE,
};
use crate::object::HitRecord;
use crate::ray::Ray;
use crate::rng::sample_range;
use crate::vec3::{dot3, unit_vector, unit_x, unit_y, unit_z, Color, Vec3, VEC_LIMIT};
use vstd::prelude::*;

verus! {

/// Raw inner product of two component triples.
pub open spec fn dot3i(ax: int, ay: int, az: int, bx: int, by: int, bz: int) -> int {
    ax * bx + ay * by + az * bz
}

/// Mirror reflection `v - 2 (v . n) n` of the triple `v` about `n`, the dot
/// product and each component product truncated once.
pub open spec fn reflect_x(vx: int, vy: int, vz: int, nx: int, ny: int, nz: int) -> int {
    vx - tdiv(nx * (2 * tdiv(dot3i(vx, vy, vz, nx, ny, nz), SCALE as int)), SCALE as int)
}

pub open spec fn reflect_y(vx: int, vy: int, vz: int, nx: int, ny: int, nz: int) -> int {
    vy - tdiv(ny * (2 * tdiv(dot3i(vx, vy, vz, nx, ny, nz), SCALE as int)), SCALE as int)
}

pub open spec fn reflect_z(vx: int, vy: int, vz: int, nx: int, ny: int, nz: int) -> int {
    vz - tdiv(nz * (2 * tdiv(dot3i(vx, vy, vz, nx, ny, nz), SCALE as int)), SCALE as int)
}

/// Cosine between `-v` and `n`, clamped from above at one unit, exactly as
/// the refraction code computes it.
pub open spec fn refract_cos(vx: int, vy: int, vz: int, nx: int, ny: int, nz: int) -> int {
    let mc = tdiv(dot3i(-vx, -vy, -vz, nx, ny, nz), SCALE as int);
    if mc < SCALE {
        mc
    } else {
        SCALE as int
    }
}

/// The refraction ratio between source and destination media.
pub open spec fn refract_ratio(src: int, dst: int) -> int {
    tdiv(src * SCALE, dst)
}

/// Perpendicular part of the refracted direction, per component.
pub open spec fn refract_perp_x(
    vx: int,
    vy: int,
    vz: int,
    nx: int,
    ny: int,
    nz: int,
    src: int,
    dst: int,
) -> int {
    tdiv(
        (vx + tdiv(nx * refract_cos(vx, vy, vz, nx, ny, nz), SCALE as int)) * refract_ratio(
            src,
            dst,
        ),
        SCALE as int,
    )
}

pub open spec fn refract_perp_y(
    vx: int,
    vy: int,
    vz: int,
    nx: int,
    ny: int,
    nz: int,
    src: int,
    dst: int,
) -> int {
    tdiv(
        (vy + tdiv(ny * refract_cos(vx, vy, vz, nx, ny, nz), SCALE as int)) * refract_ratio(
            src,
            dst,
        ),
        SCALE as int,
    )
}

pub open spec fn refract_perp_z(
    vx: int,
    vy: int,
    vz: int,
    nx: int,
    ny: int,
    nz: int,
    src: int,
    dst: int,
) -> int {
    tdiv(
        (vz + tdiv(nz * refract_cos(vx, vy, vz, nx, ny, nz), SCALE as int)) * refract_ratio(
            src,
            dst,
        ),
        SCALE as int,
    )
}

/// Magnitude of the parallel part: the square root of how far the
/// perpendicular part falls short of unit length, taken by absolute value
/// so the root is always defined.
pub open spec fn refract_par(
    vx: int,
    vy: int,
    vz: int,
    nx: int,
    ny: int,
    nz: int,
    src: int,
    dst: int,
) -> int {
    let px = refract_perp_x(vx, vy, vz, nx, ny, nz, src, dst);
    let py = refract_perp_y(vx, vy, vz, nx, ny, nz, src, dst);
    let pz = refract_perp_z(vx, vy, vz, nx, ny, nz, src, dst);
    let ls = tdiv(dot3i(px, py, pz, px, py, pz), SCALE as int);
    let rem = if SCALE - ls < 0 {
        -(SCALE - ls)
    } else {
        SCALE - ls
    };
    isqrt(rem * SCALE)
}

/// The refracted direction: perpendicular part plus the parallel part along
/// the negated normal.
pub open spec fn refract_x(
    vx: int,
    vy: int,
    vz: int,
    nx: int,
    ny: int,
    nz: int,
    src: int,
    dst: int,
) -> int {
    refract_perp_x(vx, vy, vz, nx, ny, nz, src, dst) + tdiv(
        nx * -refract_par(vx, vy, vz, nx, ny, nz, src, dst),
        SCALE as int,
    )
}

pub open spec fn refract_y(
    vx: int,
    vy: int,
    vz: int,
    nx: int,
    ny: int,
    nz: int,
    src: int,
    dst: int,
) -> int {
    refract_perp_y(vx, vy, vz, nx, ny, nz, src, dst) + tdiv(
        ny * -refract_par(vx, vy, vz, nx, ny, nz, src, dst),
        SCALE as int,
    )
}

pub open spec fn refract_z(
    vx: int,
    vy: int,
    vz: int,
    nx: int,
    ny: int,
    nz: int,
    src: int,
    dst: int,
) -> int {
    refract_perp_z(vx, vy, vz, nx, ny, nz, src, dst) + tdiv(
        nz * -refract_par(vx, vy, vz, nx, ny, nz, src, dst),
        SCALE as int,
    )
}

/// Raw inner product of the mirror reflection of the normalized `u` with the
/// normal `n`: its sign decides whether a fuzz-free metal scatter survives.
pub open spec fn reflection_face_dot(u: Vec3, n: Vec3) -> int {
    reflect_x(unit_x(u), unit_y(u), unit_z(u), n.x as int, n.y as int, n.z as int) * n.x
        + reflect_y(unit_x(u), unit_y(u), unit_z(u), n.x as int, n.y as int, n.z as int) * n.y
        + reflect_z(unit_x(u), unit_y(u), unit_z(u), n.x as int, n.y as int, n.z as int) * n.z
}

/// `d` is the mirror reflection of the normalized `u` about `n`.
pub open spec fn is_unit_reflection(u: Vec3, n: Vec3, d: Vec3) -> bool {
    &&& d.x == reflect_x(unit_x(u), unit_y(u), unit_z(u), n.x as int, n.y as int, n.z as int)
    &&& d.y == reflect_y(unit_x(u), unit_y(u), unit_z(u), n.x as int, n.y as int, n.z as int)
    &&& d.z == reflect_z(unit_x(u), unit_y(u), unit_z(u), n.x as int, n.y as int, n.z as int)
}

/// `d` is the refraction of the normalized `u` through `n`, from medium
/// `src` into medium `dst`.
pub open spec fn is_unit_refraction(u: Vec3, n: Vec3, src: int, dst: int, d: Vec3) -> bool {
    &&& d.x == refract_x(unit_x(u), unit_y(u), unit_z(u), n.x as int, n.y as int, n.z as int, src, dst)
    &&& d.y == refract_y(unit_x(u), unit_y(u), unit_z(u), n.x as int, n.y as int, n.z as int, src, dst)
    &&& d.z == refract_z(unit_x(u), unit_y(u), unit_z(u), n.x as int, n.y as int, n.z as int, src, dst)
}

/// Schlick's reflectance approximation, step for step as computed:
/// `r0 + (1 - r0) (1 - cos)^5` with `r0 = ((1 - ratio) / (1 + ratio))^2`.
pub open spec fn schlick(cos: int, ratio: int) -> int {
    let r0a = tdiv((SCALE - ratio) * SCALE, SCALE + ratio);
    let r0 = tdiv(r0a * r0a, SCALE as int);
    let p = SCALE - cos;
    let p2 = tdiv(p * p, SCALE as int);
    let p4 = tdiv(p2 * p2, SCALE as int);
    let p5 = tdiv(p4 * p, SCALE as int);
    r0 + tdiv((SCALE - r0) * p5, SCALE as int)
}

/// The total-internal-reflection test, over the normalized direction: the
/// scaled sine of the refracted angle exceeds one unit.
pub open spec fn cannot_refract(u: Vec3, n: Vec3, src: int, dst: int) -> bool {
    let cos = refract_cos(unit_x(u), unit_y(u), unit_z(u), n.x as int, n.y as int, n.z as int);
    let c2 = tdiv(cos * cos, SCALE as int);
    let rem = if SCALE - c2 < 0 {
        0
    } else {
        SCALE - c2
    };
    let sin = isqrt(rem * SCALE);
    tdiv(refract_ratio(src, dst) * sin, SCALE as int) > SCALE
}

/// A color usable as an attenuation: a per-channel fraction in `[0, 1]`.
/// Keeping attenuations inside the unit cube is what lets the radiance
/// estimator bound every color it produces.
pub open spec fn attenuation_ok(c: Color) -> bool {
    0 <= c.x <= SCALE && 0 <= c.y <= SCALE && 0 <= c.z <= SCALE
}

/// Mirror-reflect `v` about `n`: `v - 2 (v . n) n` with one truncation at
/// the dot product and one per component.
fn reflect(v: Vec3, n: Vec3) -> (r: Vec3)
    requires
        v.bounded(SCALE as int),
        n.bounded(SCALE as int),
    ensures
        r.x == reflect_x(v.x as int, v.y as int, v.z as int, n.x as int, n.y as int, n.z as int),
        r.y == reflect_y(v.x as int, v.y as int, v.z as int, n.x as int, n.y as int, n.z as int),
        r.z == reflect_z(v.x as int, v.y as int, v.z as int, n.x as int, n.y as int, n.z as int),
        r.bounded(7 * SCALE as int),
{
    proof {
        lemma_mul_mag(v.x as int, n.x as int, SCALE as int, SCALE as int);
        lemma_mul_mag(v.y as int, n.y as int, SCALE as int, SCALE as int);
        lemma_mul_mag(v.z as int, n.z as int, SCALE as int, SCALE as int);
        lemma_tdiv_scale_bound(dot3(v, n), 3 * SCALE as int);
    }
    let d: i128 = v.dot(&n);
    let s2: i128 = 2 * d;
    proof {
        lemma_mul_mag(n.x as int, s2 as int, SCALE as int, 6 * SCALE as int);
        lemma_mul_mag(n.y as int, s2 as int, SCALE as int, 6 * SCALE as int);
        lemma_mul_mag(n.z as int, s2 as int, SCALE as int, 6 * SCALE as int);
        lemma_tdiv_scale_bound(n.x * (s2 as int), 6 * SCALE as int);
        lemma_tdiv_scale_bound(n.y * (s2 as int), 6 * SCALE as int);
        lemma_tdiv_scale_bound(n.z * (s2 as int), 6 * SCALE as int);
    }
    let term = n.scale(s2);
    v.sub(term)
}

/// Snell refraction of the unit direction `i_ray` through `normal`, from the
/// source medium into the destination medium, decomposed into perpendicular
/// and parallel parts.
fn refract(i_ray: Vec3, normal: Vec3, refraction_index_src: i128, refraction_index_dst: i128) -> (r:
    Vec3)
    requires
        i_ray.bounded(SCALE as int),
        normal.bounded(SCALE as int),
        0 < refraction_index_src <= COORD_LIMIT,
        0 < refraction_index_dst <= COORD_LIMIT,
    ensures
        r.x == refract_x(
            i_ray.x as int,
            i_ray.y as int,
            i_ray.z as int,
            normal.x as int,
            normal.y as int,
            normal.z as int,
            refraction_index_src as int,
            refraction_index_dst as int,
        ),
        r.y == refract_y(
            i_ray.x as int,
            i_ray.y as int,
            i_ray.z as int,
            normal.x as int,
            normal.y as int,
            normal.z as int,
            refraction_index_src as int,
            refraction_index_dst as int,
        ),
        r.z == refract_z(
            i_ray.x as int,
            i_ray.y as int,
            i_ray.z as int,
            normal.x as int,
            normal.y as int,
            normal.z as int,
            refraction_index_src as int,
            refraction_index_dst as int,
        ),
        r.bounded(0x400_0000_0000_0000 as int),
{
    let etai_over_etat: i128 = fx_div(refraction_index_src, refraction_index_dst);
    proof {
        lemma_tdiv_abs_le(
            (refraction_index_src as int) * (SCALE as int),
            refraction_index_dst as int,
        );
    }
    let ni = i_ray.neg();
    proof {
        lemma_mul_mag(ni.x as int, normal.x as int, SCALE as int, SCALE as int);
        lemma_mul_mag(ni.y as int, normal.y as int, SCALE as int, SCALE as int);
        lemma_mul_mag(ni.z as int, normal.z as int, SCALE as int, SCALE as int);
        lemma_tdiv_scale_bound(dot3(ni, normal), 3 * SCALE as int);
    }
    let mc: i128 = ni.dot(&normal);
    let cos_theta: i128 = if mc < SCALE {
        mc
    } else {
        SCALE
    };
    proof {
        lemma_mul_mag(normal.x as int, cos_theta as int, SCALE as int, 3 * SCALE as int);
        lemma_mul_mag(normal.y as int, cos_theta as int, SCALE as int, 3 * SCALE as int);
        lemma_mul_mag(normal.z as int, cos_theta as int, SCALE as int, 3 * SCALE as int);
        lemma_tdiv_scale_bound(normal.x * (cos_theta as int), 3 * SCALE as int);
        lemma_tdiv_scale_bound(normal.y * (cos_theta as int), 3 * SCALE as int);
        lemma_tdiv_scale_bound(normal.z * (cos_theta as int), 3 * SCALE as int);
    }
    let term = normal.scale(cos_theta);
    let sum = i_ray.add(term);
    proof {
        lemma_mul_mag(sum.x as int, etai_over_etat as int, 4 * SCALE as int, 0x4000_0000_0000);
        lemma_mul_mag(sum.y as int, etai_over_etat as int, 4 * SCALE as int, 0x4000_0000_0000);
        lemma_mul_mag(sum.z as int, etai_over_etat as int, 4 * SCALE as int, 0x4000_0000_0000);
        lemma_tdiv_scale_bound(sum.x * (etai_over_etat as int), 0x1_0000_0000_0000);
        lemma_tdiv_scale_bound(sum.y * (etai_over_etat as int), 0x1_0000_0000_0000);
        lemma_tdiv_scale_bound(sum.z * (etai_over_etat as int), 0x1_0000_0000_0000);
    }
    let r_out_perp = sum.scale(etai_over_etat);
    let ls: i128 = r_out_perp.length_squared();
    proof {
        lemma_mul_mag(
            r_out_perp.x as int,
            r_out_perp.x as int,
            0x1_0000_0000_0000,
            0x1_0000_0000_0000,
        );
        lemma_mul_mag(
            r_out_perp.y as int,
            r_out_perp.y as int,
            0x1_0000_0000_0000,
            0x1_0000_0000_0000,
        );
        lemma_mul_mag(
            r_out_perp.z as int,
            r_out_perp.z as int,
            0x1_0000_0000_0000,
            0x1_0000_0000_0000,
        );
        lemma_tdiv_abs_le(dot3(r_out_perp, r_out_perp), SCALE as int);
    }
    let rem: i128 = SCALE - ls;
    let rem_abs: i128 = if rem < 0 {
        -rem
    } else {
        rem
    };
    let sq: i128 = int_sqrt(rem_abs * SCALE);
    proof {
        assert((sq as int) <= 0x200_0000_0000_0000) by (nonlinear_arith)
            requires
                sq >= 0,
                (sq as int) * (sq as int) <= (rem_abs as int) * (SCALE as int),
                (rem_abs as int) * (SCALE as int) < 0x4_0000_0000_0000_0000_0000_0000_0000;
        lemma_mul_mag(normal.x as int, -(sq as int), SCALE as int, 0x200_0000_0000_0000);
        lemma_mul_mag(normal.y as int, -(sq as int), SCALE as int, 0x200_0000_0000_0000);
        lemma_mul_mag(normal.z as int, -(sq as int), SCALE as int, 0x200_0000_0000_0000);
        lemma_tdiv_scale_bound(normal.x * (-(sq as int)), 0x200_0000_0000_0000);
        lemma_tdiv_scale_bound(normal.y * (-(sq as int)), 0x200_0000_0000_0000);
        lemma_tdiv_scale_bound(normal.z * (-(sq as int)), 0x200_0000_0000_0000);
    }
    let r_out_parallel = normal.scale(-sq);
    r_out_perp.add(r_out_parallel)
}

#[derive(Clone, Copy, Debug, PartialEq, Eq, Structural)]
pub enum Material {
    Lambertian(Lambertian),
    Metal(Metal),
    Dielectric(Dielectric),
}

impl Material {
    /// The domain the scattering contracts cover: physical albedos and a
    /// positive refraction index, with roughness no larger than one unit.
    pub open spec fn wf(self) -> bool {
        match self {
            Material::Lambertian(m) => attenuation_ok(m.albedo),
            Material::Metal(m) => attenuation_ok(m.albedo) && mag(m.fuzz as int) <= SCALE as int,
            Material::Dielectric(m) => 0 < m.refraction_index <= COORD_LIMIT,
        }
    }

    /// Dispatch to the variant's scattering model: whether light continues,
    /// in what direction, and with what attenuation.
    pub fn scatter(
        &self,
        in_ray: &Ray,
        hit_record: &HitRecord,
        rng: &mut rand::rngs::ThreadRng,
    ) -> (res: (Color, Option<Ray>))
        requires
            self.wf(),
            hit_record.normal_ok(),
            in_ray.direction.bounded(VEC_LIMIT as int),
            !in_ray.direction.is_zero(),
        ensures
            attenuation_ok(res.0),
            res.1 is Some ==> res.1->Some_0.origin == hit_record.point,
            res.1 is Some ==> res.1->Some_0.direction.bounded(0x400_0000_0000_0000 as int),
            match *self {
                Material::Lambertian(m) => {
                    &&& res.1 is Some
                    &&& res.0 == m.albedo
                    &&& !res.1->Some_0.direction.is_zero()
                },
                Material::Metal(m) => {
                    &&& res.0 == m.albedo
                    &&& match res.1 {
                        Option::Some(sr) => {
                            &&& dot3(sr.direction, hit_record.normal) > 0
                            &&& !sr.direction.is_zero()
                            &&& (m.fuzz == 0 ==> is_unit_reflection(
                                in_ray.direction,
                                hit_record.normal,
                                sr.direction,
                            ))
                        },
                        Option::None => m.fuzz == 0 ==> reflection_face_dot(
                            in_ray.direction,
                            hit_record.normal,
                        ) <= 0,
                    }
                },
                Material::Dielectric(m) => {
                    &&& res.1 is Some
                    &&& res.0 == (Vec3 { x: SCALE, y: SCALE, z: SCALE })
                    &&& ({
                        let src: int = if hit_record.front_face {
                            SCALE as int
                        } else {
                            m.refraction_index as int
                        };
                        let dst: int = if hit_record.front_face {
                            m.refraction_index as int
                        } else {
                            SCALE as int
                        };
                        let d = res.1->Some_0.direction;
                        let cos = refract_cos(
                            unit_x(in_ray.direction),
                            unit_y(in_ray.direction),
                            unit_z(in_ray.direction),
                            hit_record.normal.x as int,
                            hit_record.normal.y as int,
                            hit_record.normal.z as int,
                        );
                        &&& (is_unit_reflection(in_ray.direction, hit_record.normal, d)
                            || is_unit_refraction(in_ray.direction, hit_record.normal, src, dst, d))
                        &&& (cannot_refract(in_ray.direction, hit_record.normal, src, dst)
                            ==> is_unit_reflection(in_ray.direction, hit_record.normal, d))
                        &&& (!cannot_refract(in_ray.direction, hit_record.normal, src, dst)
                            && schlick(cos, refract_ratio(src, dst)) <= 0 ==> is_unit_refraction(
                            in_ray.direction,
                            hit_record.normal,
                            src,
                            dst,
                            d,
                        ))
                    })
                },
            },
    {
        match self {
            Material::Lambertian(inner) => inner.scatter(in_ray, hit_record, rng),
            Material::Metal(inner) => inner.scatter(in_ray, hit_record, rng),
            Material::Dielectric(inner) => inner.scatter(in_ray, hit_record, rng),
        }
    }
}

#[derive(Clone, Copy, Debug, PartialEq, Eq, Structural)]
pub struct Lambertian {
    pub albedo: Color,
}

impl Lambertian {
    pub fn new(albedo: Color) -> (r: Lambertian)
        ensures
            r.albedo == albedo,
    {
        Lambertian { albedo }
    }

    /// Diffuse scatter: the new direction is the surface normal plus a random
    /// unit direction, with the normal alone as fallback when the two nearly
    /// cancel. Always continues; the attenuation is exactly the albedo.
    #[allow(unused_variables)]
    pub fn scatter(
        &self,
        in_ray: &Ray,
        hit_record: &HitRecord,
        rng: &mut rand::rngs::ThreadRng,
    ) -> (res: (Color, Option<Ray>))
        requires
            hit_record.normal_ok(),
        ensures
            res.1 is Some,
            res.0 == self.albedo,
            res.1->Some_0.origin == hit_record.point,
            !res.1->Some_0.direction.is_zero(),
            res.1->Some_0.direction.bounded(2 * SCALE as int),
    {
        let mut scatter_direction = hit_record.normal.add(Vec3::random_unit_vector(rng));
        if scatter_direction.is_near_zero() {
            scatter_direction = hit_record.normal;
        }
        (self.albedo, Option::Some(Ray::new(hit_record.point, scatter_direction)))
    }
}

#[derive(Clone, Copy, Debug, PartialEq, Eq, Structural)]
pub struct Metal {
    pub albedo: Color,
    pub fuzz: i128,
}

impl Metal {
    /// Roughness is clamped only from above: one unit at most, anything
    /// below (negative included) passes through unchanged.
    pub fn new(albedo: Color, fuzz: i128) -> (r: Metal)
        ensures
            r.albedo == albedo,
            r.fuzz == if fuzz < SCALE {
                fuzz
            } else {
                SCALE
            },
    {
        let mut f: i128 = SCALE;
        if fuzz < SCALE {
            f = fuzz;
        }
        Metal { albedo, fuzz: f }
    }

    /// Specular scatter: mirror-reflect the normalized incoming direction
    /// about the normal, then perturb by `fuzz` times a unit-ball sample.
    /// The scatter is kept only while it still points away from the surface
    /// — the exact sign of the raw inner product with the normal — and is
    /// absorbed otherwise. With `fuzz == 0` the direction is the exact
    /// mirror reflection.
    pub fn scatter(
        &self,
        in_ray: &Ray,
        hit_record: &HitRecord,
        rng: &mut rand::rngs::ThreadRng,
    ) -> (res: (Color, Option<Ray>))
        requires
            hit_record.normal_ok(),
            in_ray.direction.bounded(VEC_LIMIT as int),
            !in_ray.direction.is_zero(),
            mag(self.fuzz as int) <= SCALE as int,
        ensures
            res.0 == self.albedo,
            match res.1 {
                Option::Some(sr) => {
                    &&& sr.origin == hit_record.point
                    &&& dot3(sr.direction, hit_record.normal) > 0
                    &&& !sr.direction.is_zero()
                    &&& sr.direction.bounded(8 * SCALE as int)
                    &&& self.fuzz == 0 ==> is_unit_reflection(
                        in_ray.direction,
                        hit_record.normal,
                        sr.direction,
                    )
                },
                Option::None => self.fuzz == 0 ==> reflection_face_dot(
                    in_ray.direction,
                    hit_record.normal,
                ) <= 0,
            },
    {
        let reflected = reflect(unit_vector(in_ray.direction()), hit_record.normal);
        let ball = Vec3::random_in_unit_sphere(rng);
        proof {
            lemma_mul_mag(ball.x as int, self.fuzz as int, SCALE as int, SCALE as int);
            lemma_mul_mag(ball.y as int, self.fuzz as int, SCALE as int, SCALE as int);
            lemma_mul_mag(ball.z as int, self.fuzz as int, SCALE as int, SCALE as int);
            lemma_tdiv_scale_bound(ball.x * (self.fuzz as int), SCALE as int);
            lemma_tdiv_scale_bound(ball.y * (self.fuzz as int), SCALE as int);
            lemma_tdiv_scale_bound(ball.z * (self.fuzz as int), SCALE as int);
        }
        let fuzz_term = ball.scale(self.fuzz);
        let direction = reflected.add(fuzz_term);
        let scattered = Ray::new(hit_record.point, direction);
        proof {
            lemma_mul_mag(
                direction.x as int,
                hit_record.normal.x as int,
                8 * SCALE as int,
                SCALE as int,
            );
            lemma_mul_mag(
                direction.y as int,
                hit_record.normal.y as int,
                8 * SCALE as int,
                SCALE as int,
            );
            lemma_mul_mag(
                direction.z as int,
                hit_record.normal.z as int,
                8 * SCALE as int,
                SCALE as int,
            );
        }
        let d: i128 = direction.x * hit_record.normal.x + direction.y * hit_record.normal.y
            + direction.z * hit_record.normal.z;
        if d > 0 {
            proof {
                assert(!(direction.x == 0 && direction.y == 0 && direction.z == 0))
                    by (nonlinear_arith)
                    requires
                        direction.x * hit_record.normal.x + direction.y * hit_record.normal.y
                            + direction.z * hit_record.normal.z > 0;
            }
            (self.albedo, Option::Some(scattered))
        } else {
            (self.albedo, Option::None)
        }
    }
}

#[derive(Clone, Copy, Debug, PartialEq, Eq, Structural)]
pub struct Dielectric {
    pub refraction_index: i128,
}

impl Dielectric {
    /// The index is stored as given; validating it is the scene builder's
    /// concern.
    pub fn new(refraction_index: i128) -> (r: Dielectric)
        ensures
            r.refraction_index == refraction_index,
    {
        Dielectric { refraction_index }
    }

    /// Schlick's closed-form approximation of angle-dependent reflectance.
    fn reflectance(cos: i128, refraction_index_src: i128) -> (r: i128)
        requires
            cos <= SCALE,
            mag(cos as int) <= 4 * SCALE as int,
            0 <= refraction_index_src <= 0x4000_0000_0000,
        ensures
            r as int == schlick(cos as int, refraction_index_src as int),
    {
        proof {
            lemma_tdiv_mag(
                (SCALE as int - refraction_index_src as int) * (SCALE as int),
                SCALE as int + refraction_index_src as int,
            );
            lemma_tdiv_mono(
                mag((SCALE as int - refraction_index_src as int) * (SCALE as int)),
                (SCALE as int + refraction_index_src as int) * (SCALE as int),
                SCALE as int + refraction_index_src as int,
            );
            lemma_tdiv_exact(SCALE as int, SCALE as int + refraction_index_src as int);
            assert(mag((SCALE as int - refraction_index_src as int) * (SCALE as int)) <= (
            SCALE as int + refraction_index_src as int) * (SCALE as int)) by (nonlinear_arith)
                requires
                    refraction_index_src >= 0,
                    SCALE as int == 65536;
        }
        let mut r0: i128 = fx_div(SCALE - refraction_index_src, SCALE + refraction_index_src);
        proof {
            lemma_mul_mag(r0 as int, r0 as int, SCALE as int, SCALE as int);
            lemma_tdiv_scale_bound(r0 as int * r0 as int, SCALE as int);
        }
        r0 = fx_mul(r0, r0);
        let p: i128 = SCALE - cos;
        proof {
            lemma_mul_mag(p as int, p as int, 5 * SCALE as int, 5 * SCALE as int);
            lemma_tdiv_scale_bound(p as int * p as int, 25 * SCALE as int);
        }
        let p2: i128 = fx_mul(p, p);
        proof {
            lemma_mul_mag(p2 as int, p2 as int, 25 * SCALE as int, 25 * SCALE as int);
            lemma_tdiv_scale_bound(p2 as int * p2 as int, 625 * SCALE as int);
        }
        let p4: i128 = fx_mul(p2, p2);
        proof {
            lemma_mul_mag(p4 as int, p as int, 625 * SCALE as int, 5 * SCALE as int);
            lemma_tdiv_scale_bound(p4 as int * p as int, 3125 * SCALE as int);
        }
        let p5: i128 = fx_mul(p4, p);
        proof {
            lemma_mul_mag(
                SCALE as int - r0 as int,
                p5 as int,
                2 * SCALE as int,
                3125 * SCALE as int,
            );
            lemma_tdiv_scale_bound((SCALE as int - r0 as int) * p5 as int, 6250 * SCALE as int);
        }
        r0 + fx_mul(SCALE - r0, p5)
    }

    /// Transmissive scatter: never absorbs and never tints. Refract by
    /// Snell's law unless refraction is impossible (total internal
    /// reflection) or a random draw lands under the Schlick reflectance, in
    /// which case mirror-reflect.
    pub fn scatter(
        &self,
        in_ray: &Ray,
        hit_record: &HitRecord,
        rng: &mut rand::rngs::ThreadRng,
    ) -> (res: (Color, Option<Ray>))
        requires
            hit_record.normal_ok(),
            in_ray.direction.bounded(VEC_LIMIT as int),
            !in_ray.direction.is_zero(),
            0 < self.refraction_index <= COORD_LIMIT,
        ensures
            res.0 == (Vec3 { x: SCALE, y: SCALE, z: SCALE }),
            res.1 is Some,
            res.1->Some_0.origin == hit_record.point,
            res.1->Some_0.direction.bounded(0x400_0000_0000_0000 as int),
            ({
                let src: int = if hit_record.front_face {
                    SCALE as int
                } else {
                    self.refraction_index as int
                };
                let dst: int = if hit_record.front_face {
                    self.refraction_index as int
                } else {
                    SCALE as int
                };
                let d = res.1->Some_0.direction;
                let cos = refract_cos(
                    unit_x(in_ray.direction),
                    unit_y(in_ray.direction),
                    unit_z(in_ray.direction),
                    hit_record.normal.x as int,
                    hit_record.normal.y as int,
                    hit_record.normal.z as int,
                );
                &&& (is_unit_reflection(in_ray.direction, hit_record.normal, d)
                    || is_unit_refraction(in_ray.direction, hit_record.normal, src, dst, d))
                &&& (cannot_refract(in_ray.direction, hit_record.normal, src, dst)
                    ==> is_unit_reflection(in_ray.direction, hit_record.normal, d))
                &&& (!cannot_refract(in_ray.direction, hit_record.normal, src, dst) && schlick(
                    cos,
                    refract_ratio(src, dst),
                ) <= 0 ==> is_unit_refraction(in_ray.direction, hit_record.normal, src, dst, d))
            }),
    {
        let attenuation = Vec3::new(SCALE, SCALE, SCALE);
        let refraction_index_src: i128;
        let refraction_index_dst: i128;
        if hit_record.front_face {
            refraction_index_src = SCALE;
            refraction_index_dst = self.refraction_index;
        } else {
            refraction_index_src = self.refraction_index;
            refraction_index_dst = SCALE;
        }
        let refraction_ratio: i128 = fx_div(refraction_index_src, refraction_index_dst);
        proof {
            lemma_tdiv_abs_le(
                (refraction_index_src as int) * (SCALE as int),
                refraction_index_dst as int,
            );
        }
        let unit_direction = unit_vector(in_ray.direction());
        let nu = unit_direction.neg();
        proof {
            lemma_mul_mag(nu.x as int, hit_record.normal.x as int, SCALE as int, SCALE as int);
            lemma_mul_mag(nu.y as int, hit_record.normal.y as int, SCALE as int, SCALE as int);
            lemma_mul_mag(nu.z as int, hit_record.normal.z as int, SCALE as int, SCALE as int);
            lemma_tdiv_scale_bound(dot3(nu, hit_record.normal), 3 * SCALE as int);
        }
        let mc: i128 = nu.dot(&hit_record.normal);
        let cos_theta: i128 = if mc < SCALE {
            mc
        } else {
            SCALE
        };
        proof {
            lemma_mul_mag(cos_theta as int, cos_theta as int, 3 * SCALE as int, 3 * SCALE as int);
            lemma_tdiv_scale_bound(cos_theta as int * cos_theta as int, 9 * SCALE as int);
        }
        let c2: i128 = fx_mul(cos_theta, cos_theta);
        let mut rem: i128 = SCALE - c2;
        if rem < 0 {
            // A cosine this far outside the unit range cannot arise from
            // unit inputs; rather than take the root of a negative number,
            // treat the angle as grazing.
            rem = 0;
        }
        let sin_theta: i128 = int_sqrt(rem * SCALE);
        proof {
            assert((sin_theta as int) <= 0x20_0000) by (nonlinear_arith)
                requires
                    sin_theta >= 0,
                    (sin_theta as int) * (sin_theta as int) <= (rem as int) * (SCALE as int),
                    (rem as int) * (SCALE as int) <= 0x400_0000_0000;
            lemma_mul_mag(refraction_ratio as int, sin_theta as int, 0x4000_0000_0000, 0x20_0000);
        }
        let cannot: bool = fx_mul(refraction_ratio, sin_theta) > SCALE;
        let direction: Vec3;
        if cannot || Self::reflectance(cos_theta, refraction_ratio) > sample_range(rng, 0, SCALE) {
            direction = reflect(unit_direction, hit_record.normal);
        } else {
            direction = refract(
                unit_direction,
                hit_record.normal,
                refraction_index_src,
                refraction_index_dst,
            );
        }
        (attenuation, Option::Some(Ray::new(hit_record.point, direction)))
    }
}

} // verus!
