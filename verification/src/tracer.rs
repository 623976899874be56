//! The radiance estimator: the recursive core that ties the scene query and
//! the material models together.

use crate::fixed::{
    isqrt, lemma_tdiv_exact, lemma_tdiv_mono, lemma_tdiv_nonneg, tdiv, COORD_LIMIT, SCALE,
    T_LIMIT,
};
use crate::object::{list_fold, HittableList};
use crate::ray::Ray;
use crate::vec3::{dot3, unit_vector, Color, Vec3, VEC_LIMIT};
use vstd::prelude::*;

verus! {

/// Half a unit: the 0.5 of the gradient parameter.
pub const HALF: i128 = 32768;

/// Epsilon floor of the scene query: hits nearer than this are ignored, so a
/// scattered ray cannot re-intersect the surface it just left (shadow acne).
pub const T_EPS: i128 = 65;

/// Sky gradient endpoint straight up, channel by channel: sky blue.
pub const SKY_R: i128 = 32768;

pub const SKY_G: i128 = 45875;

pub const SKY_B: i128 = 65536;

/// Gradient parameter of the background: half of (unit y + one), mapping a
/// direction's y in [-1, 1] onto [0, 1].
pub open spec fn bg_t(d: Vec3) -> int {
    tdiv((tdiv(d.y * SCALE, isqrt(dot3(d, d))) + SCALE) * (HALF as int), SCALE as int)
}

/// The background color: a vertical linear interpolation from white at
/// parameter zero to sky blue at parameter one.
pub open spec fn bg_x(d: Vec3) -> int {
    tdiv((SCALE as int) * ((SCALE as int) - bg_t(d)), SCALE as int) + tdiv(
        (SKY_R as int) * bg_t(d),
        SCALE as int,
    )
}

pub open spec fn bg_y(d: Vec3) -> int {
    tdiv((SCALE as int) * ((SCALE as int) - bg_t(d)), SCALE as int) + tdiv(
        (SKY_G as int) * bg_t(d),
        SCALE as int,
    )
}

pub open spec fn bg_z(d: Vec3) -> int {
    tdiv((SCALE as int) * ((SCALE as int) - bg_t(d)), SCALE as int) + tdiv(
        (SKY_B as int) * bg_t(d),
        SCALE as int,
    )
}

/// Channel-wise product of two unit-range channels stays in unit range and
/// never exceeds either factor's share: attenuation only dims.
proof fn lemma_color_mul(a: int, c: int)
    requires
        0 <= a <= SCALE,
        0 <= c <= SCALE,
    ensures
        0 <= tdiv(a * c, SCALE as int) <= SCALE,
        tdiv(a * c, SCALE as int) <= a,
{
    assert(0 <= a * c <= (SCALE as int) * (SCALE as int) && a * c <= a * (SCALE as int))
        by (nonlinear_arith)
        requires
            0 <= a <= SCALE as int,
            0 <= c <= SCALE as int;
    lemma_tdiv_nonneg(a * c, SCALE as int);
    lemma_tdiv_mono(a * c, (SCALE as int) * (SCALE as int), SCALE as int);
    lemma_tdiv_mono(a * c, a * (SCALE as int), SCALE as int);
    lemma_tdiv_exact(SCALE as int, SCALE as int);
    lemma_tdiv_exact(a, SCALE as int);
}

/// The only light source: a sky gradient from white to blue, evaluated on
/// the normalized ray direction.
pub fn background_color(ray: &Ray) -> (c: Color)
    requires
        ray.direction.bounded(VEC_LIMIT as int),
        !ray.direction.is_zero(),
    ensures
        c.x == bg_x(ray.direction),
        c.y == bg_y(ray.direction),
        c.z == bg_z(ray.direction),
        0 <= c.x <= SCALE,
        0 <= c.y <= SCALE,
        0 <= c.z <= SCALE,
{
    let u = unit_vector(ray.direction());
    let t: i128 = crate::fixed::fx_mul(u.y + SCALE, HALF);
    proof {
        lemma_tdiv_nonneg((u.y + SCALE) * (HALF as int), SCALE as int);
        lemma_tdiv_mono(
            (u.y + SCALE) * (HALF as int),
            (SCALE as int) * (SCALE as int),
            SCALE as int,
        );
        lemma_tdiv_exact(SCALE as int, SCALE as int);
    }
    let white = Vec3::new(SCALE, SCALE, SCALE);
    let blue = Vec3::new(SKY_R, SKY_G, SKY_B);
    let wpart = white.scale(SCALE - t);
    let bpart = blue.scale(t);
    proof {
        lemma_tdiv_exact(SCALE as int - t as int, SCALE as int);
        lemma_tdiv_nonneg((SKY_R as int) * (t as int), SCALE as int);
        lemma_tdiv_nonneg((SKY_G as int) * (t as int), SCALE as int);
        lemma_tdiv_nonneg((SKY_B as int) * (t as int), SCALE as int);
        lemma_tdiv_mono((SKY_R as int) * (t as int), (SCALE as int) * (t as int), SCALE as int);
        lemma_tdiv_mono((SKY_G as int) * (t as int), (SCALE as int) * (t as int), SCALE as int);
        lemma_tdiv_exact(t as int, SCALE as int);
    }
    wpart.add(bpart)
}

/// All components within the coordinate volume the intersection contracts
/// cover.
fn in_coord(v: &Vec3) -> (b: bool)
    ensures
        b == v.bounded(COORD_LIMIT as int),
{
    -COORD_LIMIT <= v.x && v.x <= COORD_LIMIT && -COORD_LIMIT <= v.y && v.y <= COORD_LIMIT
        && -COORD_LIMIT <= v.z && v.z <= COORD_LIMIT
}

/// Estimate the radiance carried to the ray origin along one sampled path.
///
/// Terminal states: an exhausted bounce budget contributes black; a ray that
/// leaves the scene contributes the background gradient; an absorbed scatter
/// contributes its attenuation alone. On a hit the estimator recurses on the
/// scattered ray with one bounce less and attenuates the recursive estimate
/// channel by channel, so every color it returns stays in the unit cube. A
/// scattered ray that leaves the supported coordinate volume, or whose
/// direction degenerated to zero, ends its path as if absorbed.
pub fn ray_color(
    rng: &mut rand::rngs::ThreadRng,
    ray: &Ray,
    world: &HittableList,
    bounce_limit: u16,
) -> (c: Color)
    requires
        world.wf(),
        ray.wf(),
        !ray.direction.is_zero(),
    ensures
        0 <= c.x <= SCALE,
        0 <= c.y <= SCALE,
        0 <= c.z <= SCALE,
        bounce_limit == 0 ==> c == (Vec3 { x: 0, y: 0, z: 0 }),
        (bounce_limit > 0 && list_fold(world.objects@, *ray, T_EPS as int, T_LIMIT as int)
            is None) ==> (c.x == bg_x(ray.direction) && c.y == bg_y(ray.direction) && c.z == bg_z(
            ray.direction,
        )),
        (bounce_limit > 0 && list_fold(world.objects@, *ray, T_EPS as int, T_LIMIT as int)
            is Some) ==> ({
            let win = list_fold(world.objects@, *ray, T_EPS as int, T_LIMIT as int)->Some_0;
            match world.objects@[win.0].material {
                crate::material::Material::Lambertian(m) => c.x <= m.albedo.x && c.y <= m.albedo.y
                    && c.z <= m.albedo.z,
                crate::material::Material::Metal(m) => c.x <= m.albedo.x && c.y <= m.albedo.y
                    && c.z <= m.albedo.z,
                crate::material::Material::Dielectric(m) => true,
            }
        }),
    decreases bounce_limit,
{
    // Bounce budget exhausted: no more light is gathered.
    if bounce_limit == 0 {
        return Vec3::zero();
    }
    match world.hit(ray, T_EPS, T_LIMIT) {
        Option::Some(hit_record) => {
            proof {
                let win = list_fold(
                    world.objects@,
                    *ray,
                    T_EPS as int,
                    T_LIMIT as int,
                )->Some_0;
                assert(world.objects@[win.0].wf());
            }
            let (attenuation, scattered_opt) = hit_record.material.scatter(
                ray,
                &hit_record,
                rng,
            );
            match scattered_opt {
                Option::Some(scattered) => {
                    if in_coord(&scattered.origin) && in_coord(&scattered.direction)
                        && !scattered.direction.is_near_zero() {
                        let recursive = ray_color(rng, &scattered, world, bounce_limit - 1);
                        proof {
                            lemma_color_mul(attenuation.x as int, recursive.x as int);
                            lemma_color_mul(attenuation.y as int, recursive.y as int);
                            lemma_color_mul(attenuation.z as int, recursive.z as int);
                        }
                        attenuation.mul(recursive)
                    } else {
                        attenuation
                    }
                },
                Option::None => attenuation,
            }
        },
        Option::None => background_color(ray),
    }
}

} // verus!
