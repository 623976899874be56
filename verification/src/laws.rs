//! Laws of the renderer: properties that relate several operations, stated
//! and proved over the same spec functions the operations' contracts use.

use crate::fixed::{
    isqrt, lemma_isqrt_above, lemma_isqrt_bounds, lemma_isqrt_unique, lemma_tdiv_exact,
    lemma_tdiv_mag, lemma_tdiv_neg, lemma_tdiv_nonneg, mag, tdiv, SCALE,
};
use crate::object::list_fold;
use crate::ray::{ray_at, Ray};
use crate::material::{cannot_refract, refract_cos, refract_ratio, schlick};
use crate::sphere::{
    sph_a, sph_c, sph_chosen, sph_disc, sph_face_dot, sph_half_b, sph_miss, sph_oc2, sph_off2,
    sph_outward_x, sph_outward_y, sph_outward_z, sph_root1, sph_root2, Sphere,
};
use crate::tracer::{bg_t, bg_x, bg_y, bg_z, SKY_B, SKY_G, SKY_R};
use crate::vec3::{dot3, unit_x, unit_y, unit_z, Vec3};
use vstd::arithmetic::mul::lemma_mul_is_distributive_add;
use vstd::arithmetic::div_mod::{
    lemma_div_pos_is_pos, lemma_fundamental_div_mod, lemma_mod_division_less_than_divisor,
};
use vstd::prelude::*;

verus! {

/// One normalized component, squared and scaled by the squared length: the
/// quotient `q = m * SCALE / el` keeps `(el q)^2` within one remainder step
/// of `(m SCALE)^2`.
proof fn lemma_norm_quotient_bounds(m: int, el: int, q: int)
    requires
        0 <= m <= el,
        1 <= el,
        q == (m * 65536) / el,
    ensures
        0 <= q,
        (el * el) * (q * q) <= (m * m) * (65536 * 65536),
        (el * el) * (q * q) >= (m * m) * (65536 * 65536) - 2 * ((el * el) * 65536),
{
    let a = m * 65536;
    lemma_fundamental_div_mod(a, el);
    lemma_mod_division_less_than_divisor(a, el);
    let r = a % el;
    lemma_div_pos_is_pos(a, el);
    assert(el * q == a - r);
    assert((el * q) * (el * q) <= a * a) by (nonlinear_arith)
        requires
            0 <= q,
            1 <= el,
            0 <= r,
            el * q == a - r;
    assert((el * q) * (el * q) >= a * a - 2 * (a * el)) by (nonlinear_arith)
        requires
            el * q == a - r,
            0 <= r < el,
            a >= 0;
    assert((el * q) * (el * q) == (el * el) * (q * q)) by (nonlinear_arith);
    assert(a * a == (m * m) * (65536 * 65536)) by (nonlinear_arith)
        requires
            a == m * 65536;
    assert(2 * (a * el) <= 2 * ((el * el) * 65536)) by (nonlinear_arith)
        requires
            a == m * 65536,
            0 <= m <= el;
}

/// Normalizing a vector of at least a quarter unit of length gives a vector
/// of unit length, within a few steps of the fixed-point grid: its raw
/// squared norm lies within six scale steps below and eight above one squared
/// unit, so its raw length lies within four steps of one unit. Shorter
/// vectors are excluded: so close to the grid the truncated quotients carry
/// errors as large as the result.
pub proof fn lemma_unit_vector_length(v: Vec3)
    requires
        dot3(v, v) >= 0x1000_0000,
    ensures
        ({
            let n2 = unit_x(v) * unit_x(v) + unit_y(v) * unit_y(v) + unit_z(v) * unit_z(v);
            &&& (SCALE as int) * (SCALE as int) - 6 * (SCALE as int) <= n2
            &&& n2 <= (SCALE as int) * (SCALE as int) + 8 * (SCALE as int)
            &&& (SCALE as int) - 4 <= isqrt(n2) <= (SCALE as int) + 3
        }),
{
    let s = SCALE as int;
    let n = dot3(v, v);
    let el = isqrt(n);
    lemma_isqrt_bounds(n);
    lemma_isqrt_above(16384, n);
    // each component's magnitude is at most the length
    assert(v.x * v.x >= 0 && v.y * v.y >= 0 && v.z * v.z >= 0) by (nonlinear_arith);
    let mx = mag(v.x as int);
    let my = mag(v.y as int);
    let mz = mag(v.z as int);
    if v.x < 0 {
        assert((-(v.x as int)) * (-(v.x as int)) == v.x * v.x) by (nonlinear_arith);
    }
    if v.y < 0 {
        assert((-(v.y as int)) * (-(v.y as int)) == v.y * v.y) by (nonlinear_arith);
    }
    if v.z < 0 {
        assert((-(v.z as int)) * (-(v.z as int)) == v.z * v.z) by (nonlinear_arith);
    }
    assert(mx * mx == v.x * v.x && my * my == v.y * v.y && mz * mz == v.z * v.z);
    lemma_isqrt_above(mx, n);
    lemma_isqrt_above(my, n);
    lemma_isqrt_above(mz, n);
    // the magnitude of each normalized component is an euclidean quotient
    lemma_tdiv_mag(v.x * SCALE, el);
    lemma_tdiv_mag(v.y * SCALE, el);
    lemma_tdiv_mag(v.z * SCALE, el);
    let qx = (mx * 65536) / el;
    let qy = (my * 65536) / el;
    let qz = (mz * 65536) / el;
    assert(mag(v.x * SCALE) == mx * 65536 && mag(v.y * SCALE) == my * 65536 && mag(v.z * SCALE)
        == mz * 65536);
    assert(mag(unit_x(v)) == qx && mag(unit_y(v)) == qy && mag(unit_z(v)) == qz);
    if unit_x(v) < 0 {
        assert((-unit_x(v)) * (-unit_x(v)) == unit_x(v) * unit_x(v)) by (nonlinear_arith);
    }
    if unit_y(v) < 0 {
        assert((-unit_y(v)) * (-unit_y(v)) == unit_y(v) * unit_y(v)) by (nonlinear_arith);
    }
    if unit_z(v) < 0 {
        assert((-unit_z(v)) * (-unit_z(v)) == unit_z(v) * unit_z(v)) by (nonlinear_arith);
    }
    assert(unit_x(v) * unit_x(v) == qx * qx && unit_y(v) * unit_y(v) == qy * qy && unit_z(v)
        * unit_z(v) == qz * qz);
    lemma_norm_quotient_bounds(mx, el, qx);
    lemma_norm_quotient_bounds(my, el, qy);
    lemma_norm_quotient_bounds(mz, el, qz);
    let sumq = qx * qx + qy * qy + qz * qz;
    assert((el * el) * sumq <= n * (65536 * 65536)) by (nonlinear_arith)
        requires
            sumq == qx * qx + qy * qy + qz * qz,
            n == mx * mx + my * my + mz * mz,
            (el * el) * (qx * qx) <= (mx * mx) * (65536 * 65536),
            (el * el) * (qy * qy) <= (my * my) * (65536 * 65536),
            (el * el) * (qz * qz) <= (mz * mz) * (65536 * 65536);
    assert((el * el) * sumq >= n * (65536 * 65536) - 6 * ((el * el) * 65536))
        by (nonlinear_arith)
        requires
            sumq == qx * qx + qy * qy + qz * qz,
            n == mx * mx + my * my + mz * mz,
            (el * el) * (qx * qx) >= (mx * mx) * (65536 * 65536) - 2 * ((el * el) * 65536),
            (el * el) * (qy * qy) >= (my * my) * (65536 * 65536) - 2 * ((el * el) * 65536),
            (el * el) * (qz * qz) >= (mz * mz) * (65536 * 65536) - 2 * ((el * el) * 65536);
    assert(n <= el * el + 2 * el) by (nonlinear_arith)
        requires
            n < (el + 1) * (el + 1);
    assert(sumq <= 65536 * 65536 + 8 * 65536) by (nonlinear_arith)
        requires
            (el * el) * sumq <= n * (65536 * 65536),
            n <= el * el + 2 * el,
            16384 <= el;
    assert(sumq >= 65536 * 65536 - 6 * 65536) by (nonlinear_arith)
        requires
            (el * el) * sumq >= n * (65536 * 65536) - 6 * ((el * el) * 65536),
            n >= el * el,
            16384 <= el;
    // the raw length of the normalized vector
    lemma_isqrt_above(s - 4, sumq);
    lemma_isqrt_bounds(sumq);
    if isqrt(sumq) > s + 3 {
        assert((s + 4) * (s + 4) <= isqrt(sumq) * isqrt(sumq)) by (nonlinear_arith)
            requires
                0 <= s + 4 <= isqrt(sumq);
    }
}

/// Evaluating a ray is the pure affine identity: the point at parameter `t`
/// is exactly `origin + t * direction`, component by component, with the
/// product truncated once by the fixed-point scale.
pub proof fn lemma_ray_at_identity(r: Ray, t: int)
    ensures
        ray_at(r.origin.x as int, r.direction.x as int, t) == r.origin.x + tdiv(
            r.direction.x * t,
            SCALE as int,
        ),
        ray_at(r.origin.y as int, r.direction.y as int, t) == r.origin.y + tdiv(
            r.direction.y * t,
            SCALE as int,
        ),
        ray_at(r.origin.z as int, r.direction.z as int, t) == r.origin.z + tdiv(
            r.direction.z * t,
            SCALE as int,
        ),
{
}

/// Sphere miss: a ray whose closest approach to the center exceeds the
/// radius has a negative discriminant and reports no hit, whatever the
/// search window. The squared closest approach of the ray's line, scaled by
/// `a`, is `a * |oc|^2 - h^2`; exceeding the radius means it exceeds
/// `a * radius^2`.
pub proof fn lemma_sphere_miss(s: Sphere, r: Ray, t_min: int, t_max: int)
    requires
        sph_a(s, r) > 0,
        sph_a(s, r) * sph_oc2(s, r) - sph_half_b(s, r) * sph_half_b(s, r) > sph_a(s, r) * (
        s.radius * s.radius),
    ensures
        sph_disc(s, r) < 0,
        sph_chosen(s, r, t_min, t_max) is None,
        sph_miss(s, r, t_min, t_max),
{
    let a = sph_a(s, r);
    let q = sph_oc2(s, r);
    let rr = s.radius * s.radius;
    assert(a * (q - rr) == a * q - a * rr) by (nonlinear_arith);
    assert(sph_c(s, r) == q - rr);
}

/// A ray fired from strictly inside the sphere: the smaller root lies at or
/// behind the origin, so only the far root can be accepted by any window
/// that starts in front of the origin.
pub proof fn lemma_inside_sphere_far_root(s: Sphere, r: Ray, t_min: int, t_max: int)
    requires
        sph_a(s, r) > 0,
        sph_c(s, r) < 0,
        1 <= t_min,
    ensures
        sph_disc(s, r) > 0,
        sph_root1(s, r) <= 0,
        sph_chosen(s, r, t_min, t_max) == if t_min <= sph_root2(s, r) <= t_max {
            Option::Some(sph_root2(s, r))
        } else {
            Option::None::<int>
        },
{
    let a = sph_a(s, r);
    let c = sph_c(s, r);
    let h = sph_half_b(s, r);
    assert(a * c < 0) by (nonlinear_arith)
        requires
            a > 0,
            c < 0;
    assert(h * h >= 0) by (nonlinear_arith);
    let disc = sph_disc(s, r);
    assert(mag(h) * mag(h) == h * h) by (nonlinear_arith);
    lemma_isqrt_above(mag(h), disc);
    let sq = isqrt(disc);
    // -h - sq <= 0, so the truncated first root cannot be positive
    let num = (-h - sq) * SCALE;
    assert(num <= 0) by (nonlinear_arith)
        requires
            num == (-h - sq) * SCALE,
            -h - sq <= 0;
    lemma_tdiv_nonneg(mag(num), a);
    if num < 0 {
        lemma_tdiv_neg(mag(num), a);
    }
}

/// A scene none of whose members selects a root reports no hit: the
/// aggregate query returns nothing when the sequence is empty or no member
/// intersects the search window.
pub proof fn lemma_scene_miss_all(objs: Seq<Sphere>, r: Ray, t_min: int, t_max: int)
    requires
        forall|i: int|
            0 <= i < objs.len() ==> sph_chosen(#[trigger] objs[i], r, t_min, t_max) is None,
    ensures
        list_fold(objs, r, t_min, t_max) is None,
    decreases objs.len(),
{
    if objs.len() > 0 {
        assert forall|i: int|
            0 <= i < objs.drop_last().len() implies sph_chosen(
            #[trigger] objs.drop_last()[i],
            r,
            t_min,
            t_max,
        ) is None by {
            assert(objs.drop_last()[i] == objs[i]);
        }
        lemma_scene_miss_all(objs.drop_last(), r, t_min, t_max);
        assert(objs.last() == objs[objs.len() - 1]);
    }
}

/// The square root of a product dominates the product of the square roots.
proof fn lemma_isqrt_mul_lower(m: int, n: int)
    requires
        m >= 0,
        n >= 0,
    ensures
        isqrt(m) * isqrt(n) <= isqrt(m * n),
{
    let a = isqrt(m);
    let b = isqrt(n);
    lemma_isqrt_bounds(m);
    lemma_isqrt_bounds(n);
    assert(0 <= a * b && (a * b) * (a * b) <= m * n) by (nonlinear_arith)
        requires
            0 <= a,
            0 <= b,
            a * a <= m,
            b * b <= n;
    assert(m * n >= 0) by (nonlinear_arith)
        requires
            m >= 0,
            n >= 0;
    lemma_isqrt_above(a * b, m * n);
}

/// Whatever is smaller than a square stays below its root's successor.
proof fn lemma_isqrt_below(n: int, b: int)
    requires
        0 <= n,
        0 <= b,
        n < b * b,
    ensures
        isqrt(n) < b,
{
    lemma_isqrt_bounds(n);
    if isqrt(n) >= b {
        assert(b * b <= isqrt(n) * isqrt(n)) by (nonlinear_arith)
            requires
                0 <= b <= isqrt(n);
    }
}

/// Truncating division by a positive divisor keeps the numerator's sign.
proof fn lemma_tdiv_keeps_sign(n: int, d: int)
    requires
        d > 0,
    ensures
        n >= 0 ==> tdiv(n, d) >= 0,
        n <= 0 ==> tdiv(n, d) <= 0,
{
    lemma_tdiv_nonneg(mag(n), d);
    if n < 0 {
        lemma_tdiv_neg(mag(n), d);
    }
}

/// Magnitudes square to the same value as the integers they measure.
proof fn lemma_mag_sq(x: int)
    ensures
        mag(x) * mag(x) == x * x,
{
    if x < 0 {
        assert((-x) * (-x) == x * x) by (nonlinear_arith);
    }
}

/// A product against a bounded error term costs at most the bound times the
/// other factor's magnitude, in either direction.
proof fn lemma_err_product(d: int, delta: int, bound: int)
    requires
        mag(delta) <= bound,
    ensures
        -(mag(d) * bound) <= d * delta <= mag(d) * bound,
{
    crate::fixed::lemma_mul_mag(d, delta, mag(d), bound);
}

/// A ray fired from strictly inside a sphere, deep enough that the depth
/// margin dominates the grid error, meets the surface from behind: at the far
/// root the inner product of the direction with the outward normal is
/// strictly positive, so the hit is a back face. The margin asks that the
/// scaled depth `SCALE * isqrt(radius^2 - |oc|^2)` exceed the direction's raw
/// length plus a few units and radii — a few ten-thousandths of a world unit
/// for unit directions and unit spheres.
pub proof fn lemma_inside_ray_back_face(s: Sphere, r: Ray, t: int, p: Vec3)
    requires
        sph_a(s, r) >= 1,
        s.radius > 0,
        sph_c(s, r) < 0,
        t == sph_root2(s, r),
        1 <= t,
        p.x == ray_at(r.origin.x as int, r.direction.x as int, t),
        p.y == ray_at(r.origin.y as int, r.direction.y as int, t),
        p.z == ray_at(r.origin.z as int, r.direction.z as int, t),
        !(p.x == s.center.x && p.y == s.center.y && p.z == s.center.z),
        (SCALE as int) * isqrt(s.radius * s.radius - sph_oc2(s, r)) > isqrt(sph_a(s, r)) + 3
            * (SCALE as int) + 78 * s.radius + 3,
    ensures
        sph_face_dot(s, r, p) > 0,
{
    let sc = SCALE as int;
    let a = sph_a(s, r);
    let h = sph_half_b(s, r);
    let q = sph_oc2(s, r);
    let rx = s.radius as int;
    let rr = rx * rx;
    let disc = sph_disc(s, r);
    let sq = isqrt(disc);
    let la = isqrt(a);
    let g = isqrt(rr - q);
    let dx = r.direction.x as int;
    let dy = r.direction.y as int;
    let dz = r.direction.z as int;
    let ocx = r.origin.x - s.center.x;
    let ocy = r.origin.y - s.center.y;
    let ocz = r.origin.z - s.center.z;
    // basic shapes of the quadratic data
    lemma_isqrt_bounds(a);
    lemma_isqrt_above(1, a);
    assert(dx * dx >= 0 && dy * dy >= 0 && dz * dz >= 0) by (nonlinear_arith);
    assert(ocx * ocx >= 0 && ocy * ocy >= 0 && ocz * ocz >= 0) by (nonlinear_arith);
    assert(a * (q - rr) == a * q - a * rr) by (nonlinear_arith);
    assert(a * (rr - q) == a * rr - a * q) by (nonlinear_arith);
    assert(h * h >= 0) by (nonlinear_arith);
    assert(a * q >= 0 && a * (rr - q) >= a) by (nonlinear_arith)
        requires
            a >= 1,
            q >= 0,
            rr - q >= 1;
    assert(disc >= a * (rr - q) && disc >= h * h + 1 && disc <= h * h + a * rr);
    // component magnitudes against the lengths
    lemma_mag_sq(dx);
    lemma_mag_sq(dy);
    lemma_mag_sq(dz);
    lemma_isqrt_above(mag(dx), a);
    lemma_isqrt_above(mag(dy), a);
    lemma_isqrt_above(mag(dz), a);
    lemma_mag_sq(ocx);
    lemma_mag_sq(ocy);
    lemma_mag_sq(ocz);
    lemma_isqrt_above(mag(ocx), q);
    lemma_isqrt_above(mag(ocy), q);
    lemma_isqrt_above(mag(ocz), q);
    lemma_isqrt_below(q, rx);
    let rq = isqrt(q);
    assert(rq < rx);
    // the half coefficient is at most three radius-scaled lengths
    crate::fixed::lemma_mul_mag(dx, ocx, la, rq);
    crate::fixed::lemma_mul_mag(dy, ocy, la, rq);
    crate::fixed::lemma_mul_mag(dz, ocz, la, rq);
    assert(la * rq <= la * rx) by (nonlinear_arith)
        requires
            la >= 0,
            rq <= rx;
    assert(mag(h) <= 3 * (la * rx));
    // the root of the discriminant sits between la * g and 4 (la + 1) * radius
    lemma_mag_sq(h);
    assert(h * h <= (3 * (la * rx)) * (3 * (la * rx))) by (nonlinear_arith)
        requires
            mag(h) <= 3 * (la * rx),
            mag(h) * mag(h) == h * h;
    assert(a * rr <= ((la + 1) * rx) * ((la + 1) * rx)) by (nonlinear_arith)
        requires
            a < (la + 1) * (la + 1),
            rr == rx * rx,
            rx > 0;
    assert(disc < (4 * ((la + 1) * rx)) * (4 * ((la + 1) * rx))) by (nonlinear_arith)
        requires
            disc <= h * h + a * rr,
            h * h <= (3 * (la * rx)) * (3 * (la * rx)),
            a * rr <= ((la + 1) * rx) * ((la + 1) * rx),
            la >= 1,
            rx > 0;
    lemma_isqrt_below(disc, 4 * ((la + 1) * rx));
    lemma_isqrt_bounds(rr - q);
    lemma_isqrt_bounds(disc);
    lemma_isqrt_mul_lower(a, rr - q);
    assert(isqrt(a * (rr - q)) <= sq) by {
        lemma_isqrt_bounds(a * (rr - q));
        lemma_isqrt_above(isqrt(a * (rr - q)), disc);
    }
    assert(la * g <= sq);
    // the far root against its defining quotient
    lemma_isqrt_above(mag(h), disc);
    let n2s = (-h + sq) * sc;
    assert(n2s >= 0) by (nonlinear_arith)
        requires
            -h + sq >= 0,
            n2s == (-h + sq) * sc,
            sc > 0;
    lemma_tdiv_nonneg(n2s, a);
    lemma_fundamental_div_mod(n2s, a);
    lemma_mod_division_less_than_divisor(n2s, a);
    assert(a * t <= n2s && a * t > n2s - a);
    assert(n2s <= (3 * (la * rx) + 4 * ((la + 1) * rx)) * sc) by (nonlinear_arith)
        requires
            n2s == (-h + sq) * sc,
            -h <= mag(h),
            mag(h) <= 3 * (la * rx),
            sq <= 4 * ((la + 1) * rx),
            sc > 0;
    assert(a * t <= (7 * ((la + 1) * rx)) * sc) by (nonlinear_arith)
        requires
            a * t <= n2s,
            n2s <= (3 * (la * rx) + 4 * ((la + 1) * rx)) * sc,
            la >= 1,
            rx > 0,
            sc > 0;
    // each hit-point offset component: origin offset plus a truncated step
    let wx = tdiv(dx * t, sc);
    let wy = tdiv(dy * t, sc);
    let wz = tdiv(dz * t, sc);
    assert(p.x - s.center.x == ocx + wx && p.y - s.center.y == ocy + wy && p.z - s.center.z == ocz
        + wz);
    lemma_tdiv_mag(dx * t, sc);
    lemma_tdiv_mag(dy * t, sc);
    lemma_tdiv_mag(dz * t, sc);
    assert(mag(dx * t) == mag(dx) * t && mag(dy * t) == mag(dy) * t && mag(dz * t) == mag(dz) * t)
        by (nonlinear_arith)
        requires
            t >= 1;
    lemma_fundamental_div_mod(mag(dx * t), sc);
    lemma_fundamental_div_mod(mag(dy * t), sc);
    lemma_fundamental_div_mod(mag(dz * t), sc);
    lemma_mod_division_less_than_divisor(mag(dx * t), sc);
    lemma_mod_division_less_than_divisor(mag(dy * t), sc);
    lemma_mod_division_less_than_divisor(mag(dz * t), sc);
    lemma_step_bound(mag(dx), la, a, t, rx, sc, mag(wx));
    lemma_step_bound(mag(dy), la, a, t, rx, sc, mag(wy));
    lemma_step_bound(mag(dz), la, a, t, rx, sc, mag(wz));
    // the hit point stays within a few radii of the center
    let off2 = sph_off2(s, p);
    assert(off2 == (ocx + wx) * (ocx + wx) + (ocy + wy) * (ocy + wy) + (ocz + wz) * (ocz + wz));
    assert((ocx + wx) * (ocx + wx) <= (15 * rx) * (15 * rx)) by (nonlinear_arith)
        requires
            mag(ocx + wx) <= 15 * rx;
    assert((ocy + wy) * (ocy + wy) <= (15 * rx) * (15 * rx)) by (nonlinear_arith)
        requires
            mag(ocy + wy) <= 15 * rx;
    assert((ocz + wz) * (ocz + wz) <= (15 * rx) * (15 * rx)) by (nonlinear_arith)
        requires
            mag(ocz + wz) <= 15 * rx;
    assert(off2 < (26 * rx) * (26 * rx)) by (nonlinear_arith)
        requires
            off2 <= 3 * ((15 * rx) * (15 * rx)),
            rx > 0;
    if p.x != s.center.x {
        assert((p.x - s.center.x) * (p.x - s.center.x) >= 1) by (nonlinear_arith)
            requires
                p.x != s.center.x;
    } else if p.y != s.center.y {
        assert((p.y - s.center.y) * (p.y - s.center.y) >= 1) by (nonlinear_arith)
            requires
                p.y != s.center.y;
    } else {
        assert((p.z - s.center.z) * (p.z - s.center.z) >= 1) by (nonlinear_arith)
            requires
                p.z != s.center.z;
    }
    assert((p.x - s.center.x) * (p.x - s.center.x) >= 0 && (p.y - s.center.y) * (p.y - s.center.y)
        >= 0 && (p.z - s.center.z) * (p.z - s.center.z) >= 0) by (nonlinear_arith);
    lemma_isqrt_above(1, off2);
    lemma_isqrt_below(off2, 26 * rx);
    let el = isqrt(off2);
    assert(1 <= el && el < 26 * rx);
    // the raw face value: the direction against the offsets
    crate::fixed::lemma_tdiv_remainder(dx * t, sc);
    crate::fixed::lemma_tdiv_remainder(dy * t, sc);
    crate::fixed::lemma_tdiv_remainder(dz * t, sc);
    lemma_err_product(dx, dx * t - sc * wx, sc);
    lemma_err_product(dy, dy * t - sc * wy, sc);
    lemma_err_product(dz, dz * t - sc * wz, sc);
    let f0 = dx * (ocx + wx) + dy * (ocy + wy) + dz * (ocz + wz);
    assert(sc * (dx * (ocx + wx)) - sc * (dx * ocx) - dx * dx * t >= -(la * sc))
        by (nonlinear_arith)
        requires
            dx * (dx * t - sc * wx) <= mag(dx) * sc,
            mag(dx) <= la,
            sc > 0;
    assert(sc * (dy * (ocy + wy)) - sc * (dy * ocy) - dy * dy * t >= -(la * sc))
        by (nonlinear_arith)
        requires
            dy * (dy * t - sc * wy) <= mag(dy) * sc,
            mag(dy) <= la,
            sc > 0;
    assert(sc * (dz * (ocz + wz)) - sc * (dz * ocz) - dz * dz * t >= -(la * sc))
        by (nonlinear_arith)
        requires
            dz * (dz * t - sc * wz) <= mag(dz) * sc,
            mag(dz) <= la,
            sc > 0;
    assert(a * t == dx * dx * t + dy * dy * t + dz * dz * t) by (nonlinear_arith)
        requires
            a == dx * dx + dy * dy + dz * dz;
    assert(sc * f0 >= sc * h + a * t - 3 * (la * sc));
    assert(sc * f0 > sc * sq - a - 3 * (la * sc)) by (nonlinear_arith)
        requires
            sc * f0 >= sc * h + a * t - 3 * (la * sc),
            a * t > n2s - a,
            n2s == (-h + sq) * sc,
            sc > 0;
    // the truncated outward normal keeps most of it
    crate::fixed::lemma_tdiv_remainder((p.x - s.center.x) * sc, el);
    crate::fixed::lemma_tdiv_remainder((p.y - s.center.y) * sc, el);
    crate::fixed::lemma_tdiv_remainder((p.z - s.center.z) * sc, el);
    lemma_err_product(dx, el * sph_outward_x(s, p) - (p.x - s.center.x) * sc, el);
    lemma_err_product(dy, el * sph_outward_y(s, p) - (p.y - s.center.y) * sc, el);
    lemma_err_product(dz, el * sph_outward_z(s, p) - (p.z - s.center.z) * sc, el);
    let face = sph_face_dot(s, r, p);
    assert(dx * (el * sph_outward_x(s, p)) - sc * (dx * (p.x - s.center.x)) >= -(la * el))
        by (nonlinear_arith)
        requires
            dx * (el * sph_outward_x(s, p) - (p.x - s.center.x) * sc) >= -(mag(dx) * el),
            mag(dx) <= la,
            el >= 1;
    assert(dy * (el * sph_outward_y(s, p)) - sc * (dy * (p.y - s.center.y)) >= -(la * el))
        by (nonlinear_arith)
        requires
            dy * (el * sph_outward_y(s, p) - (p.y - s.center.y) * sc) >= -(mag(dy) * el),
            mag(dy) <= la,
            el >= 1;
    assert(dz * (el * sph_outward_z(s, p)) - sc * (dz * (p.z - s.center.z)) >= -(la * el))
        by (nonlinear_arith)
        requires
            dz * (el * sph_outward_z(s, p) - (p.z - s.center.z) * sc) >= -(mag(dz) * el),
            mag(dz) <= la,
            el >= 1;
    let ox = sph_outward_x(s, p);
    let oy = sph_outward_y(s, p);
    let oz = sph_outward_z(s, p);
    lemma_mul_is_distributive_add(el, dx * ox + dy * oy, dz * oz);
    lemma_mul_is_distributive_add(el, dx * ox, dy * oy);
    assert(el * (dx * ox) == dx * (el * ox)) by (nonlinear_arith);
    assert(el * (dy * oy) == dy * (el * oy)) by (nonlinear_arith);
    assert(el * (dz * oz) == dz * (el * oz)) by (nonlinear_arith);
    assert(el * face == dx * (el * ox) + dy * (el * oy) + dz * (el * oz));
    assert(el * face >= sc * f0 - 3 * (la * el));
    // assemble: the depth margin beats every error term
    assert(sc * sq - a - 3 * (la * sc) - 3 * (la * el) > 0) by (nonlinear_arith)
        requires
            sq >= la * g,
            a < (la + 1) * (la + 1),
            el < 26 * rx,
            sc * g > la + 3 * sc + 78 * rx + 3,
            la >= 1,
            rx > 0,
            sc > 0;
    assert(el * face > 0);
    assert(face > 0) by (nonlinear_arith)
        requires
            el * face > 0,
            el >= 1;
}

/// One truncated parameter step of the hit point stays within a bounded
/// number of radii: `|tdiv(d t, SCALE)| <= 14 radius` for any direction
/// component `d` of magnitude at most the direction's length.
proof fn lemma_step_bound(md: int, la: int, a: int, t: int, rx: int, sc: int, mw: int)
    requires
        0 <= md <= la,
        1 <= la,
        la * la <= a,
        1 <= t,
        rx > 0,
        sc > 0,
        a * t <= (7 * ((la + 1) * rx)) * sc,
        mw * sc <= md * t,
        mw >= 0,
    ensures
        mw <= 14 * rx,
{
    assert(mw * (la * sc) <= (la * la) * t) by (nonlinear_arith)
        requires
            mw * sc <= md * t,
            0 <= md <= la,
            mw >= 0,
            t >= 1,
            sc > 0,
            la >= 1;
    assert((la * la) * t <= (7 * ((la + 1) * rx)) * sc) by (nonlinear_arith)
        requires
            la * la <= a,
            a * t <= (7 * ((la + 1) * rx)) * sc,
            t >= 1;
    assert(mw * la <= 7 * ((la + 1) * rx)) by (nonlinear_arith)
        requires
            mw * (la * sc) <= (7 * ((la + 1) * rx)) * sc,
            sc > 0,
            mw >= 0,
            la >= 1,
            rx > 0;
    assert(mw <= 14 * rx) by (nonlinear_arith)
        requires
            mw * la <= 7 * ((la + 1) * rx),
            la >= 1,
            rx > 0,
            mw >= 0;
}

/// A ray fired from the exact center of a sphere meets the surface from
/// behind: every component of the hit offset keeps the sign of the matching
/// direction component through both truncations, so the face dot cannot be
/// negative and the hit is a back face.
pub proof fn lemma_center_ray_back_face(s: Sphere, r: Ray, t: int, p: Vec3)
    requires
        r.origin.x == s.center.x,
        r.origin.y == s.center.y,
        r.origin.z == s.center.z,
        t > 0,
        p.x == ray_at(r.origin.x as int, r.direction.x as int, t),
        p.y == ray_at(r.origin.y as int, r.direction.y as int, t),
        p.z == ray_at(r.origin.z as int, r.direction.z as int, t),
        !(p.x == s.center.x && p.y == s.center.y && p.z == s.center.z),
    ensures
        sph_face_dot(s, r, p) >= 0,
{
    let wx = p.x - s.center.x;
    let wy = p.y - s.center.y;
    let wz = p.z - s.center.z;
    let off2 = sph_off2(s, p);
    if wx != 0 {
        assert(wx * wx >= 1) by (nonlinear_arith)
            requires
                wx != 0;
    } else if wy != 0 {
        assert(wy * wy >= 1) by (nonlinear_arith)
            requires
                wy != 0;
    } else {
        assert(wz * wz >= 1) by (nonlinear_arith)
            requires
                wz != 0;
    }
    assert(wx * wx >= 0 && wy * wy >= 0 && wz * wz >= 0) by (nonlinear_arith);
    lemma_isqrt_above(1, off2);
    let el = isqrt(off2);
    // each offset component carries the sign of its direction component
    lemma_tdiv_keeps_sign(r.direction.x * t, SCALE as int);
    lemma_tdiv_keeps_sign(r.direction.y * t, SCALE as int);
    lemma_tdiv_keeps_sign(r.direction.z * t, SCALE as int);
    assert((r.direction.x >= 0 ==> r.direction.x * t >= 0) && (r.direction.x <= 0
        ==> r.direction.x * t <= 0)) by (nonlinear_arith)
        requires
            t > 0;
    assert((r.direction.y >= 0 ==> r.direction.y * t >= 0) && (r.direction.y <= 0
        ==> r.direction.y * t <= 0)) by (nonlinear_arith)
        requires
            t > 0;
    assert((r.direction.z >= 0 ==> r.direction.z * t >= 0) && (r.direction.z <= 0
        ==> r.direction.z * t <= 0)) by (nonlinear_arith)
        requires
            t > 0;
    // and so does the normalized outward component
    lemma_tdiv_keeps_sign(wx * SCALE, el);
    lemma_tdiv_keeps_sign(wy * SCALE, el);
    lemma_tdiv_keeps_sign(wz * SCALE, el);
    assert(r.direction.x * sph_outward_x(s, p) >= 0) by (nonlinear_arith)
        requires
            (r.direction.x >= 0 && sph_outward_x(s, p) >= 0) || (r.direction.x <= 0
                && sph_outward_x(s, p) <= 0);
    assert(r.direction.y * sph_outward_y(s, p) >= 0) by (nonlinear_arith)
        requires
            (r.direction.y >= 0 && sph_outward_y(s, p) >= 0) || (r.direction.y <= 0
                && sph_outward_y(s, p) <= 0);
    assert(r.direction.z * sph_outward_z(s, p) >= 0) by (nonlinear_arith)
        requires
            (r.direction.z >= 0 && sph_outward_z(s, p) >= 0) || (r.direction.z <= 0
                && sph_outward_z(s, p) <= 0);
}

/// A dielectric whose index matches the surrounding medium, met head on:
/// refraction is always possible and the Schlick reflectance is exactly zero
/// (`r0` vanishes and so does `(1 - cos)^5`), so the scatter contract forces
/// refraction — the ray passes straight through. Away from normal incidence
/// the `(1 - cos)^5` term is not identically zero even at matched indices: a
/// known boundary of the approximation, not a defect.
pub proof fn lemma_matched_index_head_on(u: Vec3, n: Vec3, ri: int)
    requires
        ri > 0,
        refract_cos(unit_x(u), unit_y(u), unit_z(u), n.x as int, n.y as int, n.z as int)
            == SCALE as int,
    ensures
        !cannot_refract(u, n, ri, ri),
        refract_ratio(ri, ri) == SCALE as int,
        schlick(SCALE as int, refract_ratio(ri, ri)) == 0,
{
    lemma_tdiv_exact(SCALE as int, ri);
    let s = SCALE as int;
    let ratio = refract_ratio(ri, ri);
    assert(ratio == s);
    lemma_tdiv_exact(s, s);
    lemma_tdiv_nonneg(0, s);
    lemma_tdiv_nonneg(0, s + ratio);
    assert((s - ratio) * s == 0) by (nonlinear_arith)
        requires
            ratio == s;
    let r0a = tdiv((s - ratio) * s, s + ratio);
    assert(r0a == 0);
    assert(r0a * r0a == 0) by (nonlinear_arith)
        requires
            r0a == 0;
    let r0 = tdiv(r0a * r0a, s);
    assert(r0 == 0);
    let p = s - s;
    assert(p * p == 0) by (nonlinear_arith)
        requires
            p == 0;
    let p2 = tdiv(p * p, s);
    assert(p2 == 0);
    let p4 = tdiv(p2 * p2, s);
    assert(p2 * p2 == 0) by (nonlinear_arith)
        requires
            p2 == 0;
    assert(p4 == 0);
    let p5 = tdiv(p4 * p, s);
    assert(p4 * p == 0) by (nonlinear_arith)
        requires
            p4 == 0;
    assert(p5 == 0);
    assert((s - r0) * p5 == 0) by (nonlinear_arith)
        requires
            p5 == 0;
    assert(schlick(s, ratio) == r0 + tdiv((s - r0) * p5, s));
    // the total-internal-reflection test: cosine one means sine zero
    let cos = refract_cos(unit_x(u), unit_y(u), unit_z(u), n.x as int, n.y as int, n.z as int);
    assert(cos * cos == s * s) by (nonlinear_arith)
        requires
            cos == s;
    assert(tdiv(cos * cos, s) == s);
    assert((s - tdiv(cos * cos, s)) * s == 0) by (nonlinear_arith)
        requires
            tdiv(cos * cos, s) == s;
    assert(isqrt(0) == 0);
    assert(ratio * isqrt(0) == 0) by (nonlinear_arith)
        requires
            isqrt(0) == 0;
}

/// The background gradient's endpoints: a ray pointing straight up yields
/// pure sky blue, one pointing straight down yields pure white.
pub proof fn lemma_background_endpoints()
    ensures
        bg_x(Vec3 { x: 0, y: SCALE, z: 0 }) == SKY_R,
        bg_y(Vec3 { x: 0, y: SCALE, z: 0 }) == SKY_G,
        bg_z(Vec3 { x: 0, y: SCALE, z: 0 }) == SKY_B,
        bg_x(Vec3 { x: 0, y: -65536i128, z: 0 }) == SCALE,
        bg_y(Vec3 { x: 0, y: -65536i128, z: 0 }) == SCALE,
        bg_z(Vec3 { x: 0, y: -65536i128, z: 0 }) == SCALE,
{
    let s = SCALE as int;
    let up = Vec3 { x: 0, y: SCALE, z: 0 };
    let down = Vec3 { x: 0, y: -65536i128, z: 0 };
    assert(dot3(up, up) == s * s);
    assert(dot3(down, down) == s * s);
    lemma_isqrt_unique(s * s, s);
    // unit y of the two directions
    lemma_tdiv_exact(s, s);
    lemma_tdiv_neg(s * s, s);
    assert(tdiv(up.y * SCALE, isqrt(dot3(up, up))) == s);
    assert(down.y * SCALE == -(s * s));
    assert(tdiv(down.y * SCALE, isqrt(dot3(down, down))) == -s);
    // gradient parameter: one unit up, zero down
    lemma_tdiv_exact(s, s);
    assert((s + s) * (crate::tracer::HALF as int) == s * s);
    assert(bg_t(up) == tdiv(s * s, s));
    assert(bg_t(up) == s);
    assert((-s + s) * (crate::tracer::HALF as int) == 0);
    lemma_tdiv_nonneg(0, s);
    assert(bg_t(down) == 0);
    // endpoint colors
    lemma_tdiv_nonneg(0, s);
    lemma_tdiv_exact(SKY_R as int, s);
    lemma_tdiv_exact(SKY_G as int, s);
    lemma_tdiv_exact(SKY_B as int, s);
    assert(s * (s - bg_t(up)) == 0);
    assert((SKY_R as int) * bg_t(up) == (SKY_R as int) * s);
    assert((SKY_G as int) * bg_t(up) == (SKY_G as int) * s);
    assert((SKY_B as int) * bg_t(up) == (SKY_B as int) * s);
    lemma_tdiv_exact(s, s);
    assert(s * (s - bg_t(down)) == s * s);
    assert((SKY_R as int) * bg_t(down) == 0);
}

/// A ray aimed straight at the center of a sphere from strictly outside: the
/// discriminant collapses to `a * radius^2` exactly, the near root is the one
/// accepted, and the square root of the discriminant pins the hit to the
/// distance `|origin - center| - radius` within one grid step of the radius.
pub proof fn lemma_sphere_aimed_at_center(s: Sphere, r: Ray, t_min: int, t_max: int)
    requires
        r.direction.x == s.center.x - r.origin.x,
        r.direction.y == s.center.y - r.origin.y,
        r.direction.z == s.center.z - r.origin.z,
        sph_a(s, r) > 0,
        s.radius > 0,
        sph_c(s, r) > 0,
        t_min <= sph_root1(s, r) <= t_max,
    ensures
        sph_disc(s, r) == sph_a(s, r) * (s.radius * s.radius),
        sph_chosen(s, r, t_min, t_max) == Option::Some(sph_root1(s, r)),
        isqrt(sph_a(s, r)) * s.radius <= isqrt(sph_disc(s, r)) <= (isqrt(sph_a(s, r)) + 1)
            * s.radius,
        mag((sph_a(s, r) - isqrt(sph_disc(s, r))) * SCALE - sph_a(s, r) * sph_root1(s, r))
            < sph_a(s, r),
{
    let a = sph_a(s, r);
    let h = sph_half_b(s, r);
    let q = sph_oc2(s, r);
    let rr = s.radius * s.radius;
    // origin - center is exactly the negated direction
    assert(h == -a && q == a) by (nonlinear_arith)
        requires
            r.origin.x - s.center.x == -r.direction.x,
            r.origin.y - s.center.y == -r.direction.y,
            r.origin.z - s.center.z == -r.direction.z,
            h == r.direction.x * (r.origin.x - s.center.x) + r.direction.y * (r.origin.y
                - s.center.y) + r.direction.z * (r.origin.z - s.center.z),
            q == (r.origin.x - s.center.x) * (r.origin.x - s.center.x) + (r.origin.y - s.center.y)
                * (r.origin.y - s.center.y) + (r.origin.z - s.center.z) * (r.origin.z - s.center.z),
            a == dot3(r.direction, r.direction),
            dot3(r.direction, r.direction) == r.direction.x * r.direction.x + r.direction.y
                * r.direction.y + r.direction.z * r.direction.z;
    assert(sph_c(s, r) == q - rr);
    assert(sph_disc(s, r) == h * h - a * (q - rr));
    assert(h * h - a * (q - rr) == a * rr) by (nonlinear_arith)
        requires
            h == -a,
            q == a;
    // bracket the square root of a * radius^2 by |oc| * radius
    let el = isqrt(a);
    lemma_isqrt_bounds(a);
    assert(a * rr >= 0) by (nonlinear_arith)
        requires
            a > 0,
            s.radius > 0,
            rr == s.radius * s.radius;
    assert((el * s.radius) * (el * s.radius) <= a * rr) by (nonlinear_arith)
        requires
            el * el <= a,
            el >= 0,
            s.radius > 0,
            rr == s.radius * s.radius;
    assert(el * s.radius >= 0) by (nonlinear_arith)
        requires
            el >= 0,
            s.radius > 0;
    lemma_isqrt_above(el * s.radius, a * rr);
    let ub = (el + 1) * s.radius;
    assert(ub >= 0) by (nonlinear_arith)
        requires
            el >= 0,
            s.radius > 0,
            ub == (el + 1) * s.radius;
    assert(a * rr < ub * ub) by (nonlinear_arith)
        requires
            a < (el + 1) * (el + 1),
            s.radius > 0,
            rr == s.radius * s.radius,
            ub == (el + 1) * s.radius;
    lemma_isqrt_bounds(a * rr);
    if isqrt(a * rr) > ub {
        assert((ub + 1) * (ub + 1) <= isqrt(a * rr) * isqrt(a * rr)) by (nonlinear_arith)
            requires
                0 <= ub + 1 <= isqrt(a * rr);
        assert(ub * ub <= (ub + 1) * (ub + 1)) by (nonlinear_arith)
            requires
                ub >= 0;
    }
    // the accepted root reproduces (a - sqrt(disc)) * SCALE / a to within one
    // divisor step: distance |origin - center| - radius in parameter measure
    crate::fixed::lemma_tdiv_remainder((a - isqrt(sph_disc(s, r))) * SCALE, a);
}

} // verus!

