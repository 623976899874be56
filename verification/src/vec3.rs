//! Three-component fixed-point vectors, used interchangeably as spatial
//! points, directions and RGB colors.
//!
//! Every operation states its result exactly over the integer model: sums and
//! differences are exact, products and quotients truncate toward zero through
//! `tdiv`, and lengths go through the floor square root `isqrt`.

use crate::fixed::{
    div_trunc, fx_div, int_sqrt, isqrt, lemma_isqrt_above, lemma_mul_mag, lemma_square_bounds,
    lemma_tdiv_exact, lemma_tdiv_mono, lemma_tdiv_mono_denom, lemma_tdiv_neg, lemma_tdiv_nonneg,
    mag, tdiv, SCALE,
};
use crate::rng::sample_range;
use vstd::prelude::*;

verus! {

/// Largest component magnitude (raw units) the general vector operations
/// accept; keeps every product of two components inside `i128`.
pub const VEC_LIMIT: i128 = 0x1000_0000_0000_0000;

/// Retry budget of the rejection samplers. The chance that a uniform draw
/// misses the unit ball this many times in a row is vanishingly small; a
/// fixed interior point stands in when it happens, so the samplers always
/// terminate.
const SAMPLE_TRIES: u8 = 64;

/// Smallest accepted squared norm of a ball sample that is normalized: a
/// quarter unit of length, squared.
const MIN_SAMPLE_NORM: i128 = 0x1000_0000;

#[derive(Clone, Copy, Debug, PartialEq, Eq, Structural)]
pub struct Vec3 {
    pub x: i128,
    pub y: i128,
    pub z: i128,
}

pub type Point3 = Vec3;

pub type Color = Vec3;

/// Raw inner product, before any rescaling: exact, in squared raw units.
pub open spec fn dot3(a: Vec3, b: Vec3) -> int {
    a.x * b.x + a.y * b.y + a.z * b.z
}

/// Components of the normalized vector, as `unit_vector` computes them.
pub open spec fn unit_x(v: Vec3) -> int {
    tdiv(v.x * SCALE, isqrt(dot3(v, v)))
}

pub open spec fn unit_y(v: Vec3) -> int {
    tdiv(v.y * SCALE, isqrt(dot3(v, v)))
}

pub open spec fn unit_z(v: Vec3) -> int {
    tdiv(v.z * SCALE, isqrt(dot3(v, v)))
}

impl Vec3 {
    /// All three components bounded in magnitude by `b` raw units.
    pub open spec fn bounded(self, b: int) -> bool {
        mag(self.x as int) <= b && mag(self.y as int) <= b && mag(self.z as int) <= b
    }

    pub open spec fn is_zero(self) -> bool {
        self.x == 0 && self.y == 0 && self.z == 0
    }

    pub fn zero() -> (r: Vec3)
        ensures
            r == (Vec3 { x: 0, y: 0, z: 0 }),
    {
        Vec3 { x: 0, y: 0, z: 0 }
    }

    pub fn new(x: i128, y: i128, z: i128) -> (r: Vec3)
        ensures
            r == (Vec3 { x: x, y: y, z: z }),
    {
        Vec3 { x, y, z }
    }

    pub fn x(&self) -> (r: i128)
        ensures
            r == self.x,
    {
        self.x
    }

    pub fn y(&self) -> (r: i128)
        ensures
            r == self.y,
    {
        self.y
    }

    pub fn z(&self) -> (r: i128)
        ensures
            r == self.z,
    {
        self.z
    }

    /// Squared length in scale units: `dot3(v, v) / SCALE`, truncated.
    pub fn length_squared(&self) -> (r: i128)
        requires
            self.bounded(VEC_LIMIT as int),
        ensures
            r as int == tdiv(dot3(*self, *self), SCALE as int),
            r >= 0,
    {
        proof {
            lemma_square_bounds(self.x as int, VEC_LIMIT as int);
            lemma_square_bounds(self.y as int, VEC_LIMIT as int);
            lemma_square_bounds(self.z as int, VEC_LIMIT as int);
            lemma_tdiv_nonneg(dot3(*self, *self), SCALE as int);
        }
        let s: i128 = self.x * self.x + self.y * self.y + self.z * self.z;
        div_trunc(s, SCALE)
    }

    /// Length in raw units: the floor square root of the raw inner product.
    pub fn length(&self) -> (r: i128)
        requires
            self.bounded(VEC_LIMIT as int),
        ensures
            r as int == isqrt(dot3(*self, *self)),
            r >= 0,
    {
        proof {
            lemma_square_bounds(self.x as int, VEC_LIMIT as int);
            lemma_square_bounds(self.y as int, VEC_LIMIT as int);
            lemma_square_bounds(self.z as int, VEC_LIMIT as int);
        }
        let s: i128 = self.x * self.x + self.y * self.y + self.z * self.z;
        int_sqrt(s)
    }

    /// Inner product in scale units: `dot3(a, b) / SCALE`, truncated.
    pub fn dot(&self, other: &Vec3) -> (r: i128)
        requires
            self.bounded(VEC_LIMIT as int),
            other.bounded(VEC_LIMIT as int),
        ensures
            r as int == tdiv(dot3(*self, *other), SCALE as int),
    {
        proof {
            lemma_mul_mag(self.x as int, other.x as int, VEC_LIMIT as int, VEC_LIMIT as int);
            lemma_mul_mag(self.y as int, other.y as int, VEC_LIMIT as int, VEC_LIMIT as int);
            lemma_mul_mag(self.z as int, other.z as int, VEC_LIMIT as int, VEC_LIMIT as int);
        }
        let s: i128 = self.x * other.x + self.y * other.y + self.z * other.z;
        div_trunc(s, SCALE)
    }

    /// Cross product, each component truncated once.
    pub fn cross(&self, other: &Vec3) -> (r: Vec3)
        requires
            self.bounded(VEC_LIMIT as int),
            other.bounded(VEC_LIMIT as int),
        ensures
            r.x as int == tdiv(self.y * other.z - self.z * other.y, SCALE as int),
            r.y as int == tdiv(self.z * other.x - self.x * other.z, SCALE as int),
            r.z as int == tdiv(self.x * other.y - self.y * other.x, SCALE as int),
    {
        proof {
            lemma_mul_mag(self.y as int, other.z as int, VEC_LIMIT as int, VEC_LIMIT as int);
            lemma_mul_mag(self.z as int, other.y as int, VEC_LIMIT as int, VEC_LIMIT as int);
            lemma_mul_mag(self.z as int, other.x as int, VEC_LIMIT as int, VEC_LIMIT as int);
            lemma_mul_mag(self.x as int, other.z as int, VEC_LIMIT as int, VEC_LIMIT as int);
            lemma_mul_mag(self.x as int, other.y as int, VEC_LIMIT as int, VEC_LIMIT as int);
            lemma_mul_mag(self.y as int, other.x as int, VEC_LIMIT as int, VEC_LIMIT as int);
        }
        Vec3 {
            x: div_trunc(self.y * other.z - self.z * other.y, SCALE),
            y: div_trunc(self.z * other.x - self.x * other.z, SCALE),
            z: div_trunc(self.x * other.y - self.y * other.x, SCALE),
        }
    }

    pub fn add(self, other: Vec3) -> (r: Vec3)
        requires
            self.bounded(VEC_LIMIT as int),
            other.bounded(VEC_LIMIT as int),
        ensures
            r.x == self.x + other.x,
            r.y == self.y + other.y,
            r.z == self.z + other.z,
    {
        Vec3 { x: self.x + other.x, y: self.y + other.y, z: self.z + other.z }
    }

    pub fn add_assign(&mut self, other: Vec3)
        requires
            old(self).bounded(VEC_LIMIT as int),
            other.bounded(VEC_LIMIT as int),
        ensures
            final(self).x == old(self).x + other.x,
            final(self).y == old(self).y + other.y,
            final(self).z == old(self).z + other.z,
    {
        self.x = self.x + other.x;
        self.y = self.y + other.y;
        self.z = self.z + other.z;
    }

    pub fn sub(self, other: Vec3) -> (r: Vec3)
        requires
            self.bounded(VEC_LIMIT as int),
            other.bounded(VEC_LIMIT as int),
        ensures
            r.x == self.x - other.x,
            r.y == self.y - other.y,
            r.z == self.z - other.z,
    {
        Vec3 { x: self.x - other.x, y: self.y - other.y, z: self.z - other.z }
    }

    pub fn neg(self) -> (r: Vec3)
        requires
            self.bounded(VEC_LIMIT as int),
        ensures
            r.x == -self.x,
            r.y == -self.y,
            r.z == -self.z,
    {
        Vec3 { x: -self.x, y: -self.y, z: -self.z }
    }

    /// Component-wise product (used on colors), each component truncated.
    pub fn mul(self, other: Vec3) -> (r: Vec3)
        requires
            self.bounded(VEC_LIMIT as int),
            other.bounded(VEC_LIMIT as int),
        ensures
            r.x as int == tdiv(self.x * other.x, SCALE as int),
            r.y as int == tdiv(self.y * other.y, SCALE as int),
            r.z as int == tdiv(self.z * other.z, SCALE as int),
    {
        proof {
            lemma_mul_mag(self.x as int, other.x as int, VEC_LIMIT as int, VEC_LIMIT as int);
            lemma_mul_mag(self.y as int, other.y as int, VEC_LIMIT as int, VEC_LIMIT as int);
            lemma_mul_mag(self.z as int, other.z as int, VEC_LIMIT as int, VEC_LIMIT as int);
        }
        Vec3 {
            x: div_trunc(self.x * other.x, SCALE),
            y: div_trunc(self.y * other.y, SCALE),
            z: div_trunc(self.z * other.z, SCALE),
        }
    }

    pub fn mul_assign(&mut self, other: Vec3)
        requires
            old(self).bounded(VEC_LIMIT as int),
            other.bounded(VEC_LIMIT as int),
        ensures
            final(self).x as int == tdiv(old(self).x * other.x, SCALE as int),
            final(self).y as int == tdiv(old(self).y * other.y, SCALE as int),
            final(self).z as int == tdiv(old(self).z * other.z, SCALE as int),
    {
        let r = self.mul(other);
        self.x = r.x;
        self.y = r.y;
        self.z = r.z;
    }

    /// Product with a fixed-point scalar, each component truncated.
    pub fn scale(self, t: i128) -> (r: Vec3)
        requires
            self.bounded(VEC_LIMIT as int),
            mag(t as int) <= VEC_LIMIT as int,
        ensures
            r.x as int == tdiv(self.x * t, SCALE as int),
            r.y as int == tdiv(self.y * t, SCALE as int),
            r.z as int == tdiv(self.z * t, SCALE as int),
    {
        proof {
            lemma_mul_mag(self.x as int, t as int, VEC_LIMIT as int, VEC_LIMIT as int);
            lemma_mul_mag(self.y as int, t as int, VEC_LIMIT as int, VEC_LIMIT as int);
            lemma_mul_mag(self.z as int, t as int, VEC_LIMIT as int, VEC_LIMIT as int);
        }
        Vec3 {
            x: div_trunc(self.x * t, SCALE),
            y: div_trunc(self.y * t, SCALE),
            z: div_trunc(self.z * t, SCALE),
        }
    }

    pub fn scale_assign(&mut self, t: i128)
        requires
            old(self).bounded(VEC_LIMIT as int),
            mag(t as int) <= VEC_LIMIT as int,
        ensures
            final(self).x as int == tdiv(old(self).x * t, SCALE as int),
            final(self).y as int == tdiv(old(self).y * t, SCALE as int),
            final(self).z as int == tdiv(old(self).z * t, SCALE as int),
    {
        let r = self.scale(t);
        self.x = r.x;
        self.y = r.y;
        self.z = r.z;
    }

    /// Quotient by a fixed-point scalar, each component truncated.
    pub fn div(self, t: i128) -> (r: Vec3)
        requires
            self.bounded(VEC_LIMIT as int),
            t != 0,
            t > i128::MIN,
        ensures
            r.x as int == tdiv(self.x * SCALE, t as int),
            r.y as int == tdiv(self.y * SCALE, t as int),
            r.z as int == tdiv(self.z * SCALE, t as int),
    {
        proof {
            lemma_mul_mag(self.x as int, SCALE as int, VEC_LIMIT as int, SCALE as int);
            lemma_mul_mag(self.y as int, SCALE as int, VEC_LIMIT as int, SCALE as int);
            lemma_mul_mag(self.z as int, SCALE as int, VEC_LIMIT as int, SCALE as int);
        }
        Vec3 { x: fx_div(self.x, t), y: fx_div(self.y, t), z: fx_div(self.z, t) }
    }

    pub fn div_assign(&mut self, t: i128)
        requires
            old(self).bounded(VEC_LIMIT as int),
            t != 0,
            t > i128::MIN,
        ensures
            final(self).x as int == tdiv(old(self).x * SCALE, t as int),
            final(self).y as int == tdiv(old(self).y * SCALE, t as int),
            final(self).z as int == tdiv(old(self).z * SCALE, t as int),
    {
        let r = self.div(t);
        self.x = r.x;
        self.y = r.y;
        self.z = r.z;
    }

    /// Whether every component is below the degeneracy epsilon. On this grid
    /// any epsilon below one raw unit (1e-8 of a world unit amply qualifies)
    /// collapses the magnitude test to exact zero.
    pub fn is_near_zero(&self) -> (r: bool)
        ensures
            r == self.is_zero(),
    {
        self.x == 0 && self.y == 0 && self.z == 0
    }

    /// Uniform sample of the unit box `[0, 1)` in every component.
    pub fn random(rng: &mut rand::rngs::ThreadRng) -> (r: Vec3)
        ensures
            0 <= r.x < SCALE,
            0 <= r.y < SCALE,
            0 <= r.z < SCALE,
    {
        let x = sample_range(rng, 0, SCALE);
        let y = sample_range(rng, 0, SCALE);
        let z = sample_range(rng, 0, SCALE);
        Vec3 { x, y, z }
    }

    /// Uniform sample of `[min, max)` in every component.
    pub fn random_range(rng: &mut rand::rngs::ThreadRng, min: i128, max: i128) -> (r: Vec3)
        requires
            min < max,
        ensures
            min <= r.x < max,
            min <= r.y < max,
            min <= r.z < max,
    {
        let x = sample_range(rng, min, max);
        let y = sample_range(rng, min, max);
        let z = sample_range(rng, min, max);
        Vec3 { x, y, z }
    }

    /// Rejection-sample a point strictly inside the unit ball.
    pub fn random_in_unit_sphere(rng: &mut rand::rngs::ThreadRng) -> (r: Vec3)
        ensures
            dot3(r, r) < SCALE * SCALE,
            r.bounded(SCALE as int),
    {
        let mut tries: u8 = 0;
        while tries < SAMPLE_TRIES
            invariant
                tries <= SAMPLE_TRIES,
            decreases SAMPLE_TRIES - tries,
        {
            let v = Self::random_range(rng, -SCALE, SCALE);
            proof {
                lemma_square_bounds(v.x as int, SCALE as int);
                lemma_square_bounds(v.y as int, SCALE as int);
                lemma_square_bounds(v.z as int, SCALE as int);
            }
            let s: i128 = v.x * v.x + v.y * v.y + v.z * v.z;
            if s < SCALE * SCALE {
                return v;
            }
            tries = tries + 1;
        }
        Vec3 { x: 32768, y: 0, z: 0 }
    }

    /// Direction of unit length, as the normalization of a unit-ball sample.
    /// A sample shorter than a quarter unit would normalize with a large grid
    /// error (and the zero sample not at all), so short samples are rejected
    /// like out-of-ball ones; the direction of a uniform ball sample is
    /// independent of its radius, so the distribution of directions is
    /// unchanged.
    pub fn random_unit_vector(rng: &mut rand::rngs::ThreadRng) -> (r: Vec3)
        ensures
            r.bounded(SCALE as int),
            mag(r.x as int) >= SCALE / 2 || mag(r.y as int) >= SCALE / 2 || mag(r.z as int)
                >= SCALE / 2,
            !r.is_zero(),
            (SCALE as int) * (SCALE as int) - 6 * (SCALE as int) <= dot3(r, r) <= (SCALE as int)
                * (SCALE as int) + 8 * (SCALE as int),
    {
        let mut tries: u8 = 0;
        while tries < SAMPLE_TRIES
            invariant
                tries <= SAMPLE_TRIES,
            decreases SAMPLE_TRIES - tries,
        {
            let v = Self::random_range(rng, -SCALE, SCALE);
            proof {
                lemma_square_bounds(v.x as int, SCALE as int);
                lemma_square_bounds(v.y as int, SCALE as int);
                lemma_square_bounds(v.z as int, SCALE as int);
            }
            let s: i128 = v.x * v.x + v.y * v.y + v.z * v.z;
            if MIN_SAMPLE_NORM <= s && s < SCALE * SCALE {
                proof {
                    crate::laws::lemma_unit_vector_length(v);
                }
                return unit_vector(v);
            }
            tries = tries + 1;
        }
        Vec3 { x: SCALE, y: 0, z: 0 }
    }

    /// Rejection-sample a point strictly inside the unit disk of the xy plane.
    pub fn random_in_unit_disk(rng: &mut rand::rngs::ThreadRng) -> (r: Vec3)
        ensures
            dot3(r, r) < SCALE * SCALE,
            r.bounded(SCALE as int),
            r.z == 0,
    {
        let mut tries: u8 = 0;
        while tries < SAMPLE_TRIES
            invariant
                tries <= SAMPLE_TRIES,
            decreases SAMPLE_TRIES - tries,
        {
            let x = sample_range(rng, -SCALE, SCALE);
            let y = sample_range(rng, -SCALE, SCALE);
            proof {
                lemma_square_bounds(x as int, SCALE as int);
                lemma_square_bounds(y as int, SCALE as int);
            }
            let s: i128 = x * x + y * y;
            if s < SCALE * SCALE {
                return Vec3 { x, y, z: 0 };
            }
            tries = tries + 1;
        }
        Vec3 { x: 0, y: 0, z: 0 }
    }
}

/// One truncated component of a normalization never exceeds the scale.
proof fn lemma_unit_comp(xc: int, n: int, len: int)
    requires
        len == isqrt(n),
        xc * xc <= n,
        n >= 1,
        len >= 1,
    ensures
        mag(tdiv(xc * SCALE, len)) <= SCALE as int,
{
    let m = mag(xc);
    if xc < 0 {
        assert((-xc) * (-xc) == xc * xc) by (nonlinear_arith);
    }
    assert(m * m == xc * xc);
    lemma_isqrt_above(m, n);
    assert(m * SCALE <= len * SCALE);
    lemma_tdiv_mono(m * SCALE, len * SCALE, len);
    lemma_tdiv_exact(SCALE as int, len);
    assert(len * SCALE == SCALE * len);
    lemma_tdiv_nonneg(m * SCALE, len);
    if xc < 0 {
        assert(xc * SCALE == -(m * SCALE));
        lemma_tdiv_neg(m * SCALE, len);
    }
}

/// The component of largest magnitude keeps at least half the scale after
/// normalization.
proof fn lemma_unit_dominant(xc: int, n: int, len: int)
    requires
        len == isqrt(n),
        n <= 3 * (xc * xc),
        n >= 1,
    ensures
        mag(tdiv(xc * SCALE, len)) >= SCALE as int / 2,
{
    let m = mag(xc);
    if xc < 0 {
        assert((-xc) * (-xc) == xc * xc) by (nonlinear_arith);
    }
    assert(m * m == xc * xc);
    assert(m >= 1) by (nonlinear_arith)
        requires
            m >= 0,
            3 * (m * m) >= 1;
    crate::fixed::lemma_isqrt_bounds(n);
    assert(len <= 2 * m) by (nonlinear_arith)
        requires
            m >= 1,
            len >= 0,
            len * len <= 3 * (m * m);
    assert(len >= 1) by {
        lemma_isqrt_above(1, n);
    }
    lemma_tdiv_mono_denom(m * SCALE, len, 2 * m);
    lemma_tdiv_exact(SCALE as int / 2, 2 * m);
    assert((SCALE as int / 2) * (2 * m) == m * SCALE) by (nonlinear_arith);
    lemma_tdiv_nonneg(m * SCALE, len);
    if xc < 0 {
        assert(xc * SCALE == -(m * SCALE));
        lemma_tdiv_neg(m * SCALE, len);
    }
}

/// Normalize to unit length: each component becomes `v_i * SCALE / |v|` with
/// one truncation. The result is bounded by the scale and its dominant
/// component keeps at least half the scale, so it is never the zero vector.
pub fn unit_vector(v: Vec3) -> (r: Vec3)
    requires
        v.bounded(VEC_LIMIT as int),
        !v.is_zero(),
    ensures
        r.x as int == tdiv(v.x * SCALE, isqrt(dot3(v, v))),
        r.y as int == tdiv(v.y * SCALE, isqrt(dot3(v, v))),
        r.z as int == tdiv(v.z * SCALE, isqrt(dot3(v, v))),
        r.bounded(SCALE as int),
        mag(r.x as int) >= SCALE / 2 || mag(r.y as int) >= SCALE / 2 || mag(r.z as int) >= SCALE
            / 2,
        !r.is_zero(),
{
    let ghost n = dot3(v, v);
    proof {
        lemma_square_bounds(v.x as int, VEC_LIMIT as int);
        lemma_square_bounds(v.y as int, VEC_LIMIT as int);
        lemma_square_bounds(v.z as int, VEC_LIMIT as int);
        if v.x != 0 {
            assert(v.x * v.x >= 1) by (nonlinear_arith)
                requires
                    v.x != 0;
        } else if v.y != 0 {
            assert(v.y * v.y >= 1) by (nonlinear_arith)
                requires
                    v.y != 0;
        } else {
            assert(v.z * v.z >= 1) by (nonlinear_arith)
                requires
                    v.z != 0;
        }
        lemma_isqrt_above(1, n);
    }
    let len: i128 = v.length();
    let rx: i128 = fx_div(v.x, len);
    let ry: i128 = fx_div(v.y, len);
    let rz: i128 = fx_div(v.z, len);
    proof {
        lemma_unit_comp(v.x as int, n, len as int);
        lemma_unit_comp(v.y as int, n, len as int);
        lemma_unit_comp(v.z as int, n, len as int);
        if mag(v.x as int) >= mag(v.y as int) && mag(v.x as int) >= mag(v.z as int) {
            assert(n <= 3 * (v.x * v.x)) by (nonlinear_arith)
                requires
                    mag(v.y as int) <= mag(v.x as int),
                    mag(v.z as int) <= mag(v.x as int),
                    n == dot3(v, v),
                    dot3(v, v) == v.x * v.x + v.y * v.y + v.z * v.z;
            lemma_unit_dominant(v.x as int, n, len as int);
        } else if mag(v.y as int) >= mag(v.x as int) && mag(v.y as int) >= mag(v.z as int) {
            assert(n <= 3 * (v.y * v.y)) by (nonlinear_arith)
                requires
                    mag(v.x as int) <= mag(v.y as int),
                    mag(v.z as int) <= mag(v.y as int),
                    n == dot3(v, v),
                    dot3(v, v) == v.x * v.x + v.y * v.y + v.z * v.z;
            lemma_unit_dominant(v.y as int, n, len as int);
        } else {
            assert(n <= 3 * (v.z * v.z)) by (nonlinear_arith)
                requires
                    mag(v.x as int) <= mag(v.z as int),
                    mag(v.y as int) <= mag(v.z as int),
                    n == dot3(v, v),
                    dot3(v, v) == v.x * v.x + v.y * v.y + v.z * v.z;
            lemma_unit_dominant(v.z as int, n, len as int);
        }
    }
    Vec3 { x: rx, y: ry, z: rz }
}

} // verus!
