//! Rays: an origin and a direction, consumed parametrically.

use crate::fixed::{
    lemma_tdiv_exact, lemma_tdiv_mag, lemma_tdiv_mono, mag, tdiv, COORD_LIMIT, SCALE,
};
use crate::vec3::{Point3, Vec3, VEC_LIMIT};
use vstd::prelude::*;

verus! {

#[derive(Clone, Copy, Debug, PartialEq, Eq, Structural)]
pub struct Ray {
    pub origin: Point3,
    pub direction: Vec3,
}

/// The parametric point `origin + t * direction`, one component at a time:
/// the product is truncated once, the sum is exact.
pub open spec fn ray_at(o: int, d: int, t: int) -> int {
    o + tdiv(d * t, SCALE as int)
}

impl Ray {
    /// Origin and direction small enough for the intersection routines.
    pub open spec fn wf(self) -> bool {
        self.origin.bounded(COORD_LIMIT as int) && self.direction.bounded(COORD_LIMIT as int)
    }

    pub fn new(origin: Point3, direction: Vec3) -> (r: Ray)
        ensures
            r.origin == origin,
            r.direction == direction,
    {
        Ray { origin, direction }
    }

    pub fn origin(&self) -> (r: Point3)
        ensures
            r == self.origin,
    {
        self.origin
    }

    pub fn direction(&self) -> (r: Vec3)
        ensures
            r == self.direction,
    {
        self.direction
    }

    /// Evaluate the ray at parameter `t`: exactly `origin + t * direction`
    /// in the fixed-point model, with one truncation per component.
    pub fn at(&self, t: i128) -> (r: Point3)
        requires
            self.origin.bounded(VEC_LIMIT as int),
            self.direction.bounded(VEC_LIMIT as int),
            mag(t as int) <= VEC_LIMIT as int,
            mag(self.direction.x * t) <= (VEC_LIMIT as int) * (SCALE as int),
            mag(self.direction.y * t) <= (VEC_LIMIT as int) * (SCALE as int),
            mag(self.direction.z * t) <= (VEC_LIMIT as int) * (SCALE as int),
        ensures
            r.x == ray_at(self.origin.x as int, self.direction.x as int, t as int),
            r.y == ray_at(self.origin.y as int, self.direction.y as int, t as int),
            r.z == ray_at(self.origin.z as int, self.direction.z as int, t as int),
    {
        proof {
            lemma_tdiv_mag(self.direction.x * t, SCALE as int);
            lemma_tdiv_mag(self.direction.y * t, SCALE as int);
            lemma_tdiv_mag(self.direction.z * t, SCALE as int);
            lemma_tdiv_mono(
                mag(self.direction.x * t),
                (VEC_LIMIT as int) * (SCALE as int),
                SCALE as int,
            );
            lemma_tdiv_mono(
                mag(self.direction.y * t),
                (VEC_LIMIT as int) * (SCALE as int),
                SCALE as int,
            );
            lemma_tdiv_mono(
                mag(self.direction.z * t),
                (VEC_LIMIT as int) * (SCALE as int),
                SCALE as int,
            );
            lemma_tdiv_exact(VEC_LIMIT as int, SCALE as int);
        }
        let sc = self.direction.scale(t);
        self.origin.add(sc)
    }
}

} // verus!
