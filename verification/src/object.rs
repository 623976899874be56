//! Intersection records and the scene container that aggregates primitives.

use crate::fixed::{lemma_mul_mag, mag, SCALE, T_LIMIT};
use crate::material::{Lambertian, Material};
use crate::ray::Ray;
use crate::sphere::{sph_chosen, sph_miss, sph_off2, sph_off2_at, sph_record_matches, Sphere};
use crate::vec3::{dot3, Point3, Vec3, VEC_LIMIT};
use vstd::prelude::*;

verus! {

#[derive(Clone, Copy, Debug, PartialEq, Eq, Structural)]
pub struct HitRecord {
    pub point: Point3,
    pub normal: Vec3,
    pub material: Material,
    pub t: i128,
    pub front_face: bool,
}

impl HitRecord {
    /// The shape every accepted hit gives its normal: at most one unit per
    /// component and never the zero vector. What the scattering models
    /// require of a record.
    pub open spec fn normal_ok(self) -> bool {
        self.normal.bounded(SCALE as int) && !self.normal.is_zero()
    }

    pub fn empty() -> (r: HitRecord)
        ensures
            r.point == (Vec3 { x: 0, y: 0, z: 0 }),
            r.normal == (Vec3 { x: 0, y: 0, z: 0 }),
            r.material == Material::Lambertian(
                Lambertian { albedo: Vec3 { x: 0, y: 0, z: 0 } },
            ),
            r.t == 0,
            !r.front_face,
    {
        HitRecord {
            point: Vec3::zero(),
            normal: Vec3::zero(),
            material: Material::Lambertian(Lambertian::new(Vec3::zero())),
            t: 0,
            front_face: false,
        }
    }

    /// Orient `outward_normal` to face against the incoming ray. The face
    /// test takes the exact sign of the raw inner product — the sign of the
    /// real dot product, free of any truncation.
    pub fn set_face_normal(&mut self, ray: &Ray, outward_normal: &Vec3)
        requires
            ray.direction.bounded(VEC_LIMIT as int),
            outward_normal.bounded(VEC_LIMIT as int),
        ensures
            final(self).front_face == (dot3(ray.direction, *outward_normal) < 0),
            final(self).normal.x == if final(self).front_face {
                outward_normal.x as int
            } else {
                -(outward_normal.x as int)
            },
            final(self).normal.y == if final(self).front_face {
                outward_normal.y as int
            } else {
                -(outward_normal.y as int)
            },
            final(self).normal.z == if final(self).front_face {
                outward_normal.z as int
            } else {
                -(outward_normal.z as int)
            },
            final(self).point == old(self).point,
            final(self).material == old(self).material,
            final(self).t == old(self).t,
    {
        proof {
            lemma_mul_mag(
                ray.direction.x as int,
                outward_normal.x as int,
                VEC_LIMIT as int,
                VEC_LIMIT as int,
            );
            lemma_mul_mag(
                ray.direction.y as int,
                outward_normal.y as int,
                VEC_LIMIT as int,
                VEC_LIMIT as int,
            );
            lemma_mul_mag(
                ray.direction.z as int,
                outward_normal.z as int,
                VEC_LIMIT as int,
                VEC_LIMIT as int,
            );
        }
        let d: i128 = ray.direction.x * outward_normal.x + ray.direction.y * outward_normal.y
            + ray.direction.z * outward_normal.z;
        self.front_face = d < 0;
        if self.front_face {
            self.normal = *outward_normal;
        } else {
            self.normal = (*outward_normal).neg();
        }
    }
}

/// The scene: an insertion-ordered sequence of primitives, queried as one
/// aggregate primitive.
pub struct HittableList {
    pub objects: Vec<Sphere>,
}

impl HittableList {
    /// Every primitive lies in the domain the intersection and scattering
    /// contracts cover.
    pub open spec fn wf(self) -> bool {
        forall|i: int| 0 <= i < self.objects@.len() ==> #[trigger] self.objects@[i].wf()
    }

    pub fn new() -> (r: HittableList)
        ensures
            r.objects@.len() == 0,
    {
        HittableList { objects: Vec::new() }
    }

    pub fn add(&mut self, obj: Sphere)
        ensures
            final(self).objects@ == old(self).objects@.push(obj),
    {
        self.objects.push(obj);
    }

    pub fn clear(&mut self)
        ensures
            final(self).objects@.len() == 0,
    {
        self.objects.clear();
    }

    /// Closest hit over all primitives: a linear scan that shrinks the upper
    /// end of the search interval to the nearest hit found so far.
    pub fn hit(&self, ray: &Ray, t_min: i128, t_max: i128) -> (res: Option<HitRecord>)
        requires
            self.wf(),
            ray.wf(),
            mag(t_min as int) <= T_LIMIT as int,
            mag(t_max as int) <= T_LIMIT as int,
        ensures
            match res {
                Option::None => list_fold(
                    self.objects@,
                    *ray,
                    t_min as int,
                    t_max as int,
                ) is None,
                Option::Some(rec) => {
                    &&& list_fold(self.objects@, *ray, t_min as int, t_max as int) is Some
                    &&& ({
                        let win = list_fold(
                            self.objects@,
                            *ray,
                            t_min as int,
                            t_max as int,
                        )->Some_0;
                        &&& rec.t as int == win.1
                        &&& 0 <= win.0 < self.objects@.len()
                        &&& sph_record_matches(self.objects@[win.0], *ray, rec)
                        &&& t_min <= rec.t <= t_max
                    })
                },
            },
    {
        let ghost r = *ray;
        let ghost tmin = t_min as int;
        let ghost tmax = t_max as int;
        let mut best: Option<HitRecord> = Option::None;
        let mut closest: i128 = t_max;
        let n: usize = self.objects.len();
        let mut i: usize = 0;
        while i < n
            invariant
                n == self.objects@.len(),
                0 <= i <= n,
                self.wf(),
                r.wf(),
                r == *ray,
                tmin == t_min as int,
                tmax == t_max as int,
                mag(tmin) <= T_LIMIT as int,
                mag(tmax) <= T_LIMIT as int,
                match best {
                    Option::None => {
                        &&& list_fold(self.objects@.take(i as int), r, tmin, tmax) is None
                        &&& closest == t_max
                    },
                    Option::Some(rec) => {
                        &&& list_fold(self.objects@.take(i as int), r, tmin, tmax) is Some
                        &&& ({
                            let win = list_fold(
                                self.objects@.take(i as int),
                                r,
                                tmin,
                                tmax,
                            )->Some_0;
                            &&& rec.t as int == win.1
                            &&& 0 <= win.0 < i
                            &&& sph_record_matches(self.objects@[win.0], r, rec)
                            &&& t_min <= rec.t <= t_max
                            &&& closest == rec.t
                        })
                    },
                },
            decreases n - i,
        {
            proof {
                assert(self.objects@.take(i + 1).drop_last() =~= self.objects@.take(i as int));
                assert(self.objects@.take(i + 1).last() == self.objects@[i as int]);
                assert(self.objects@[i as int].wf());
            }
            let s: Sphere = self.objects[i];
            match s.hit(ray, t_min, closest) {
                Option::Some(rec) => {
                    proof {
                        // A returned record contradicts every clause of a miss.
                        assert(sph_off2_at(s, r, rec.t as int) == sph_off2(s, rec.point));
                        assert(!sph_miss(s, r, tmin, closest as int));
                    }
                    best = Option::Some(rec);
                    closest = rec.t;
                },
                Option::None => {
                    proof {
                        assert(sph_miss(s, r, tmin, closest as int));
                    }
                },
            }
            i = i + 1;
        }
        proof {
            assert(self.objects@.take(n as int) =~= self.objects@);
        }
        best
    }
}

/// What the aggregate query reports over a sequence of primitives: the index
/// and parameter of the winning hit, found by a left-to-right scan whose
/// search interval shrinks to the nearest accepted parameter so far.
pub open spec fn list_fold(objs: Seq<Sphere>, r: Ray, t_min: int, t_max: int) -> Option<(int, int)>
    decreases objs.len(),
{
    if objs.len() == 0 {
        Option::None
    } else {
        let prefix = list_fold(objs.drop_last(), r, t_min, t_max);
        let bound = match prefix {
            Option::None => t_max,
            Option::Some(win) => win.1,
        };
        if !sph_miss(objs.last(), r, t_min, bound) {
            Option::Some(
                (objs.len() - 1, sph_chosen(objs.last(), r, t_min, bound)->Some_0),
            )
        } else {
            prefix
        }
    }
}

} // verus!
