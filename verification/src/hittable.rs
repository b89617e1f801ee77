//! Surface records and the hit-testing capability contract.

use crate::material::Material;
use crate::ray::Ray;
use crate::vec3::{dot, lemma_dot_neg_right, v_dot, v_in_box, v_neg, Point3, Vec3};
use vstd::prelude::*;

verus! {

/// Componentwise cap on surface normals held in records; sphere intersection
/// clamps the computed outward normal into this box (a guard that a normal of
/// length near one never triggers).
pub const N_LIM: i64 = 131072;

/// What an intersection reports: the hit point, the corrected normal, the ray
/// parameter, the surface material and the facing flag.
#[derive(Clone, Copy, Debug, PartialEq)]
pub struct HitRecord {
    pub p: Point3,
    pub t: i64,
    pub normal: Vec3,
    pub mat: Material,
    pub front_face: bool,
}

/// A record whose normal is moderate enough for every scatter computation.
pub open spec fn rec_wf(rec: HitRecord) -> bool {
    v_in_box(rec.normal, N_LIM as int)
}

/// The corrected normal: the outward normal when it already opposes the ray
/// direction, else its negation.
pub open spec fn face_normal(r: Ray, outward: Vec3) -> Vec3 {
    if v_dot(r.dir, outward) < 0 {
        outward
    } else {
        v_neg(outward)
    }
}

impl HitRecord {
    /// Orient the stored normal against the incoming ray, recording in
    /// `front_face` whether the outward normal already opposed it.
    pub fn set_face_normal(&mut self, r: &Ray, outward_normal: &Vec3)
        ensures
            final(self).front_face == (v_dot(r.dir, *outward_normal) < 0),
            final(self).normal == face_normal(*r, *outward_normal),
            final(self).p == old(self).p,
            final(self).t == old(self).t,
            final(self).mat == old(self).mat,
    {
        self.front_face = dot(r.direction(), outward_normal) < 0;
        self.normal = if self.front_face {
            *outward_normal
        } else {
            outward_normal.neg()
        };
    }
}

/// After front-face correction the stored normal never points with the
/// incoming ray: its dot product with the ray direction is at most zero.
pub proof fn lemma_face_normal_opposes(r: Ray, outward: Vec3, dd: int, nn: int)
    requires
        v_in_box(r.dir, dd),
        v_in_box(outward, nn),
        0 <= dd <= i64::MAX as int,
        0 <= nn <= i64::MAX as int,
        dd * nn <= 0x1000_0000_0000_0000_0000,
    ensures
        v_dot(r.dir, face_normal(r, outward)) <= 0,
{
    if v_dot(r.dir, outward) < 0 {
    } else {
        lemma_dot_neg_right(r.dir, outward, dd, nn);
    }
}

/// The hit-testing capability: anything that can be tested for intersection
/// against a ray within a closed parameter interval, with the result pinned
/// by the implementor's own intersection function.
pub trait Hittable {
    /// What this implementor's intersection returns.
    spec fn hit_spec(&self, r: Ray, t_min: int, t_max: int) -> Option<HitRecord>;

    /// Test for the intersection within `[t_min, t_max]`.
    fn hit(&self, r: &Ray, t_min: i64, t_max: i64) -> (res: Option<HitRecord>)
        ensures
            res == self.hit_spec(*r, t_min as int, t_max as int),
    ;
}

} // verus!
