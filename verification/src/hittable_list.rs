//! A linear aggregate of spheres that reports the nearest intersection.

use crate::hittable::{rec_wf, HitRecord};
use crate::ray::Ray;
use crate::sphere::{lemma_sphere_interval_narrow, sphere_hit_spec, sphere_hit_t, sphere_wf, Sphere};
use vstd::prelude::*;

verus! {

/// Every member of the scene is a valid sphere.
pub open spec fn list_wf(objs: Seq<Sphere>) -> bool {
    forall|i: int| 0 <= i < objs.len() ==> sphere_wf(#[trigger] objs[i])
}

/// The nearest intersection across the members, scanned in order with the
/// closest-so-far parameter shrinking the search interval: the result for an
/// extended scene is the last member's hit against the previous closest
/// parameter, or the previous result.
pub open spec fn list_hit_spec(objs: Seq<Sphere>, r: Ray, t_min: int, t_max: int) -> Option<
    HitRecord,
>
    decreases objs.len(),
{
    if objs.len() == 0 {
        None
    } else {
        let prev = list_hit_spec(objs.drop_last(), r, t_min, t_max);
        let closest = match prev {
            None => t_max,
            Some(rec) => rec.t as int,
        };
        match sphere_hit_spec(objs.last(), r, t_min, closest) {
            None => prev,
            Some(rec) => Some(rec),
        }
    }
}

/// An ordered scene of spheres.
#[derive(Debug)]
pub struct HittableList {
    pub objects: Vec<Sphere>,
}

impl Default for HittableList {
    /// The default scene is empty.
    fn default() -> (r: Self)
        ensures
            r.objects@.len() == 0,
    {
        Self { objects: Vec::new() }
    }
}

impl HittableList {
    /// Remove every member.
    pub fn clear(&mut self)
        ensures
            final(self).objects@.len() == 0,
    {
        self.objects.clear()
    }

    /// Append a member.
    pub fn add(&mut self, object: Sphere)
        ensures
            final(self).objects@ == old(self).objects@.push(object),
    {
        self.objects.push(object);
    }

    /// The nearest intersection among all members within `[t_min, t_max]`:
    /// scan linearly, shrinking the upper bound to the closest parameter
    /// found so far.
    pub fn hit(&self, r: &Ray, t_min: i64, t_max: i64) -> (res: Option<HitRecord>)
        ensures
            res == list_hit_spec(self.objects@, *r, t_min as int, t_max as int),
            res matches Some(rec) ==> t_min <= rec.t <= t_max,
            list_wf(self.objects@) ==> (res matches Some(rec) ==> rec_wf(rec) && rec.mat.wf()),
    {
        let mut result: Option<HitRecord> = None;
        let mut closest_so_far: i64 = t_max;
        let n = self.objects.len();
        let mut i: usize = 0;
        while i < n
            invariant
                n == self.objects@.len(),
                0 <= i <= n,
                result == list_hit_spec(self.objects@.take(i as int), *r, t_min as int,
                    t_max as int),
                closest_so_far == match result {
                    None => t_max,
                    Some(rec) => rec.t,
                },
                result matches Some(rec) ==> t_min <= rec.t <= t_max,
                list_wf(self.objects@) ==> (result matches Some(rec) ==> rec_wf(rec)
                    && rec.mat.wf()),
            decreases n - i,
        {
            proof {
                assert(self.objects@.take(i + 1).drop_last() =~= self.objects@.take(i as int));
                assert(self.objects@.take(i + 1).last() == self.objects@[i as int]);
            }
            match self.objects[i].hit(r, t_min, closest_so_far) {
                Some(rec) => {
                    closest_so_far = rec.t;
                    result = Some(rec);
                },
                None => {},
            }
            i = i + 1;
        }
        proof {
            assert(self.objects@.take(n as int) =~= self.objects@);
        }
        result
    }
}

/// The scan is the globally nearest intersection, regardless of member
/// order: a scene that reports no hit has no member that would hit on its
/// own, and a reported hit carries the smallest parameter any member accepts
/// over the full interval, achieved by one of them.
pub proof fn lemma_list_hit_nearest(objs: Seq<Sphere>, r: Ray, t_min: int, t_max: int)
    requires
        t_min <= t_max,
    ensures
        list_hit_spec(objs, r, t_min, t_max) is None ==> forall|i: int|
            0 <= i < objs.len() ==> sphere_hit_t(#[trigger] objs[i], r, t_min, t_max) is None,
        list_hit_spec(objs, r, t_min, t_max) matches Option::Some(rec) ==> {
            &&& t_min <= rec.t <= t_max
            &&& forall|i: int|
                0 <= i < objs.len() ==> match sphere_hit_t(#[trigger] objs[i], r, t_min, t_max) {
                    Option::None => true,
                    Option::Some(ti) => rec.t <= ti,
                }
            &&& exists|i: int|
                0 <= i < objs.len() && sphere_hit_t(#[trigger] objs[i], r, t_min, t_max)
                    == Option::Some(rec.t as int)
        },
    decreases objs.len(),
{
    if objs.len() == 0 {
    } else {
        let pre = objs.drop_last();
        let last = objs.last();
        lemma_list_hit_nearest(pre, r, t_min, t_max);
        let prev = list_hit_spec(pre, r, t_min, t_max);
        let cl = match prev {
            Option::None => t_max,
            Option::Some(rec) => rec.t as int,
        };
        lemma_sphere_interval_narrow(last, r, t_min, cl, t_max);
        assert(forall|i: int| 0 <= i < pre.len() ==> pre[i] == #[trigger] objs[i]);
        assert(objs[objs.len() - 1] == last);
        match sphere_hit_spec(last, r, t_min, cl) {
            Option::None => {
                match prev {
                    Option::None => {
                    },
                    Option::Some(rec) => {
                        let w = choose|i: int|
                            0 <= i < pre.len() && sphere_hit_t(#[trigger] pre[i], r, t_min, t_max)
                                == Option::Some(rec.t as int);
                        assert(sphere_hit_t(objs[w], r, t_min, t_max) == Option::Some(
                            rec.t as int,
                        ));
                    },
                }
            },
            Option::Some(rec2) => {
                let t2 = sphere_hit_t(last, r, t_min, cl)->Some_0;
                assert(rec2.t == t2 as i64);
                assert(i64::MIN as int <= t2 <= i64::MAX as int);
                assert(sphere_hit_t(last, r, t_min, t_max) == Option::Some(t2));
                assert(t_min <= t2 <= cl);
                assert(sphere_hit_t(objs[objs.len() - 1], r, t_min, t_max) == Option::Some(
                    rec2.t as int,
                ));
            },
        }
    }
}

impl crate::hittable::Hittable for HittableList {
    /// A scene's intersection is the nearest among its members.
    open spec fn hit_spec(&self, r: Ray, t_min: int, t_max: int) -> Option<HitRecord> {
        list_hit_spec(self.objects@, r, t_min, t_max)
    }

    fn hit(&self, r: &Ray, t_min: i64, t_max: i64) -> (res: Option<HitRecord>) {
        HittableList::hit(self, r, t_min, t_max)
    }
}

} // verus!
