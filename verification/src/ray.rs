//! Rays: an origin and a direction, with a point-at-parameter evaluator.

use crate::fx::FX_ONE;
use crate::vec3::{v_add, v_in_box, v_scale, Point3, Vec3};
use vstd::prelude::*;

verus! {

/// Componentwise cap on ray directions that the renderer hands around; the
/// camera validates its derived state against it and every scatter result
/// stays within it.
pub const DIR_LIM: i64 = 0x400_0000;

/// A ray `origin + t * direction`.
#[derive(Clone, Copy, Debug, PartialEq, Eq, Structural)]
pub struct Ray {
    pub orig: Point3,
    pub dir: Vec3,
}

/// A ray whose direction is moderate enough for every scatter computation.
pub open spec fn ray_wf(r: Ray) -> bool {
    v_in_box(r.dir, DIR_LIM as int)
}

/// The exact point reached after parameter `t` along the ray.
pub open spec fn ray_at(r: Ray, t: int) -> Point3 {
    v_add(r.orig, v_scale(r.dir, t))
}

impl Default for Ray {
    /// The default ray sits at the origin and points along `z`.
    fn default() -> (r: Self)
        ensures
            r.orig == Vec3(0, 0, 0),
            r.dir == Vec3(0, 0, FX_ONE),
    {
        Self { orig: Vec3(0, 0, 0), dir: Vec3(0, 0, FX_ONE) }
    }
}

impl Ray {
    /// Build a ray from an origin and a direction.
    pub fn new(origin: &Point3, direction: &Vec3) -> (r: Self)
        ensures
            r.orig == *origin,
            r.dir == *direction,
    {
        Self { orig: *origin, dir: *direction }
    }

    /// The ray's origin.
    pub fn origin(&self) -> (r: &Point3)
        ensures
            *r == self.orig,
    {
        &self.orig
    }

    /// The ray's direction.
    pub fn direction(&self) -> (r: &Vec3)
        ensures
            *r == self.dir,
    {
        &self.dir
    }

    /// The point reached after parameter `t` along the ray.
    pub fn at(&self, t: i64) -> (r: Point3)
        ensures
            r == ray_at(*self, t as int),
    {
        self.orig.add(self.dir.mul(t))
    }
}

} // verus!
