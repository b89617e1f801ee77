//! A recursive Monte-Carlo path tracer over fixed-point arithmetic.
//!
//! Geometry, colors and camera state are held as `i64` values scaled by
//! 2^16 (one world unit is `fx::FX_ONE`), so every computation has an exact
//! integer meaning that contracts can state and Verus can check.

pub mod camera;
pub mod color;
pub mod fx;
pub mod image;
pub mod hittable;
pub mod hittable_list;
pub mod material;
pub mod ray;
pub mod sphere;
pub(crate) mod rng;
pub mod scenes;
pub mod vec3;

use vstd::prelude::*;

verus! {

} // verus!
