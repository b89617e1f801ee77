//! Image dimensions and aspect-ratio helpers.

use crate::fx::{fxd, tdiv, FX_ONE};
use vstd::prelude::*;

verus! {

/// The pixel dimensions of the output image.
#[derive(Debug, PartialEq, Eq, Clone, Copy, Hash, Structural)]
pub struct ImageInfo {
    pub image_width: u32,
    pub image_height: u32,
}

impl ImageInfo {
    /// Build from explicit pixel dimensions.
    pub fn from_dim(image_width: u32, image_height: u32) -> (r: Self)
        ensures
            r.image_width == image_width,
            r.image_height == image_height,
    {
        Self { image_width, image_height }
    }

    /// Build from a height and a fixed-point aspect ratio: the width is the
    /// height scaled by the ratio, rounded down.
    pub fn from_aspect(image_height: u32, aspect_ratio: i64) -> (r: Self)
        requires
            0 <= aspect_ratio <= 0x100_0000,
            image_height <= 16384,
        ensures
            r.image_height == image_height,
            r.image_width as int == tdiv(image_height as int * aspect_ratio as int, FX_ONE as int),
    {
        proof {
            assert(0 <= image_height as int * aspect_ratio as int <= 0x40_0000_0000)
                by (nonlinear_arith)
                requires
                    0 <= aspect_ratio <= 0x100_0000,
                    0 <= image_height <= 16384,
            ;
            vstd::arithmetic::div_mod::lemma_div_pos_is_pos(
                image_height as int * aspect_ratio as int,
                65536,
            );
            vstd::arithmetic::div_mod::lemma_div_is_ordered(
                image_height as int * aspect_ratio as int,
                0x40_0000_0000,
                65536,
            );
        }
        let w: u64 = (image_height as u64) * (aspect_ratio as u64) / 65536;
        Self { image_width: w as u32, image_height }
    }

    /// The width over the height, as a fixed-point ratio.
    pub fn aspect_ratio(&self) -> (r: i64)
        requires
            self.image_height >= 1,
        ensures
            r as int == fxd(self.image_width as int, self.image_height as int),
    {
        ((self.image_width as u64 * 65536) / (self.image_height as u64)) as i64
    }
}

impl Default for ImageInfo {
    /// The default image is 400 by 225 pixels.
    fn default() -> (r: Self)
        ensures
            r.image_width == 400,
            r.image_height == 225,
    {
        Self { image_width: 400, image_height: 225 }
    }
}

} // verus!
