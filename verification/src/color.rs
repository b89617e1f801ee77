//! Colors, gamma correction and quantization to byte channels.

use crate::fx::{fx_sqrt, fxsqrt, tdiv};
use crate::vec3::Vec3;
use vstd::prelude::*;

verus! {

/// A color is a vector of linear-light channels (zero and up; one is full
/// intensity before quantization).
pub type Color = Vec3;

/// Build a color from its three channels.
#[allow(non_snake_case)]
pub fn Color(r: i64, g: i64, b: i64) -> (c: Color)
    ensures
        c == Vec3(r, g, b),
{
    Vec3(r, g, b)
}

/// The gamma-corrected value of one linear channel: its fixed-point square
/// root for positive values, zero otherwise.
pub open spec fn gamma_spec(c: int) -> int {
    if c > 0 {
        fxsqrt(c)
    } else {
        0
    }
}

/// One gamma-corrected channel quantized to a byte: clamp to just below one,
/// then scale by 256 (values at one map to 255).
pub open spec fn byte_spec(g: int) -> int {
    tdiv(
        if g < 0 {
            0
        } else if g > 65470 {
            65470
        } else {
            g
        },
        256,
    )
}

/// Gamma-correct one linear-light channel.
pub fn linear_to_gamma(linear_component: i64) -> (r: i64)
    ensures
        r as int == gamma_spec(linear_component as int),
        r >= 0,
{
    if linear_component > 0 {
        return fx_sqrt(linear_component);
    }
    0
}

/// Quantize one gamma-corrected channel to a byte.
pub fn quantize_channel(g: i64) -> (r: u8)
    ensures
        r as int == byte_spec(g as int),
{
    let clamped: i64 = if g < 0 {
        0
    } else if g > 65470 {
        65470
    } else {
        g
    };
    ((clamped as u64) / 256) as u8
}

/// Gamma-correct and quantize a pixel to its three byte channels, packed in
/// `u32` values for a display buffer.
pub fn gamma_correction(pixel_color: &Color) -> (r: (u32, u32, u32))
    ensures
        r.0 as int == byte_spec(gamma_spec(pixel_color.0 as int)),
        r.1 as int == byte_spec(gamma_spec(pixel_color.1 as int)),
        r.2 as int == byte_spec(gamma_spec(pixel_color.2 as int)),
        r.0 <= 255 && r.1 <= 255 && r.2 <= 255,
{
    let a = quantize_channel(linear_to_gamma(pixel_color.0));
    let b = quantize_channel(linear_to_gamma(pixel_color.1));
    let c = quantize_channel(linear_to_gamma(pixel_color.2));
    (a as u32, b as u32, c as u32)
}

} // verus!
