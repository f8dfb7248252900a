//! Conversion of linear colors to integer output channels.

use vstd::prelude::*;
use crate::fx::{SCALE, floor_div_i128, lemma_i64_mul_fits_i128};
use crate::vec3::Vec3;

verus! {

/// Colors are vectors: linear channel intensities, conceptually in
/// `[0, 1]`, though intermediate sums may leave that range.
pub type Color = Vec3;

/// The integer channel for a linear intensity `x`: `x * max_value`
/// rounded to the nearest integer, clamped into `[0, max_value]`.
pub open spec fn unit_to_max_spec(x: int, max_value: int) -> int {
    let r = (x * max_value + (SCALE as int) / 2) / (SCALE as int);
    if r < 0 {
        0
    } else if r > max_value {
        max_value
    } else {
        r
    }
}

/// Quantizes one linear channel into `[0, max_value]`: values outside the
/// unit range clamp, they never wrap.
pub fn unit_to_max(x: i64, max_value: u32) -> (r: u32)
    ensures
        r == unit_to_max_spec(x as int, max_value as int),
{
    proof {
        lemma_i64_mul_fits_i128(x as int, max_value as int);
    }
    let p: i128 = (x as i128) * (max_value as i128) + (SCALE as i128) / 2;
    let q: i128 = floor_div_i128(p, SCALE as i128);
    if q < 0 {
        0
    } else if q > max_value as i128 {
        max_value
    } else {
        q as u32
    }
}

/// The three quantized channels of a color, against a full scale of 255.
pub fn color_channels(c: &Color) -> (rgb: (u32, u32, u32))
    ensures
        rgb.0 == unit_to_max_spec(c.v().x, 255),
        rgb.1 == unit_to_max_spec(c.v().y, 255),
        rgb.2 == unit_to_max_spec(c.v().z, 255),
        rgb.0 <= 255 && rgb.1 <= 255 && rgb.2 <= 255,
{
    (unit_to_max(c.x, 255), unit_to_max(c.y, 255), unit_to_max(c.z, 255))
}

} // verus!
