//! Affine mapping between coordinate ranges, used to turn integer pixel
//! indices into normalized image-plane coordinates.

use vstd::prelude::*;
use vstd::arithmetic::div_mod::{
    lemma_fundamental_div_mod, lemma_fundamental_div_mod_converse,
    lemma_mod_division_less_than_divisor, lemma_div_is_ordered, lemma_div_pos_is_pos,
    lemma_div_by_multiple,
};
use crate::fx::{
    SCALE, fits_i64, floor_div_i128, lemma_div_magnitude_bound, lemma_div_neg_numerator,
};

verus! {

/// The affine image of `val`, carrying `[src_min, src_max]` onto
/// `[dst_min, dst_max]` and rounding the scaled offset down.
pub open spec fn map_affine(val: int, src_min: int, src_max: int, dst_min: int, dst_max: int) -> int {
    dst_min + (val - src_min) * (dst_max - dst_min) / (src_max - src_min)
}

/// Maps `val` from the source range onto the destination range.
/// A degenerate source range (empty or inverted) is rejected by the
/// precondition, as is an inverted destination range.
pub fn map_to_range(val: i64, src_min: i64, src_max: i64, dst_min: i64, dst_max: i64) -> (r: i64)
    requires
        src_min < src_max,
        dst_min <= dst_max,
        -0x2000000000000000 <= val <= 0x2000000000000000,
        -0x2000000000000000 <= src_min <= 0x2000000000000000,
        -0x2000000000000000 <= src_max <= 0x2000000000000000,
        -0x2000000000000000 <= dst_min <= 0x2000000000000000,
        -0x2000000000000000 <= dst_max <= 0x2000000000000000,
        fits_i64(map_affine(val as int, src_min as int, src_max as int, dst_min as int, dst_max as int)),
    ensures
        r == map_affine(val as int, src_min as int, src_max as int, dst_min as int, dst_max as int),
{
    let a: i128 = (val as i128) - (src_min as i128);
    let d: i128 = (dst_max as i128) - (dst_min as i128);
    let s: i128 = (src_max as i128) - (src_min as i128);
    proof {
        assert(-0x10000000000000000000000000000000 <= (a as int) * (d as int)
            <= 0x10000000000000000000000000000000) by (nonlinear_arith)
            requires
                -0x4000000000000000 <= a as int <= 0x4000000000000000,
                0 <= d as int <= 0x4000000000000000;
        lemma_div_magnitude_bound((a as int) * (d as int), s as int);
    }
    let q: i128 = floor_div_i128(a * d, s);
    ((dst_min as i128) + q) as i64
}

/// Normalized image-plane coordinates of a pixel position: both axes are
/// carried from `[0, extent - 1]` onto `[-1, 1]` in fixed-point scalars.
/// An image needs at least two pixels on each axis for the source ranges
/// to be meaningful.
pub fn get_uv(pixel_x: i64, pixel_y: i64, image_width: u32, image_height: u32) -> (uv: (i64, i64))
    requires
        image_width >= 2,
        image_height >= 2,
        0 <= pixel_x <= (image_width as int) * (SCALE as int),
        0 <= pixel_y <= (image_height as int) * (SCALE as int),
    ensures
        uv.0 == map_affine(
            pixel_x as int,
            0,
            ((image_width - 1) as int) * (SCALE as int),
            -(SCALE as int),
            SCALE as int,
        ),
        uv.1 == map_affine(
            pixel_y as int,
            0,
            ((image_height - 1) as int) * (SCALE as int),
            -(SCALE as int),
            SCALE as int,
        ),
        -(SCALE as int) <= uv.0 <= 3 * (SCALE as int),
        -(SCALE as int) <= uv.1 <= 3 * (SCALE as int),
    {
    let sx: i64 = ((image_width - 1) as i64) * SCALE;
    let sy: i64 = ((image_height - 1) as i64) * SCALE;
    proof {
        lemma_uv_in_range(pixel_x as int, image_width as int);
        lemma_uv_in_range(pixel_y as int, image_height as int);
    }
    let u: i64 = map_to_range(pixel_x, 0, sx, -SCALE, SCALE);
    let v: i64 = map_to_range(pixel_y, 0, sy, -SCALE, SCALE);
    (u, v)
}

/// A pixel position within the image maps into `[-SCALE, 3 * SCALE]`.
proof fn lemma_uv_in_range(px: int, extent: int)
    requires
        extent >= 2,
        0 <= px <= extent * (SCALE as int),
    ensures
        -(SCALE as int)
            <= map_affine(px, 0, (extent - 1) * (SCALE as int), -(SCALE as int), SCALE as int)
            <= 3 * (SCALE as int),
{
    let sc: int = SCALE as int;
    let ssp: int = (extent - 1) * sc;
    let q: int = px * (2 * sc) / ssp;
    assert(px * (2 * sc) <= (4 * sc) * ssp && px * (2 * sc) >= 0) by (nonlinear_arith)
        requires
            0 <= px <= extent * sc,
            extent >= 2,
            sc >= 1,
            ssp == (extent - 1) * sc;
    lemma_div_is_ordered(px * (2 * sc), (4 * sc) * ssp, ssp);
    lemma_div_by_multiple(4 * sc, ssp);
    lemma_div_pos_is_pos(px * (2 * sc), ssp);
}

/// Coordinate-mapping round trip: carrying a value from the source range
/// onto the destination range and back recovers it, short of at most the
/// ratio of the two spans plus one rounding step.
pub proof fn lemma_map_round_trip(val: int, src_min: int, src_max: int, dst_min: int, dst_max: int)
    requires
        src_min <= val <= src_max,
        src_min < src_max,
        dst_min < dst_max,
    ensures
        ({
            let u = map_affine(val, src_min, src_max, dst_min, dst_max);
            let back = map_affine(u, dst_min, dst_max, src_min, src_max);
            val - (src_max - src_min) / (dst_max - dst_min) - 1 <= back <= val
        }),
{
    let ssp: int = src_max - src_min;
    let dsp: int = dst_max - dst_min;
    let a: int = val - src_min;
    let big: int = a * dsp;
    let q: int = big / ssp;
    let r: int = big % ssp;
    lemma_fundamental_div_mod(big, ssp);
    lemma_mod_division_less_than_divisor(big, ssp);
    let k: int = (-r) / dsp;
    let m: int = (-r) % dsp;
    lemma_fundamental_div_mod(-r, dsp);
    lemma_mod_division_less_than_divisor(-r, dsp);
    assert(q * ssp == dsp * (a + k) + m) by (nonlinear_arith)
        requires
            big == ssp * q + r,
            big == a * dsp,
            -r == dsp * k + m;
    lemma_fundamental_div_mod_converse(q * ssp, dsp, a + k, m);
    lemma_div_neg_numerator(r, dsp);
    lemma_div_pos_is_pos(r, dsp);
    lemma_div_is_ordered(r, ssp, dsp);
}

} // verus!
