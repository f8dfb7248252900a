//! The plain-text pixel-map stream: emitting it, reading it back, and
//! the per-pixel image difference.

use vstd::prelude::*;
use crate::color::{unit_to_max_spec, color_channels};
use crate::vec3::Vec3;

verus! {

/// Errors of the pixel-map reader and differ.
#[derive(Clone, Copy, PartialEq, Eq, Structural, Debug)]
pub enum PpmError {
    /// A numeric token does not fit the channel range.
    ValueTooLarge,
    /// The stream ended before every declared pixel was read.
    Truncated,
    /// Two images to be compared declare different dimensions.
    DimensionMismatch,
    /// An image declares a zero maximum channel value, so its channels
    /// cannot be normalized.
    ZeroMaxValue,
}

/// The decimal digits of `n`, most significant first.
pub open spec fn dec_digits(n: nat) -> Seq<u8>
    decreases n,
{
    if n < 10 {
        seq![(48 + n) as u8]
    } else {
        dec_digits(n / 10).push((48 + n % 10) as u8)
    }
}

/// Appends the decimal digits of `n`.
pub fn push_decimal(n: u32, out: &mut Vec<u8>)
    ensures
        final(out)@ == old(out)@ + dec_digits(n as nat),
    decreases n,
{
    let ghost prefix = out@;
    if n >= 10 {
        push_decimal(n / 10, out);
    }
    out.push(48 + (n % 10) as u8);
    proof {
        if n < 10 {
            assert(out@ =~= prefix + dec_digits(n as nat));
        } else {
            assert(out@ =~= prefix + dec_digits(n as nat));
        }
    }
}

/// One pixel line: three space-separated channels and a newline.
pub open spec fn pixel_line(r: nat, g: nat, b: nat) -> Seq<u8> {
    dec_digits(r) + seq![32u8] + dec_digits(g) + seq![32u8] + dec_digits(b) + seq![10u8]
}

/// The stream header: the magic line, the dimensions, and the full
/// channel scale of 255.
pub open spec fn ppm_header(w: nat, h: nat) -> Seq<u8> {
    seq![80u8, 51u8, 10u8] + dec_digits(w) + seq![32u8] + dec_digits(h) + seq![10u8]
        + dec_digits(255) + seq![10u8]
}

/// The quantized pixel lines of the framebuffer from index `i` on. The
/// framebuffer is already in raster order, so the lines follow it.
pub open spec fn ppm_pixels_from(fb: Seq<Vec3>, i: int) -> Seq<u8>
    decreases fb.len() - i,
{
    if i < 0 || i >= fb.len() {
        Seq::empty()
    } else {
        pixel_line(
            unit_to_max_spec(fb[i].v().x, 255) as nat,
            unit_to_max_spec(fb[i].v().y, 255) as nat,
            unit_to_max_spec(fb[i].v().z, 255) as nat,
        ) + ppm_pixels_from(fb, i + 1)
    }
}

/// The whole stream for a framebuffer in raster order.
pub open spec fn ppm_bytes_spec(w: nat, h: nat, fb: Seq<Vec3>) -> Seq<u8> {
    ppm_header(w, h) + ppm_pixels_from(fb, 0)
}

/// Appends one quantized pixel line.
fn push_pixel_line(c: &Vec3, out: &mut Vec<u8>)
    ensures
        final(out)@ == old(out)@ + pixel_line(
            unit_to_max_spec(c.v().x, 255) as nat,
            unit_to_max_spec(c.v().y, 255) as nat,
            unit_to_max_spec(c.v().z, 255) as nat,
        ),
{
    let ghost prefix = out@;
    let rgb: (u32, u32, u32) = color_channels(c);
    push_decimal(rgb.0, out);
    out.push(32);
    push_decimal(rgb.1, out);
    out.push(32);
    push_decimal(rgb.2, out);
    out.push(10);
    proof {
        assert(out@ =~= prefix + pixel_line(
            unit_to_max_spec(c.v().x, 255) as nat,
            unit_to_max_spec(c.v().y, 255) as nat,
            unit_to_max_spec(c.v().z, 255) as nat,
        ));
    }
}

/// Serializes a framebuffer into the text pixel-map stream.
pub fn ppm_bytes(width: u32, height: u32, fb: &Vec<Vec3>) -> (out: Vec<u8>)
    ensures
        out@ == ppm_bytes_spec(width as nat, height as nat, fb@),
{
    let mut out: Vec<u8> = Vec::new();
    out.push(80);
    out.push(51);
    out.push(10);
    push_decimal(width, &mut out);
    out.push(32);
    push_decimal(height, &mut out);
    out.push(10);
    push_decimal(255, &mut out);
    out.push(10);
    proof {
        assert(out@ =~= ppm_header(width as nat, height as nat));
    }
    let mut i: usize = 0;
    while i < fb.len()
        invariant
            0 <= i <= fb@.len(),
            out@ + ppm_pixels_from(fb@, i as int) == ppm_bytes_spec(
                width as nat,
                height as nat,
                fb@,
            ),
        decreases fb@.len() - i,
    {
        let ghost before = out@;
        push_pixel_line(&fb[i], &mut out);
        proof {
            assert(before + ppm_pixels_from(fb@, i as int) =~= out@ + ppm_pixels_from(
                fb@,
                i as int + 1,
            ));
        }
        i = i + 1;
    }
    proof {
        assert(out@ + ppm_pixels_from(fb@, fb@.len() as int) =~= out@);
    }
    out
}

/// An ASCII decimal digit.
pub open spec fn is_digit(b: u8) -> bool {
    48 <= b <= 57
}

/// The numeric tokens of a byte stream from index `i` on: maximal runs
/// of digits, read as decimal numbers. `cur` carries the value of the
/// run in progress, if one is open.
pub open spec fn tokens_from(s: Seq<u8>, i: int, cur: Option<nat>) -> Seq<nat>
    decreases s.len() - i,
{
    if i < 0 || i >= s.len() {
        match cur {
            Some(v) => seq![v],
            None => Seq::empty(),
        }
    } else if is_digit(s[i]) {
        let d = (s[i] - 48) as nat;
        let v = match cur {
            Some(v) => v * 10 + d,
            None => d,
        };
        tokens_from(s, i + 1, Some(v))
    } else {
        match cur {
            Some(v) => seq![v] + tokens_from(s, i + 1, None),
            None => tokens_from(s, i + 1, None),
        }
    }
}

/// Growing a decimal number keeps it past any bound it has passed.
proof fn lemma_token_grows(v: nat, d: nat)
    requires
        v > u32::MAX,
    ensures
        v * 10 + d > u32::MAX,
{
    assert(v * 10 + d >= v) by (nonlinear_arith)
        requires
            v >= 0,
            d >= 0;
}

/// Scans the numeric tokens of `bytes` from `start` on. Fails exactly
/// when some token does not fit a `u32`.
pub fn scan_tokens(bytes: &Vec<u8>, start: usize) -> (r: Result<Vec<u32>, PpmError>)
    requires
        start <= bytes@.len(),
    ensures
        r matches Ok(v) ==> v@.map_values(|t: u32| t as nat) == tokens_from(
            bytes@,
            start as int,
            None,
        ),
        r is Err ==> r == Err::<Vec<u32>, PpmError>(PpmError::ValueTooLarge) && exists|k: int|
            0 <= k < tokens_from(bytes@, start as int, None).len() && tokens_from(
                bytes@,
                start as int,
                None,
            )[k] > u32::MAX,
{
    let ghost whole = tokens_from(bytes@, start as int, None);
    let mut done: Vec<u32> = Vec::new();
    let mut cur: u64 = 0;
    let mut open: bool = false;
    let mut big: bool = false;
    let ghost mut cur_spec: Option<nat> = None::<nat>;
    let mut i: usize = start;
    while i < bytes.len()
        invariant
            start <= i <= bytes@.len(),
            open <==> cur_spec is Some,
            !open ==> cur == 0 && !big,
            cur_spec matches Some(v) ==> (big ==> v > u32::MAX) && (!big ==> v == cur
                && cur <= u32::MAX),
            whole == done@.map_values(|t: u32| t as nat) + tokens_from(
                bytes@,
                i as int,
                cur_spec,
            ),
            whole == tokens_from(bytes@, start as int, None),
        decreases bytes@.len() - i,
    {
        let b: u8 = bytes[i];
        if 48 <= b && b <= 57 {
            let d: u64 = (b - 48) as u64;
            if !open {
                cur = d;
                open = true;
                proof {
                    cur_spec = Some((b - 48) as nat);
                }
            } else {
                proof {
                    if big {
                        lemma_token_grows(cur_spec->Some_0, (b - 48) as nat);
                    }
                    cur_spec = Some(cur_spec->Some_0 * 10 + (b - 48) as nat);
                }
                if !big {
                    cur = cur * 10 + d;
                    if cur > 0xffffffff {
                        big = true;
                    }
                }
            }
        } else {
            if open {
                if big {
                    proof {
                        assert(tokens_from(bytes@, i as int, cur_spec) == seq![
                            cur_spec->Some_0,
                        ] + tokens_from(bytes@, i as int + 1, None));
                        assert(whole[done@.len() as int] == cur_spec->Some_0);
                    }
                    return Err(PpmError::ValueTooLarge);
                }
                let ghost before = done@;
                done.push(cur as u32);
                proof {
                    assert(done@.map_values(|t: u32| t as nat) =~= before.map_values(
                        |t: u32| t as nat,
                    ) + seq![cur as nat]);
                    assert(before.map_values(|t: u32| t as nat) + tokens_from(
                        bytes@,
                        i as int,
                        cur_spec,
                    ) =~= done@.map_values(|t: u32| t as nat) + tokens_from(
                        bytes@,
                        i as int + 1,
                        None,
                    ));
                    cur_spec = None::<nat>;
                }
                cur = 0;
                open = false;
            }
        }
        i = i + 1;
    }
    if open {
        if big {
            proof {
                assert(tokens_from(bytes@, i as int, cur_spec) == seq![cur_spec->Some_0]);
                assert(whole[done@.len() as int] == cur_spec->Some_0);
            }
            return Err(PpmError::ValueTooLarge);
        }
        let ghost before = done@;
        done.push(cur as u32);
        proof {
            assert(done@.map_values(|t: u32| t as nat) =~= before.map_values(|t: u32| t as nat)
                + seq![cur as nat]);
        }
    }
    proof {
        assert(done@.map_values(|t: u32| t as nat) =~= whole);
    }
    Ok(done)
}

/// A parsed pixel map: declared dimensions, the channel scale, and the
/// pixel triples in raster order.
pub struct PpmImage {
    pub width: u32,
    pub height: u32,
    pub max_value: u32,
    pub pixels: Vec<(u32, u32, u32)>,
}

impl PpmImage {
    /// The pixel list carries exactly the declared number of pixels.
    pub open spec fn wf(self) -> bool {
        self.pixels@.len() == (self.width as int) * (self.height as int)
    }
}

/// The numeric tokens of a pixel-map stream: everything after the
/// two-byte magic, read as maximal digit runs.
pub open spec fn ppm_tokens(s: Seq<u8>) -> Seq<nat> {
    tokens_from(s, 2, None)
}

/// Reads a pixel map: after the two-byte magic, the width, the height,
/// the channel scale, and `width * height` channel triples, token by
/// token. A stream that ends early is `Truncated`; a token beyond the
/// machine channel range is `ValueTooLarge`.
pub fn parse_ppm(bytes: &Vec<u8>) -> (r: Result<PpmImage, PpmError>)
    ensures
        bytes@.len() < 2 ==> r == Err::<PpmImage, PpmError>(PpmError::Truncated),
        bytes@.len() >= 2 && (exists|k: int|
            0 <= k < ppm_tokens(bytes@).len() && ppm_tokens(bytes@)[k] > u32::MAX) ==> r
            == Err::<PpmImage, PpmError>(PpmError::ValueTooLarge),
        bytes@.len() >= 2 && (forall|k: int|
            0 <= k < ppm_tokens(bytes@).len() ==> ppm_tokens(bytes@)[k] <= u32::MAX) ==> {
            let toks = ppm_tokens(bytes@);
            if toks.len() < 3 {
                r == Err::<PpmImage, PpmError>(PpmError::Truncated)
            } else if toks.len() < 3 + 3 * (toks[0] * toks[1]) {
                r == Err::<PpmImage, PpmError>(PpmError::Truncated)
            } else {
                r matches Ok(img) && {
                    &&& img.width == toks[0]
                    &&& img.height == toks[1]
                    &&& img.max_value == toks[2]
                    &&& img.wf()
                    &&& forall|j: int|
                        0 <= j < toks[0] * toks[1] ==> (#[trigger] img.pixels@[j]) == ((
                        toks[3 + 3 * j] as u32,
                        toks[3 + 3 * j + 1] as u32,
                        toks[3 + 3 * j + 2] as u32,
                    ))
                }
            }
        },
{
    if bytes.len() < 2 {
        return Err(PpmError::Truncated);
    }
    let toks: Vec<u32> = match scan_tokens(bytes, 2) {
        Ok(v) => v,
        Err(e) => {
            return Err(e);
        },
    };
    let ghost spec_toks = ppm_tokens(bytes@);
    proof {
        assert(forall|k: int| 0 <= k < spec_toks.len() ==> #[trigger] spec_toks[k] <= u32::MAX)
            by {
            assert(forall|k: int|
                0 <= k < spec_toks.len() ==> #[trigger] spec_toks[k] == toks@.map_values(
                    |t: u32| t as nat,
                )[k]);
        }
    }
    if toks.len() < 3 {
        return Err(PpmError::Truncated);
    }
    let w: u32 = toks[0];
    let h: u32 = toks[1];
    let max_value: u32 = toks[2];
    proof {
        assert((w as int) * (h as int) <= 0xfffffffffffffffe) by (nonlinear_arith)
            requires
                0 <= w as int <= 0xffffffff,
                0 <= h as int <= 0xffffffff;
    }
    let count: u64 = (w as u64) * (h as u64);
    let need: u128 = 3 + 3 * (count as u128);
    if (toks.len() as u128) < need {
        return Err(PpmError::Truncated);
    }
    let n: usize = count as usize;
    let toks_len: usize = toks.len();
    let mut pixels: Vec<(u32, u32, u32)> = Vec::new();
    let mut j: usize = 0;
    while j < n
        invariant
            0 <= j <= n,
            n == (w as int) * (h as int),
            toks_len == toks@.len(),
            3 + 3 * (n as int) <= toks_len,
            pixels@.len() == j as int,
            forall|q: int|
                0 <= q < j as int ==> (#[trigger] pixels@[q]) == ((
                toks@[3 + 3 * q],
                toks@[3 + 3 * q + 1],
                toks@[3 + 3 * q + 2],
            )),
        decreases n - j,
    {
        proof {
            assert(3 * (j as int) + 5 < 3 + 3 * (n as int)) by (nonlinear_arith)
                requires
                    0 <= (j as int) < (n as int);
        }
        let base: usize = 3 + 3 * j;
        pixels.push((toks[base], toks[base + 1], toks[base + 2]));
        j = j + 1;
    }
    proof {
        assert(forall|q: int|
            0 <= q < spec_toks.len() ==> #[trigger] spec_toks[q] == toks@.map_values(
                |t: u32| t as nat,
            )[q]);
    }
    Ok(PpmImage { width: w, height: h, max_value, pixels })
}

/// The differenced channel: each side normalized by its own scale, the
/// absolute difference carried to a scale of 255 and rounded to the
/// nearest integer, clamping anything past full scale.
pub open spec fn diff_channel_spec(x: nat, ma: nat, y: nat, mb: nat) -> nat {
    let d = if x * mb >= y * ma {
        x * mb - y * ma
    } else {
        y * ma - x * mb
    };
    let q = ma * mb;
    let rounded = ((2 * (255 * d) + q) as int) / ((2 * q) as int);
    if rounded > 255 {
        255
    } else {
        rounded as nat
    }
}

/// One differenced channel, in exact integer arithmetic.
fn diff_channel(x: u32, ma: u32, y: u32, mb: u32) -> (r: u32)
    requires
        ma >= 1,
        mb >= 1,
    ensures
        r == diff_channel_spec(x as nat, ma as nat, y as nat, mb as nat),
        r <= 255,
{
    proof {
        assert((ma as int) * (mb as int) >= 1) by (nonlinear_arith)
            requires
                ma as int >= 1,
                mb as int >= 1;
        assert((x as int) * (mb as int) <= 0xffffffffffffffff && (y as int) * (ma as int)
            <= 0xffffffffffffffff) by (nonlinear_arith)
            requires
                0 <= x as int <= 0xffffffff,
                0 <= y as int <= 0xffffffff,
                0 <= ma as int <= 0xffffffff,
                0 <= mb as int <= 0xffffffff;
        assert((ma as int) * (mb as int) <= 0xffffffffffffffff) by (nonlinear_arith)
            requires
                0 <= ma as int <= 0xffffffff,
                0 <= mb as int <= 0xffffffff;
    }
    let xs: u128 = (x as u128) * (mb as u128);
    let ys: u128 = (y as u128) * (ma as u128);
    let d: u128 = if xs >= ys {
        xs - ys
    } else {
        ys - xs
    };
    let q: u128 = (ma as u128) * (mb as u128);
    let rounded: u128 = (2 * (255 * d) + q) / (2 * q);
    if rounded > 255 {
        255
    } else {
        rounded as u32
    }
}

/// The per-pixel difference of two images of equal declared dimensions,
/// each normalized by its own channel scale. Differing dimensions and a
/// zero scale are rejected, in that order of precedence.
pub fn diff_images(a: &PpmImage, b: &PpmImage) -> (r: Result<Vec<(u32, u32, u32)>, PpmError>)
    requires
        a.wf(),
        b.wf(),
    ensures
        (a.width != b.width || a.height != b.height) <==> r == Err::<
            Vec<(u32, u32, u32)>,
            PpmError,
        >(PpmError::DimensionMismatch),
        a.width == b.width && a.height == b.height && (a.max_value == 0 || b.max_value == 0)
            <==> r == Err::<Vec<(u32, u32, u32)>, PpmError>(PpmError::ZeroMaxValue),
        r matches Ok(v) ==> {
            &&& v@.len() == a.pixels@.len()
            &&& forall|k: int|
                0 <= k < v@.len() ==> (#[trigger] v@[k]) == ((
                diff_channel_spec(
                    a.pixels@[k].0 as nat,
                    a.max_value as nat,
                    b.pixels@[k].0 as nat,
                    b.max_value as nat,
                ) as u32,
                diff_channel_spec(
                    a.pixels@[k].1 as nat,
                    a.max_value as nat,
                    b.pixels@[k].1 as nat,
                    b.max_value as nat,
                ) as u32,
                diff_channel_spec(
                    a.pixels@[k].2 as nat,
                    a.max_value as nat,
                    b.pixels@[k].2 as nat,
                    b.max_value as nat,
                ) as u32,
            ))
        },
{
    if a.width != b.width || a.height != b.height {
        return Err(PpmError::DimensionMismatch);
    }
    if a.max_value == 0 || b.max_value == 0 {
        return Err(PpmError::ZeroMaxValue);
    }
    let n: usize = a.pixels.len();
    proof {
        assert(b.pixels@.len() == n as int);
    }
    let mut out: Vec<(u32, u32, u32)> = Vec::new();
    let mut k: usize = 0;
    while k < n
        invariant
            0 <= k <= n,
            n == a.pixels@.len(),
            n == b.pixels@.len(),
            a.max_value >= 1,
            b.max_value >= 1,
            out@.len() == k as int,
            forall|q: int|
                0 <= q < k as int ==> (#[trigger] out@[q]) == ((
                diff_channel_spec(
                    a.pixels@[q].0 as nat,
                    a.max_value as nat,
                    b.pixels@[q].0 as nat,
                    b.max_value as nat,
                ) as u32,
                diff_channel_spec(
                    a.pixels@[q].1 as nat,
                    a.max_value as nat,
                    b.pixels@[q].1 as nat,
                    b.max_value as nat,
                ) as u32,
                diff_channel_spec(
                    a.pixels@[q].2 as nat,
                    a.max_value as nat,
                    b.pixels@[q].2 as nat,
                    b.max_value as nat,
                ) as u32,
            )),
        decreases n - k,
    {
        let pa: (u32, u32, u32) = a.pixels[k];
        let pb: (u32, u32, u32) = b.pixels[k];
        let dr: u32 = diff_channel(pa.0, a.max_value, pb.0, b.max_value);
        let dg: u32 = diff_channel(pa.1, a.max_value, pb.1, b.max_value);
        let db: u32 = diff_channel(pa.2, a.max_value, pb.2, b.max_value);
        out.push((dr, dg, db));
        k = k + 1;
    }
    Ok(out)
}

} // verus!
