//! The shading rule and the per-pixel sampling integrator.

use vstd::prelude::*;
use vstd::arithmetic::div_mod::{
    lemma_div_pos_is_pos, lemma_div_is_ordered, lemma_div_multiples_vanish, lemma_div_denominator,
};
use crate::camera::{Camera, camera_ray_spec};
use crate::fx::{SCALE, fx_mul_spec, fx_div_spec, fx_mul, fx_div, fx_from_int, lemma_mul_le};
use crate::hittable::HitRecord;
use crate::hittable_list::{HittableList, scene_hit_matches};
use crate::ray::{Ray, COORD_MAX};
use crate::sphere::Sphere;
use crate::vec3::{Vec3, V3, vadd, vscale, vdiv, vbounded};

verus! {

/// The shading of a hit: the unit normal carried from `[-1, 1]` to
/// `[0, 1]` per channel.
pub open spec fn shade_hit_spec(h: HitRecord) -> V3 {
    vdiv(
        vadd(h.normal.v(), V3 { x: SCALE as int, y: SCALE as int, z: SCALE as int }),
        2 * (SCALE as int),
    )
}

/// The background gradient for a missed ray: white at the bottom of the
/// direction range blending to sky blue at the top.
pub open spec fn background_spec(dir: V3) -> V3 {
    let t = fx_mul_spec((SCALE as int) / 2, dir.y + SCALE);
    vadd(
        vscale(V3 { x: SCALE as int, y: SCALE as int, z: SCALE as int }, (SCALE as int) - t),
        vscale(
            V3 { x: (SCALE as int) / 2, y: 7 * (SCALE as int) / 10, z: SCALE as int },
            t,
        ),
    )
}

/// Every channel lies in the unit range `[0, SCALE]`.
pub open spec fn color_in_unit(c: V3) -> bool {
    &&& 0 <= c.x <= SCALE as int
    &&& 0 <= c.y <= SCALE as int
    &&& 0 <= c.z <= SCALE as int
}

/// `c` is a correct shading of `ray` against `objs`: the shaded nearest
/// hit when one exists, else the background gradient. Which hit answers
/// when two primitives tie is inherited from the scene's non-guarantee.
pub open spec fn ray_color_matches(objs: Seq<Sphere>, ray: Ray, c: V3) -> bool {
    ||| exists|h: HitRecord|
        #[trigger] scene_hit_matches(objs, ray, 0, COORD_MAX as int, Some(h)) && c
            == shade_hit_spec(h)
    ||| scene_hit_matches(objs, ray, 0, COORD_MAX as int, None) && c == background_spec(
        ray.dir(),
    )
}

/// `c` is a correct color for image-plane coordinates `(u, v)`.
pub open spec fn uv_color_matches(rt: Raytracer, u: int, v: int, c: V3) -> bool {
    ray_color_matches(rt.world.objects@, camera_ray_spec(rt.camera, u, v), c)
}

/// The componentwise sum of a sequence of colors.
pub open spec fn color_sum(cs: Seq<V3>) -> V3
    decreases cs.len(),
{
    if cs.len() == 0 {
        crate::vec3::vzero()
    } else {
        vadd(color_sum(cs.drop_last()), cs.last())
    }
}

/// Appending a color adds it to the sum.
proof fn lemma_color_sum_push(cs: Seq<V3>, s: V3)
    ensures
        color_sum(cs.push(s)) == vadd(color_sum(cs), s),
{
    let p = cs.push(s);
    assert(p.drop_last() =~= cs);
    assert(p.last() == s);
}

/// `c` is the floor-average of `n` jittered samples of the pixel region
/// with corner `(u, v)` and extents `(width, height)`: each sample is a
/// correct color for coordinates inside the region's window.
pub open spec fn region_samples_match(
    rt: Raytracer,
    u: int,
    v: int,
    width: int,
    height: int,
    us: Seq<int>,
    vs: Seq<int>,
    cs: Seq<V3>,
    n: int,
    c: V3,
) -> bool {
    &&& us.len() == n
    &&& vs.len() == n
    &&& cs.len() == n
    &&& forall|i: int| 0 <= i < n ==> u <= #[trigger] us[i] <= u + width
    &&& forall|i: int| 0 <= i < n ==> v <= #[trigger] vs[i] <= v + height
    &&& forall|i: int| 0 <= i < n ==> uv_color_matches(rt, us[i], vs[i], #[trigger] cs[i])
    &&& c == (V3 {
        x: color_sum(cs).x / n,
        y: color_sum(cs).y / n,
        z: color_sum(cs).z / n,
    })
}

/// Relies on rand::random: one uniformly drawn `u32` from the thread's
/// generator; nothing is promised of the value.
#[verifier::external_body]
fn random_u32() -> u32 {
    rand::random::<u32>()
}

/// Drives the camera and the scene to turn rays into colors.
pub struct Raytracer {
    pub camera: Camera,
    pub world: HittableList,
}

impl Raytracer {
    pub open spec fn wf(self) -> bool {
        &&& self.camera.wf()
        &&& self.world.wf()
    }

    pub fn new(camera: Camera, world: HittableList) -> (r: Raytracer)
        requires
            camera.wf(),
            world.wf(),
        ensures
            r.camera == camera,
            r.world == world,
            r.wf(),
    {
        Raytracer { camera, world }
    }

    /// The deterministic shading of one ray: the normal visualization of
    /// the nearest hit over `[0, COORD_MAX)`, or the background gradient.
    pub fn ray_color(&self, ray: &Ray) -> (c: Vec3)
        requires
            self.wf(),
            ray.wf(),
        ensures
            ray_color_matches(self.world.objects@, *ray, c.v()),
            color_in_unit(c.v()),
    {
        let hit: Option<HitRecord> = self.world.hit(ray, 0, COORD_MAX);
        match hit {
            Some(h) => {
                proof {
                    lemma_shade_in_unit(h);
                }
                let one: Vec3 = Vec3::one();
                h.normal.add(&one).div(2 * SCALE)
            },
            None => {
                let d: Vec3 = ray.unit_dir();
                proof {
                    lemma_background_in_unit(ray.dir());
                }
                let t: i64 = fx_mul(SCALE / 2, d.y + SCALE);
                let white_part: Vec3 = Vec3::one().scale(SCALE - t);
                let sky: Vec3 = Vec3::new(SCALE / 2, 7 * SCALE / 10, SCALE);
                let sky_part: Vec3 = sky.scale(t);
                white_part.add(&sky_part)
            },
        }
    }

    /// The color at image-plane coordinates `(u, v)`.
    pub fn uv_color(&self, u: i64, v: i64) -> (c: Vec3)
        requires
            self.wf(),
            -4 * (SCALE as int) <= u <= 4 * (SCALE as int),
            -4 * (SCALE as int) <= v <= 4 * (SCALE as int),
        ensures
            uv_color_matches(*self, u as int, v as int, c.v()),
            color_in_unit(c.v()),
    {
        match self.camera.get_ray(u, v) {
            Ok(ray) => self.ray_color(&ray),
            Err(_) => vstd::pervasive::unreached(),
        }
    }

    /// The color of the pixel region with corner `(u, v)` and extents
    /// `(width, height)`. One sample evaluates the region center exactly
    /// and deterministically; more samples average independently jittered
    /// draws, and every outcome stays a unit-range color.
    pub fn region_color(&self, u: i64, v: i64, width: i64, height: i64, samples: u32) -> (c: Vec3)
        requires
            self.wf(),
            1 <= samples <= 1048576,
            0 <= width <= SCALE as int,
            0 <= height <= SCALE as int,
            -4 * (SCALE as int) <= u,
            u + width <= 4 * (SCALE as int),
            -4 * (SCALE as int) <= v,
            v + height <= 4 * (SCALE as int),
        ensures
            samples == 1 ==> uv_color_matches(
                *self,
                u as int + (width as int) / 2,
                v as int + (height as int) / 2,
                c.v(),
            ),
            samples > 1 ==> exists|us: Seq<int>, vs: Seq<int>, cs: Seq<V3>|
                region_samples_match(
                    *self,
                    u as int,
                    v as int,
                    width as int,
                    height as int,
                    us,
                    vs,
                    cs,
                    samples as int,
                    c.v(),
                ),
            color_in_unit(c.v()),
    {
        if samples == 1 {
            return self.uv_color(u + width / 2, v + height / 2);
        }
        let mut acc: Vec3 = Vec3::zero();
        let mut k: u32 = 0;
        let ghost mut us: Seq<int> = Seq::empty();
        let ghost mut vs: Seq<int> = Seq::empty();
        let ghost mut cs: Seq<V3> = Seq::empty();
        while k < samples
            invariant
                self.wf(),
                1 <= samples <= 1048576,
                0 <= width <= SCALE as int,
                0 <= height <= SCALE as int,
                -4 * (SCALE as int) <= u,
                u + width <= 4 * (SCALE as int),
                -4 * (SCALE as int) <= v,
                v + height <= 4 * (SCALE as int),
                0 <= k <= samples,
                us.len() == k as int,
                vs.len() == k as int,
                cs.len() == k as int,
                forall|i: int| 0 <= i < k as int ==> u <= #[trigger] us[i] <= u + width,
                forall|i: int| 0 <= i < k as int ==> v <= #[trigger] vs[i] <= v + height,
                forall|i: int|
                    0 <= i < k as int ==> uv_color_matches(*self, us[i], vs[i], #[trigger] cs[i]),
                acc.v() == color_sum(cs),
                0 <= acc.v().x <= (k as int) * (SCALE as int),
                0 <= acc.v().y <= (k as int) * (SCALE as int),
                0 <= acc.v().z <= (k as int) * (SCALE as int),
            decreases samples - k,
        {
            let r1: u32 = random_u32();
            let r2: u32 = random_u32();
            proof {
                assert(r1 >> 12 < 1048576 && r2 >> 12 < 1048576) by (bit_vector);
            }
            let f1: i64 = (r1 >> 12) as i64;
            let f2: i64 = (r2 >> 12) as i64;
            proof {
                lemma_jitter_in_span(width as int, f1 as int);
                lemma_jitter_in_span(height as int, f2 as int);
            }
            let du: i64 = fx_mul(width, f1);
            let dv: i64 = fx_mul(height, f2);
            let sample: Vec3 = self.uv_color(u + du, v + dv);
            proof {
                lemma_color_sum_push(cs, sample.v());
                us = us.push(u as int + du as int);
                vs = vs.push(v as int + dv as int);
                cs = cs.push(sample.v());
            }
            acc = acc.add(&sample);
            k = k + 1;
        }
        proof {
            lemma_average_in_unit(acc.v().x, samples as int);
            lemma_average_in_unit(acc.v().y, samples as int);
            lemma_average_in_unit(acc.v().z, samples as int);
        }
        let denom: i64 = fx_from_int(samples as i64);
        let c: Vec3 = acc.div(denom);
        proof {
            assert(region_samples_match(
                *self,
                u as int,
                v as int,
                width as int,
                height as int,
                us,
                vs,
                cs,
                samples as int,
                c.v(),
            ));
        }
        c
    }
}

/// The normalized horizontal coordinate of pixel column (or row) `x` in
/// an image extent of `extent` pixels.
pub open spec fn pixel_uv(x: int, extent: int) -> int {
    crate::math::map_affine(
        x * (SCALE as int),
        0,
        (extent - 1) * (SCALE as int),
        -(SCALE as int),
        SCALE as int,
    )
}

/// The normalized span of one pixel in an image extent of `extent` pixels.
pub open spec fn pixel_span(extent: int) -> int {
    fx_div_spec(2 * (SCALE as int), extent * (SCALE as int))
}

/// `c` is a correct single-sample color for pixel `(x, y)`: the exact
/// evaluation at the pixel's center.
pub open spec fn pixel_center_matches(
    rt: Raytracer,
    x: int,
    y: int,
    width: int,
    height: int,
    c: V3,
) -> bool {
    uv_color_matches(
        rt,
        pixel_uv(x, width) + pixel_span(width) / 2,
        pixel_uv(y, height) + pixel_span(height) / 2,
        c,
    )
}

/// `c` is a correct multi-sample color for pixel `(x, y)`: the
/// floor-average of `n` correct sample colors, each drawn inside the
/// pixel's region.
pub open spec fn pixel_region_matches(
    rt: Raytracer,
    x: int,
    y: int,
    width: int,
    height: int,
    n: int,
    c: V3,
) -> bool {
    exists|us: Seq<int>, vs: Seq<int>, cs: Seq<V3>|
        region_samples_match(
            rt,
            pixel_uv(x, width),
            pixel_uv(y, height),
            pixel_span(width),
            pixel_span(height),
            us,
            vs,
            cs,
            n,
            c,
        )
}

/// The framebuffer entry for column `x` of the `rr`-th emitted row.
pub open spec fn fb_pixel(fb: Seq<Vec3>, rr: int, x: int, width: int) -> Vec3 {
    fb[rr * width + x]
}

/// A pixel span is a nonnegative fraction of at most one unit.
proof fn lemma_pixel_span_bounds(extent: int)
    requires
        2 <= extent <= 0x100000000,
    ensures
        0 <= pixel_span(extent) <= SCALE as int,
{
    let sc: int = SCALE as int;
    let num: int = (2 * sc) * sc;
    assert(num >= 0 && extent * sc >= 2 * sc) by (nonlinear_arith)
        requires
            sc >= 1,
            extent >= 2,
            num == (2 * sc) * sc;
    lemma_div_pos_is_pos(num, extent * sc);
    vstd::arithmetic::div_mod::lemma_div_is_ordered_by_denominator(num, 2 * sc, extent * sc);
    lemma_div_multiples_vanish(sc, 2 * sc);
    assert(((2 * sc) * sc) / (2 * sc) == sc) by {
        assert((2 * sc) * sc == sc * (2 * sc)) by (nonlinear_arith);
        lemma_div_multiples_vanish(sc, 2 * sc);
    }
}

impl Raytracer {
    /// Renders one row of pixels, left to right.
    pub fn render_row(&self, y: u32, width: u32, height: u32, samples: u32) -> (row: Vec<Vec3>)
        requires
            self.wf(),
            2 <= width,
            2 <= height,
            y < height,
            1 <= samples <= 1048576,
        ensures
            row@.len() == width as int,
            forall|x: int| 0 <= x < width as int ==> color_in_unit((#[trigger] row@[x]).v()),
            samples == 1 ==> forall|x: int|
                0 <= x < width as int ==> pixel_center_matches(
                    *self,
                    x,
                    y as int,
                    width as int,
                    height as int,
                    (#[trigger] row@[x]).v(),
                ),
            samples > 1 ==> forall|x: int|
                0 <= x < width as int ==> pixel_region_matches(
                    *self,
                    x,
                    y as int,
                    width as int,
                    height as int,
                    samples as int,
                    (#[trigger] row@[x]).v(),
                ),
    {
        proof {
            lemma_pixel_span_bounds(width as int);
            lemma_pixel_span_bounds(height as int);
        }
        let two: i64 = fx_from_int(2);
        let pw: i64 = fx_div(two, fx_from_int(width as i64));
        let ph: i64 = fx_div(two, fx_from_int(height as i64));
        let py: i64 = fx_from_int(y as i64);
        let mut row: Vec<Vec3> = Vec::new();
        let mut x: u32 = 0;
        while x < width
            invariant
                self.wf(),
                2 <= width,
                2 <= height,
                y < height,
                1 <= samples <= 1048576,
                pw == pixel_span(width as int),
                ph == pixel_span(height as int),
                0 <= pw <= SCALE as int,
                0 <= ph <= SCALE as int,
                py == (y as int) * (SCALE as int),
                0 <= x <= width,
                row@.len() == x as int,
                forall|j: int| 0 <= j < x as int ==> color_in_unit((#[trigger] row@[j]).v()),
                samples == 1 ==> forall|j: int|
                    0 <= j < x as int ==> pixel_center_matches(
                        *self,
                        j,
                        y as int,
                        width as int,
                        height as int,
                        (#[trigger] row@[j]).v(),
                    ),
                samples > 1 ==> forall|j: int|
                    0 <= j < x as int ==> pixel_region_matches(
                        *self,
                        j,
                        y as int,
                        width as int,
                        height as int,
                        samples as int,
                        (#[trigger] row@[j]).v(),
                    ),
            decreases width - x,
        {
            let px: i64 = fx_from_int(x as i64);
            let uv: (i64, i64) = crate::math::get_uv(px, py, width, height);
            let c: Vec3 = self.region_color(uv.0, uv.1, pw, ph, samples);
            proof {
                if samples > 1 {
                    assert(uv.0 == pixel_uv(x as int, width as int));
                    assert(uv.1 == pixel_uv(y as int, height as int));
                    let (us, vs, cs) = choose|us: Seq<int>, vs: Seq<int>, cs: Seq<V3>|
                        region_samples_match(
                            *self,
                            uv.0 as int,
                            uv.1 as int,
                            pw as int,
                            ph as int,
                            us,
                            vs,
                            cs,
                            samples as int,
                            c.v(),
                        );
                    assert(region_samples_match(
                        *self,
                        pixel_uv(x as int, width as int),
                        pixel_uv(y as int, height as int),
                        pixel_span(width as int),
                        pixel_span(height as int),
                        us,
                        vs,
                        cs,
                        samples as int,
                        c.v(),
                    ));
                    assert(pixel_region_matches(
                        *self,
                        x as int,
                        y as int,
                        width as int,
                        height as int,
                        samples as int,
                        c.v(),
                    ));
                }
            }
            row.push(c);
            x = x + 1;
        }
        row
    }

    /// Renders the whole image into a framebuffer in raster order: rows
    /// from the highest row index down to zero, columns left to right.
    /// The pixel for column `x` of row `y` stands at index
    /// `(height - 1 - y) * width + x`.
    pub fn render(&self, width: u32, height: u32, samples: u32) -> (fb: Vec<Vec3>)
        requires
            self.wf(),
            2 <= width,
            2 <= height,
            (width as int) * (height as int) <= 0x40000000,
            1 <= samples <= 1048576,
        ensures
            fb@.len() == (width as int) * (height as int),
            forall|k: int| 0 <= k < fb@.len() ==> color_in_unit((#[trigger] fb@[k]).v()),
            samples == 1 ==> forall|r: int, x: int|
                0 <= r < height as int && 0 <= x < width as int ==> pixel_center_matches(
                    *self,
                    x,
                    height as int - 1 - r,
                    width as int,
                    height as int,
                    (#[trigger] fb_pixel(fb@, r, x, width as int)).v(),
                ),
            samples > 1 ==> forall|r: int, x: int|
                0 <= r < height as int && 0 <= x < width as int ==> pixel_region_matches(
                    *self,
                    x,
                    height as int - 1 - r,
                    width as int,
                    height as int,
                    samples as int,
                    (#[trigger] fb_pixel(fb@, r, x, width as int)).v(),
                ),
    {
        let mut fb: Vec<Vec3> = Vec::new();
        let mut r: u32 = 0;
        proof {
            lemma_row_products(width as int, height as int);
        }
        while r < height
            invariant
                self.wf(),
                2 <= width,
                2 <= height,
                (width as int) * (height as int) <= 0x40000000,
                1 <= samples <= 1048576,
                0 <= r <= height,
                fb@.len() == (r as int) * (width as int),
                (r as int) * (width as int) <= (width as int) * (height as int),
                forall|k: int| 0 <= k < fb@.len() ==> color_in_unit((#[trigger] fb@[k]).v()),
                samples == 1 ==> forall|rr: int, x: int|
                    0 <= rr < r as int && 0 <= x < width as int ==> pixel_center_matches(
                        *self,
                        x,
                        height as int - 1 - rr,
                        width as int,
                        height as int,
                        (#[trigger] fb_pixel(fb@, rr, x, width as int)).v(),
                    ),
                samples > 1 ==> forall|rr: int, x: int|
                    0 <= rr < r as int && 0 <= x < width as int ==> pixel_region_matches(
                        *self,
                        x,
                        height as int - 1 - rr,
                        width as int,
                        height as int,
                        samples as int,
                        (#[trigger] fb_pixel(fb@, rr, x, width as int)).v(),
                    ),
            decreases height - r,
        {
            let ghost old_fb = fb@;
            let y: u32 = height - 1 - r;
            let mut row: Vec<Vec3> = self.render_row(y, width, height, samples);
            let ghost row_view = row@;
            proof {
                lemma_row_products(width as int, height as int);
                assert((r as int + 1) * (width as int) == (r as int) * (width as int) + (
                width as int)) by (nonlinear_arith);
                assert((r as int + 1) * (width as int) <= (height as int) * (width as int))
                    by (nonlinear_arith)
                    requires
                        r as int + 1 <= height as int,
                        width as int >= 0;
                assert((height as int) * (width as int) == (width as int) * (height as int))
                    by (nonlinear_arith);
            }
            fb.append(&mut row);
            proof {
                assert(fb@ == old_fb + row_view);
                assert forall|rr: int, x: int|
                    0 <= rr < r as int + 1 && 0 <= x < width as int implies #[trigger] fb_pixel(
                    fb@,
                    rr,
                    x,
                    width as int,
                ) == if rr < r as int {
                    fb_pixel(old_fb, rr, x, width as int)
                } else {
                    row_view[x]
                } by {
                    lemma_index_in_row(rr, x, r as int, width as int, old_fb.len() as int);
                }
            }
            r = r + 1;
        }
        proof {
            assert((height as int) * (width as int) == (width as int) * (height as int))
                by (nonlinear_arith);
        }
        fb
    }
}

/// Row-by-row index arithmetic: an index within the freshly appended row
/// falls past the old contents, and an index in an earlier row does not.
proof fn lemma_index_in_row(rr: int, x: int, r: int, width: int, old_len: int)
    requires
        0 <= rr <= r,
        0 <= x < width,
        old_len == r * width,
    ensures
        rr < r ==> 0 <= rr * width + x < old_len,
        rr == r ==> rr * width + x == old_len + x,
{
    assert(rr < r ==> 0 <= rr * width + x < r * width) by (nonlinear_arith)
        requires
            0 <= rr,
            0 <= x < width,
            rr <= r;
    assert(rr == r ==> rr * width + x == r * width + x);
}

/// The row size bounds used by the framebuffer loop.
proof fn lemma_row_products(width: int, height: int)
    requires
        2 <= width,
        2 <= height,
    ensures
        0 * width == 0,
        width * height >= 0,
{
    assert(0 * width == 0 && width * height >= 0) by (nonlinear_arith)
        requires
            width >= 0,
            height >= 0;
}

/// Shading a hit record yields unit-range channels.
proof fn lemma_shade_in_unit(h: HitRecord)
    requires
        vbounded(h.normal.v(), SCALE as int),
    ensures
        color_in_unit(shade_hit_spec(h)),
        fx_div_spec(h.normal.v().x + (SCALE as int), 2 * (SCALE as int)) == shade_hit_spec(h).x,
        fx_div_spec(h.normal.v().y + (SCALE as int), 2 * (SCALE as int)) == shade_hit_spec(h).y,
        fx_div_spec(h.normal.v().z + (SCALE as int), 2 * (SCALE as int)) == shade_hit_spec(h).z,
{
    lemma_half_scale_unit(h.normal.v().x + (SCALE as int));
    lemma_half_scale_unit(h.normal.v().y + (SCALE as int));
    lemma_half_scale_unit(h.normal.v().z + (SCALE as int));
}

/// Dividing a value in `[0, 2 * SCALE]` by the scalar two lands in the
/// unit range.
proof fn lemma_half_scale_unit(val: int)
    requires
        0 <= val <= 2 * (SCALE as int),
    ensures
        0 <= fx_div_spec(val, 2 * (SCALE as int)) <= SCALE as int,
{
    let sc: int = SCALE as int;
    lemma_mul_le(val, sc, 2 * sc, sc);
    lemma_div_pos_is_pos(val * sc, 2 * sc);
    assert(val * sc <= (2 * sc) * sc) by (nonlinear_arith)
        requires
            0 <= val <= 2 * sc,
            sc >= 1;
    lemma_div_is_ordered(val * sc, (2 * sc) * sc, 2 * sc);
    lemma_div_multiples_vanish(sc, 2 * sc);
}

/// The background gradient has unit-range channels.
proof fn lemma_background_in_unit(dir: V3)
    requires
        -(SCALE as int) <= dir.y <= SCALE as int,
    ensures
        color_in_unit(background_spec(dir)),
        ({
            let t = fx_mul_spec((SCALE as int) / 2, dir.y + SCALE);
            0 <= t <= SCALE as int
        }),
        ({
            let t = fx_mul_spec((SCALE as int) / 2, dir.y + SCALE);
            &&& fx_mul_spec(SCALE as int, (SCALE as int) - t) == (SCALE as int) - t
            &&& 0 <= fx_mul_spec((SCALE as int) / 2, t) <= t
            &&& 0 <= fx_mul_spec(7 * (SCALE as int) / 10, t) <= t
            &&& 0 <= fx_mul_spec(SCALE as int, t) <= t
        }),
{
    let sc: int = SCALE as int;
    let e: int = dir.y + sc;
    let t: int = fx_mul_spec(sc / 2, e);
    assert(0 <= (sc / 2) * e <= sc * sc) by (nonlinear_arith)
        requires
            0 <= e <= 2 * sc,
            sc == 1048576;
    lemma_div_pos_is_pos((sc / 2) * e, sc);
    lemma_div_is_ordered((sc / 2) * e, sc * sc, sc);
    lemma_div_multiples_vanish(sc, sc);
    assert(sc * sc == sc * sc) by (nonlinear_arith);
    assert(t <= sc);
    lemma_scale_frac_unit(sc, sc - t);
    lemma_scale_frac_unit(sc / 2, t);
    lemma_scale_frac_unit(7 * sc / 10, t);
    lemma_scale_frac_unit(sc, t);
    assert(fx_mul_spec(sc, sc - t) == sc - t) by {
        lemma_div_multiples_vanish(sc - t, sc);
        assert(sc * (sc - t) == (sc - t) * sc) by (nonlinear_arith);
        assert((sc * (sc - t)) / sc == sc - t);
    }
}

/// Scaling a fraction in `[0, SCALE]` by a factor in `[0, SCALE]` stays
/// within the fraction.
proof fn lemma_scale_frac_unit(f: int, t: int)
    requires
        0 <= f <= SCALE as int,
        0 <= t <= SCALE as int,
    ensures
        0 <= fx_mul_spec(f, t) <= t,
{
    let sc: int = SCALE as int;
    assert(0 <= f * t <= sc * t) by (nonlinear_arith)
        requires
            0 <= f <= sc,
            0 <= t;
    lemma_div_pos_is_pos(f * t, sc);
    lemma_div_is_ordered(f * t, sc * t, sc);
    lemma_div_multiples_vanish(t, sc);
}

/// A jitter offset scaled into a span of at most one pixel stays inside
/// the span.
proof fn lemma_jitter_in_span(span: int, frac: int)
    requires
        0 <= span <= SCALE as int,
        0 <= frac < SCALE as int,
    ensures
        0 <= fx_mul_spec(span, frac) <= span,
{
    let sc: int = SCALE as int;
    assert(0 <= span * frac <= span * sc) by (nonlinear_arith)
        requires
            0 <= span,
            0 <= frac <= sc;
    lemma_div_pos_is_pos(span * frac, sc);
    assert(span * sc == sc * span) by (nonlinear_arith);
    lemma_div_is_ordered(span * frac, sc * span, sc);
    lemma_div_multiples_vanish(span, sc);
}

/// Averaging a sum of `n` unit-range channels yields a unit-range channel.
proof fn lemma_average_in_unit(total: int, n: int)
    requires
        1 <= n <= 1048576,
        0 <= total <= n * (SCALE as int),
    ensures
        0 <= fx_div_spec(total, n * (SCALE as int)) <= SCALE as int,
        fx_div_spec(total, n * (SCALE as int)) == total / n,
{
    let sc: int = SCALE as int;
    let d: int = n * sc;
    assert(d >= 1) by (nonlinear_arith)
        requires
            n >= 1,
            sc >= 1,
            d == n * sc;
    assert(total * sc >= 0) by (nonlinear_arith)
        requires
            total >= 0,
            sc >= 0;
    lemma_div_denominator(total * sc, sc, n);
    lemma_div_multiples_vanish(total, sc);
    assert(total * sc == sc * total) by (nonlinear_arith);
    assert(sc * n == n * sc) by (nonlinear_arith);
    assert(fx_div_spec(total, d) == total / n);
    lemma_div_pos_is_pos(total, n);
    lemma_div_is_ordered(total, n * sc, n);
    assert((n * sc) / n == sc) by {
        assert(n * sc == sc * n) by (nonlinear_arith);
        lemma_div_multiples_vanish(sc, n);
    }
}

} // verus!
