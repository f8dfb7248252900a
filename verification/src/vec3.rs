//! Three-component fixed-point vectors, also used as linear colors.

use vstd::prelude::*;
use vstd::arithmetic::div_mod::{
    lemma_fundamental_div_mod, lemma_fundamental_div_mod_converse,
    lemma_mod_division_less_than_divisor, lemma_div_is_ordered, lemma_div_pos_is_pos,
    lemma_div_by_multiple,
};
use crate::fx::{
    SCALE, fits_i64, fx_mul_spec, fx_div_spec, fx_mul, fx_div, isqrt_spec, isqrt_u128,
    lemma_div_neg_numerator,
};

verus! {

/// Mathematical view of a vector: three unbounded integer components,
/// each a count of fixed-point steps.
pub struct V3 {
    pub x: int,
    pub y: int,
    pub z: int,
}

/// Failure of an operation that needs a direction: the zero vector has none.
#[derive(Clone, Copy, PartialEq, Eq, Structural, Debug)]
pub enum GeomError {
    DegenerateVector,
}

pub open spec fn vzero() -> V3 {
    V3 { x: 0, y: 0, z: 0 }
}

pub open spec fn vadd(a: V3, b: V3) -> V3 {
    V3 { x: a.x + b.x, y: a.y + b.y, z: a.z + b.z }
}

pub open spec fn vsub(a: V3, b: V3) -> V3 {
    V3 { x: a.x - b.x, y: a.y - b.y, z: a.z - b.z }
}

pub open spec fn vneg(a: V3) -> V3 {
    V3 { x: -a.x, y: -a.y, z: -a.z }
}

/// Componentwise fixed-point product.
pub open spec fn vmul(a: V3, b: V3) -> V3 {
    V3 {
        x: fx_mul_spec(a.x, b.x),
        y: fx_mul_spec(a.y, b.y),
        z: fx_mul_spec(a.z, b.z),
    }
}

/// The vector scaled by the scalar `s`.
pub open spec fn vscale(a: V3, s: int) -> V3 {
    V3 {
        x: fx_mul_spec(a.x, s),
        y: fx_mul_spec(a.y, s),
        z: fx_mul_spec(a.z, s),
    }
}

/// The vector divided by the scalar `s`.
pub open spec fn vdiv(a: V3, s: int) -> V3 {
    V3 {
        x: fx_div_spec(a.x, s),
        y: fx_div_spec(a.y, s),
        z: fx_div_spec(a.z, s),
    }
}

/// The exact integer sum of squared components (`SCALE * SCALE` times
/// the squared length of the value the vector stands for).
pub open spec fn vqsum(a: V3) -> int {
    a.x * a.x + a.y * a.y + a.z * a.z
}

/// Fixed-point dot product: the component products are summed exactly
/// and rounded down once.
pub open spec fn vdot(a: V3, b: V3) -> int {
    (a.x * b.x + a.y * b.y + a.z * b.z) / (SCALE as int)
}

/// Fixed-point cross product, each component rounded down: the standard
/// right-handed orientation, with `X` cross `Y` equal to `Z`.
pub open spec fn vcross(a: V3, b: V3) -> V3 {
    V3 {
        x: fx_mul_spec(a.y, b.z) - fx_mul_spec(a.z, b.y),
        y: fx_mul_spec(a.z, b.x) - fx_mul_spec(a.x, b.z),
        z: fx_mul_spec(a.x, b.y) - fx_mul_spec(a.y, b.x),
    }
}

/// Fixed-point squared length.
pub open spec fn vlensq(a: V3) -> int {
    vqsum(a) / (SCALE as int)
}

/// Fixed-point length: the integer square root of the exact square sum.
pub open spec fn vlen(a: V3) -> int {
    isqrt_spec(vqsum(a) as nat) as int
}

/// The normalization of `a`: each component divided by the length.
pub open spec fn vnorm(a: V3) -> V3 {
    V3 {
        x: a.x * (SCALE as int) / vlen(a),
        y: a.y * (SCALE as int) / vlen(a),
        z: a.z * (SCALE as int) / vlen(a),
    }
}

/// Every component of `a` is within `b` of zero.
pub open spec fn vbounded(a: V3, b: int) -> bool {
    &&& -b <= a.x <= b
    &&& -b <= a.y <= b
    &&& -b <= a.z <= b
}

/// A three-component fixed-point vector.
#[derive(Clone, Copy, PartialEq, Eq, Structural, Debug)]
pub struct Vec3 {
    pub x: i64,
    pub y: i64,
    pub z: i64,
}

impl Vec3 {
    /// The mathematical view of this vector.
    pub open spec fn v(self) -> V3 {
        V3 { x: self.x as int, y: self.y as int, z: self.z as int }
    }

    pub fn new(x: i64, y: i64, z: i64) -> (r: Vec3)
        ensures
            r.v() == (V3 { x: x as int, y: y as int, z: z as int }),
    {
        Vec3 { x, y, z }
    }

    /// The vector with the same scalar in every component.
    pub fn from_scalar(e: i64) -> (r: Vec3)
        ensures
            r.v() == (V3 { x: e as int, y: e as int, z: e as int }),
    {
        Vec3 { x: e, y: e, z: e }
    }

    pub fn zero() -> (r: Vec3)
        ensures
            r.v() == vzero(),
    {
        Vec3 { x: 0, y: 0, z: 0 }
    }

    /// The vector of ones: `SCALE` in every component.
    pub fn one() -> (r: Vec3)
        ensures
            r.v() == (V3 { x: SCALE as int, y: SCALE as int, z: SCALE as int }),
    {
        Vec3 { x: SCALE, y: SCALE, z: SCALE }
    }

    pub fn unit_x() -> (r: Vec3)
        ensures
            r.v() == (V3 { x: SCALE as int, y: 0, z: 0 }),
    {
        Vec3 { x: SCALE, y: 0, z: 0 }
    }

    pub fn unit_y() -> (r: Vec3)
        ensures
            r.v() == (V3 { x: 0, y: SCALE as int, z: 0 }),
    {
        Vec3 { x: 0, y: SCALE, z: 0 }
    }

    pub fn unit_z() -> (r: Vec3)
        ensures
            r.v() == (V3 { x: 0, y: 0, z: SCALE as int }),
    {
        Vec3 { x: 0, y: 0, z: SCALE }
    }

    pub fn add(&self, rhs: &Vec3) -> (r: Vec3)
        requires
            fits_i64(self.x + rhs.x),
            fits_i64(self.y + rhs.y),
            fits_i64(self.z + rhs.z),
        ensures
            r.v() == vadd(self.v(), rhs.v()),
    {
        Vec3 { x: self.x + rhs.x, y: self.y + rhs.y, z: self.z + rhs.z }
    }

    pub fn sub(&self, rhs: &Vec3) -> (r: Vec3)
        requires
            fits_i64(self.x - rhs.x),
            fits_i64(self.y - rhs.y),
            fits_i64(self.z - rhs.z),
        ensures
            r.v() == vsub(self.v(), rhs.v()),
    {
        Vec3 { x: self.x - rhs.x, y: self.y - rhs.y, z: self.z - rhs.z }
    }

    pub fn neg(&self) -> (r: Vec3)
        requires
            self.x > i64::MIN,
            self.y > i64::MIN,
            self.z > i64::MIN,
        ensures
            r.v() == vneg(self.v()),
    {
        Vec3 { x: -self.x, y: -self.y, z: -self.z }
    }

    /// Componentwise fixed-point product.
    pub fn mul(&self, rhs: &Vec3) -> (r: Vec3)
        requires
            fits_i64(fx_mul_spec(self.x as int, rhs.x as int)),
            fits_i64(fx_mul_spec(self.y as int, rhs.y as int)),
            fits_i64(fx_mul_spec(self.z as int, rhs.z as int)),
        ensures
            r.v() == vmul(self.v(), rhs.v()),
    {
        Vec3 {
            x: fx_mul(self.x, rhs.x),
            y: fx_mul(self.y, rhs.y),
            z: fx_mul(self.z, rhs.z),
        }
    }

    /// The vector scaled by the scalar `s`.
    pub fn scale(&self, s: i64) -> (r: Vec3)
        requires
            fits_i64(fx_mul_spec(self.x as int, s as int)),
            fits_i64(fx_mul_spec(self.y as int, s as int)),
            fits_i64(fx_mul_spec(self.z as int, s as int)),
        ensures
            r.v() == vscale(self.v(), s as int),
    {
        Vec3 { x: fx_mul(self.x, s), y: fx_mul(self.y, s), z: fx_mul(self.z, s) }
    }

    /// The vector divided by the scalar `s`.
    pub fn div(&self, s: i64) -> (r: Vec3)
        requires
            s != 0,
            fits_i64(fx_div_spec(self.x as int, s as int)),
            fits_i64(fx_div_spec(self.y as int, s as int)),
            fits_i64(fx_div_spec(self.z as int, s as int)),
        ensures
            r.v() == vdiv(self.v(), s as int),
    {
        Vec3 { x: fx_div(self.x, s), y: fx_div(self.y, s), z: fx_div(self.z, s) }
    }

    /// Adds `rhs` in place.
    pub fn add_assign(&mut self, rhs: &Vec3)
        requires
            fits_i64(old(self).x + rhs.x),
            fits_i64(old(self).y + rhs.y),
            fits_i64(old(self).z + rhs.z),
        ensures
            final(self).v() == vadd(old(self).v(), rhs.v()),
    {
        self.x = self.x + rhs.x;
        self.y = self.y + rhs.y;
        self.z = self.z + rhs.z;
    }

    /// Subtracts `rhs` in place.
    pub fn sub_assign(&mut self, rhs: &Vec3)
        requires
            fits_i64(old(self).x - rhs.x),
            fits_i64(old(self).y - rhs.y),
            fits_i64(old(self).z - rhs.z),
        ensures
            final(self).v() == vsub(old(self).v(), rhs.v()),
    {
        self.x = self.x - rhs.x;
        self.y = self.y - rhs.y;
        self.z = self.z - rhs.z;
    }

    /// Scales by the scalar `s` in place.
    pub fn mul_assign(&mut self, s: i64)
        requires
            fits_i64(fx_mul_spec(old(self).x as int, s as int)),
            fits_i64(fx_mul_spec(old(self).y as int, s as int)),
            fits_i64(fx_mul_spec(old(self).z as int, s as int)),
        ensures
            final(self).v() == vscale(old(self).v(), s as int),
    {
        self.x = fx_mul(self.x, s);
        self.y = fx_mul(self.y, s);
        self.z = fx_mul(self.z, s);
    }

    /// Divides by the scalar `s` in place.
    pub fn div_assign(&mut self, s: i64)
        requires
            s != 0,
            fits_i64(fx_div_spec(old(self).x as int, s as int)),
            fits_i64(fx_div_spec(old(self).y as int, s as int)),
            fits_i64(fx_div_spec(old(self).z as int, s as int)),
        ensures
            final(self).v() == vdiv(old(self).v(), s as int),
    {
        self.x = fx_div(self.x, s);
        self.y = fx_div(self.y, s);
        self.z = fx_div(self.z, s);
    }

    pub fn dot(&self, rhs: &Vec3) -> (r: i64)
        requires
            vbounded(self.v(), 0x4000000000000000),
            vbounded(rhs.v(), 0x4000000000000000),
            fits_i64(vdot(self.v(), rhs.v())),
        ensures
            r == vdot(self.v(), rhs.v()),
    {
        proof {
            lemma_mul_bound_62(self.x as int, rhs.x as int);
            lemma_mul_bound_62(self.y as int, rhs.y as int);
            lemma_mul_bound_62(self.z as int, rhs.z as int);
        }
        let s: i128 = (self.x as i128) * (rhs.x as i128) + (self.y as i128) * (rhs.y as i128)
            + (self.z as i128) * (rhs.z as i128);
        let q: i128 = crate::fx::floor_div_i128(s, SCALE as i128);
        q as i64
    }

    pub fn cross(&self, rhs: &Vec3) -> (r: Vec3)
        requires
            fits_i64(fx_mul_spec(self.y as int, rhs.z as int)),
            fits_i64(fx_mul_spec(self.z as int, rhs.y as int)),
            fits_i64(fx_mul_spec(self.x as int, rhs.z as int)),
            fits_i64(fx_mul_spec(self.z as int, rhs.x as int)),
            fits_i64(fx_mul_spec(self.x as int, rhs.y as int)),
            fits_i64(fx_mul_spec(self.y as int, rhs.x as int)),
            fits_i64(fx_mul_spec(self.y as int, rhs.z as int) - fx_mul_spec(
                self.z as int,
                rhs.y as int,
            )),
            fits_i64(fx_mul_spec(self.z as int, rhs.x as int) - fx_mul_spec(
                self.x as int,
                rhs.z as int,
            )),
            fits_i64(fx_mul_spec(self.x as int, rhs.y as int) - fx_mul_spec(
                self.y as int,
                rhs.x as int,
            )),
        ensures
            r.v() == vcross(self.v(), rhs.v()),
    {
        let x: i64 = fx_mul(self.y, rhs.z) - fx_mul(self.z, rhs.y);
        let y: i64 = fx_mul(self.z, rhs.x) - fx_mul(self.x, rhs.z);
        let z: i64 = fx_mul(self.x, rhs.y) - fx_mul(self.y, rhs.x);
        Vec3 { x, y, z }
    }

    /// Fixed-point squared length.
    pub fn len_sq(&self) -> (r: i64)
        requires
            vbounded(self.v(), 0x4000000000000000),
            fits_i64(vlensq(self.v())),
        ensures
            r == vlensq(self.v()),
            r >= 0,
    {
        let r: i64 = self.dot(self);
        proof {
            lemma_vqsum_nonneg(self.v());
            lemma_div_pos_is_pos(vqsum(self.v()), SCALE as int);
        }
        r
    }

    /// Fixed-point length.
    pub fn len(&self) -> (r: i64)
        requires
            vbounded(self.v(), 0x4000000000000000),
        ensures
            r == vlen(self.v()),
            r >= 0,
    {
        proof {
            lemma_mul_bound_62(self.x as int, self.x as int);
            lemma_mul_bound_62(self.y as int, self.y as int);
            lemma_mul_bound_62(self.z as int, self.z as int);
            lemma_vqsum_nonneg(self.v());
        }
        let q: i128 = (self.x as i128) * (self.x as i128) + (self.y as i128) * (self.y as i128)
            + (self.z as i128) * (self.z as i128);
        let root: u128 = isqrt_u128(q as u128);
        proof {
            let rt: int = root as int;
            assert(rt <= 0x7fffffffffffffff) by (nonlinear_arith)
                requires
                    rt * rt <= 0x30000000000000000000000000000000,
                    rt >= 0;
        }
        root as i64
    }

    /// Normalizes the vector to unit length. The zero vector has no
    /// direction, so it is rejected with `DegenerateVector`; every other
    /// vector in range is normalized.
    pub fn norm(&self) -> (r: Result<Vec3, GeomError>)
        requires
            vbounded(self.v(), 0x4000000000000000),
        ensures
            self.v() == vzero() <==> r is Err,
            r is Err ==> r == Err::<Vec3, GeomError>(GeomError::DegenerateVector),
            r matches Ok(n) ==> n.v() == vnorm(self.v()) && vbounded(n.v(), SCALE as int),
    {
        let l: i64 = self.len();
        proof {
            lemma_len_zero_iff_zero(self.v());
            if vlen(self.v()) != 0 {
                lemma_norm_component_bounds(self.v());
            }
        }
        if l == 0 {
            Err(GeomError::DegenerateVector)
        } else {
            Ok(Vec3 { x: fx_div(self.x, l), y: fx_div(self.y, l), z: fx_div(self.z, l) })
        }
    }
}

/// Products of scalars within `2^62` stay within `2^124`.
pub(crate) proof fn lemma_mul_bound_62(a: int, b: int)
    requires
        -0x4000000000000000 <= a <= 0x4000000000000000,
        -0x4000000000000000 <= b <= 0x4000000000000000,
    ensures
        -0x10000000000000000000000000000000 <= a * b <= 0x10000000000000000000000000000000,
{
    assert(-0x10000000000000000000000000000000 <= a * b <= 0x10000000000000000000000000000000)
        by (nonlinear_arith)
        requires
            -0x4000000000000000 <= a <= 0x4000000000000000,
            -0x4000000000000000 <= b <= 0x4000000000000000;
}

/// A sum of squares is never negative.
pub(crate) proof fn lemma_vqsum_nonneg(a: V3)
    ensures
        vqsum(a) >= 0,
        a.x * a.x >= 0,
        a.y * a.y >= 0,
        a.z * a.z >= 0,
{
    assert(a.x * a.x >= 0 && a.y * a.y >= 0 && a.z * a.z >= 0) by (nonlinear_arith);
}

/// The length is zero exactly on the zero vector.
pub(crate) proof fn lemma_len_zero_iff_zero(a: V3)
    ensures
        vlen(a) == 0 <==> a == vzero(),
{
    lemma_vqsum_nonneg(a);
    crate::fx::lemma_isqrt_spec_bounds(vqsum(a) as nat);
    if vlen(a) == 0 {
        assert(vqsum(a) < 1) by (nonlinear_arith)
            requires
                vqsum(a) < (vlen(a) + 1) * (vlen(a) + 1),
                vlen(a) == 0;
        assert(a.x == 0 && a.y == 0 && a.z == 0) by (nonlinear_arith)
            requires
                a.x * a.x + a.y * a.y + a.z * a.z == 0,
                a.x * a.x >= 0,
                a.y * a.y >= 0,
                a.z * a.z >= 0;
    }
    if a == vzero() {
        assert(vqsum(a) == 0) by (nonlinear_arith)
            requires
                a.x == 0 && a.y == 0 && a.z == 0;
        assert(isqrt_spec(0) == 0);
    }
}

/// Each component of a nonzero vector's normalization lies within `SCALE`.
pub(crate) proof fn lemma_norm_component_bounds(a: V3)
    requires
        vlen(a) != 0,
    ensures
        fits_i64(vnorm(a).x) && -(SCALE as int) <= vnorm(a).x <= SCALE as int,
        fits_i64(vnorm(a).y) && -(SCALE as int) <= vnorm(a).y <= SCALE as int,
        fits_i64(vnorm(a).z) && -(SCALE as int) <= vnorm(a).z <= SCALE as int,
{
    let l: int = vlen(a);
    let sc: int = SCALE as int;
    lemma_vqsum_nonneg(a);
    crate::fx::lemma_isqrt_spec_bounds(vqsum(a) as nat);
    assert(l >= 1);
    lemma_norm_one_component(a.x, vqsum(a), l);
    lemma_norm_one_component(a.y, vqsum(a), l);
    lemma_norm_one_component(a.z, vqsum(a), l);
}

/// A component whose square is within the square sum divides to within
/// one unit of scale.
pub(crate) proof fn lemma_norm_one_component(c: int, q: int, l: int)
    requires
        l >= 1,
        c * c <= q,
        q < (l + 1) * (l + 1),
    ensures
        -(SCALE as int) <= c * (SCALE as int) / l <= SCALE as int,
{
    let sc: int = SCALE as int;
    assert(-l <= c <= l) by (nonlinear_arith)
        requires
            c * c <= q,
            q < (l + 1) * (l + 1),
            l >= 0;
    assert(c * sc <= l * sc && c * sc >= -(l * sc)) by (nonlinear_arith)
        requires
            -l <= c <= l,
            sc >= 1;
    assert(l * sc == sc * l) by (nonlinear_arith);
    lemma_div_is_ordered(c * sc, sc * l, l);
    lemma_div_by_multiple(sc, l);
    assert(c * sc / l <= sc);
    vstd::arithmetic::div_mod::lemma_mod_multiples_basic(sc, l);
    lemma_div_neg_numerator(sc * l, l);
    assert((-(sc * l)) / l == -sc);
    lemma_div_is_ordered(-(sc * l), c * sc, l);
    assert(-sc <= c * sc / l);
}

/// The dot product of bounded vectors is bounded by three times the
/// product of the bounds, before and after the final division.
pub(crate) proof fn lemma_vdot_bound(a: V3, b: V3, ba: int, bb: int)
    requires
        vbounded(a, ba),
        vbounded(b, bb),
        0 <= ba,
        0 <= bb,
    ensures
        -(3 * (ba * bb)) <= a.x * b.x + a.y * b.y + a.z * b.z <= 3 * (ba * bb),
        -(3 * (ba * bb)) <= vdot(a, b) <= 3 * (ba * bb),
        -((3 * (ba * bb)) / (SCALE as int)) - 1 <= vdot(a, b) <= (3 * (ba * bb)) / (SCALE as int),
{
    let m: int = 3 * (ba * bb);
    let s: int = a.x * b.x + a.y * b.y + a.z * b.z;
    crate::fx::lemma_mul_le(a.x, b.x, ba, bb);
    crate::fx::lemma_mul_le(a.y, b.y, ba, bb);
    crate::fx::lemma_mul_le(a.z, b.z, ba, bb);
    assert(ba * bb >= 0) by (nonlinear_arith)
        requires
            0 <= ba,
            0 <= bb;
    crate::fx::lemma_div_magnitude_bound(s, SCALE as int);
    lemma_div_is_ordered(s, m, SCALE as int);
    lemma_div_is_ordered(-m, s, SCALE as int);
    lemma_div_neg_numerator(m, SCALE as int);
}

/// The fixed-point squared length of a bounded vector is nonnegative and
/// bounded by three times the squared bound, scaled down.
pub(crate) proof fn lemma_vlensq_bound(a: V3, ba: int)
    requires
        vbounded(a, ba),
        0 <= ba,
    ensures
        0 <= vqsum(a) <= 3 * (ba * ba),
        0 <= vlensq(a) <= (3 * (ba * ba)) / (SCALE as int),
{
    lemma_vqsum_nonneg(a);
    crate::fx::lemma_mul_le(a.x, a.x, ba, ba);
    crate::fx::lemma_mul_le(a.y, a.y, ba, ba);
    crate::fx::lemma_mul_le(a.z, a.z, ba, ba);
    lemma_div_pos_is_pos(vqsum(a), SCALE as int);
    lemma_div_is_ordered(vqsum(a), 3 * (ba * ba), SCALE as int);
}

/// One component of a normalization, squared: scaled by the squared
/// length, it tracks the scaled squared component within rounding slack.
proof fn lemma_norm_comp_square(a: int, l: int, sc: int, n: int, r: int)
    requires
        l >= 1,
        sc >= 1,
        -l <= a <= l,
        a * sc == l * n + r,
        0 <= r < l,
    ensures
        a * a * (sc * sc) - 2 * sc * (l * l) <= (l * l) * (n * n),
        (l * l) * (n * n) <= a * a * (sc * sc) + 2 * sc * (l * l) + l * l,
{
    assert(a * a * (sc * sc) - 2 * sc * (l * l) <= (l * l) * (n * n) <= a * a * (sc * sc) + 2
        * sc * (l * l) + l * l) by (nonlinear_arith)
        requires
            l >= 1,
            sc >= 1,
            -l <= a <= l,
            a * sc == l * n + r,
            0 <= r < l;
}

/// Normalization law: a vector of at least unit length normalizes to a
/// vector whose fixed-point squared length is one, within a few steps of
/// the final rounding. Shorter vectors lose too much precision to the
/// integer division for any such bound to hold.
pub proof fn lemma_norm_unit_length(a: V3)
    requires
        vlen(a) >= SCALE as int,
    ensures
        (SCALE as int) - 6 <= vlensq(vnorm(a)) <= (SCALE as int) + 8,
{
    let sc: int = SCALE as int;
    let l: int = vlen(a);
    let q: int = vqsum(a);
    lemma_vqsum_nonneg(a);
    crate::fx::lemma_isqrt_spec_bounds(q as nat);
    assert(l * l <= q && q < (l + 1) * (l + 1));
    let nx: int = a.x * sc / l;
    let ny: int = a.y * sc / l;
    let nz: int = a.z * sc / l;
    let rx: int = a.x * sc % l;
    let ry: int = a.y * sc % l;
    let rz: int = a.z * sc % l;
    lemma_fundamental_div_mod(a.x * sc, l);
    lemma_fundamental_div_mod(a.y * sc, l);
    lemma_fundamental_div_mod(a.z * sc, l);
    lemma_mod_division_less_than_divisor(a.x * sc, l);
    lemma_mod_division_less_than_divisor(a.y * sc, l);
    lemma_mod_division_less_than_divisor(a.z * sc, l);
    assert(-l <= a.x <= l && -l <= a.y <= l && -l <= a.z <= l) by (nonlinear_arith)
        requires
            a.x * a.x + a.y * a.y + a.z * a.z == q,
            a.x * a.x >= 0,
            a.y * a.y >= 0,
            a.z * a.z >= 0,
            q < (l + 1) * (l + 1),
            l >= 0;
    lemma_norm_comp_square(a.x, l, sc, nx, rx);
    lemma_norm_comp_square(a.y, l, sc, ny, ry);
    lemma_norm_comp_square(a.z, l, sc, nz, rz);
    let bign: int = nx * nx + ny * ny + nz * nz;
    assert((l * l) * bign >= (sc * sc) * q - 6 * sc * (l * l) && (l * l) * bign <= (sc * sc) * q
        + 6 * sc * (l * l) + 3 * (l * l)) by (nonlinear_arith)
        requires
            bign == nx * nx + ny * ny + nz * nz,
            q == a.x * a.x + a.y * a.y + a.z * a.z,
            a.x * a.x * (sc * sc) - 2 * sc * (l * l) <= (l * l) * (nx * nx) <= a.x * a.x * (sc
                * sc) + 2 * sc * (l * l) + l * l,
            a.y * a.y * (sc * sc) - 2 * sc * (l * l) <= (l * l) * (ny * ny) <= a.y * a.y * (sc
                * sc) + 2 * sc * (l * l) + l * l,
            a.z * a.z * (sc * sc) - 2 * sc * (l * l) <= (l * l) * (nz * nz) <= a.z * a.z * (sc
                * sc) + 2 * sc * (l * l) + l * l;
    assert(sc * sc - 6 * sc <= bign && bign <= sc * sc + 8 * sc + 4) by (nonlinear_arith)
        requires
            (l * l) * bign >= (sc * sc) * q - 6 * sc * (l * l),
            (l * l) * bign <= (sc * sc) * q + 6 * sc * (l * l) + 3 * (l * l),
            l * l <= q,
            q < (l + 1) * (l + 1),
            l >= sc,
            sc >= 1;
    assert(vqsum(vnorm(a)) == bign);
    lemma_fundamental_div_mod_converse(sc * (sc + 8) + (sc - 1), sc, sc + 8, sc - 1);
    assert(sc * (sc + 8) + (sc - 1) == sc * sc + 9 * sc - 1) by (nonlinear_arith);
    assert(bign <= sc * sc + 9 * sc - 1);
    lemma_div_is_ordered(bign, sc * sc + 9 * sc - 1, sc);
    assert((sc - 6) * sc == sc * sc - 6 * sc) by (nonlinear_arith);
    lemma_div_by_multiple(sc - 6, sc);
    lemma_div_is_ordered(sc * sc - 6 * sc, bign, sc);
}

/// Dot-product bilinearity: distributing a dot product over a vector sum
/// agrees with the sum of the dot products, short of at most one rounding
/// step of the final division.
pub proof fn lemma_dot_bilinear(a: V3, b: V3, c: V3)
    ensures
        vdot(a, c) + vdot(b, c) <= vdot(vadd(a, b), c) <= vdot(a, c) + vdot(b, c) + 1,
{
    let sc: int = SCALE as int;
    let xs: int = a.x * c.x + a.y * c.y + a.z * c.z;
    let ys: int = b.x * c.x + b.y * c.y + b.z * c.z;
    let zs: int = (a.x + b.x) * c.x + (a.y + b.y) * c.y + (a.z + b.z) * c.z;
    assert(zs == xs + ys) by (nonlinear_arith)
        requires
            xs == a.x * c.x + a.y * c.y + a.z * c.z,
            ys == b.x * c.x + b.y * c.y + b.z * c.z,
            zs == (a.x + b.x) * c.x + (a.y + b.y) * c.y + (a.z + b.z) * c.z;
    let qx: int = xs / sc;
    let rx: int = xs % sc;
    let qy: int = ys / sc;
    let ry: int = ys % sc;
    lemma_fundamental_div_mod(xs, sc);
    lemma_fundamental_div_mod(ys, sc);
    lemma_mod_division_less_than_divisor(xs, sc);
    lemma_mod_division_less_than_divisor(ys, sc);
    if rx + ry < sc {
        assert(zs == (qx + qy) * sc + (rx + ry)) by (nonlinear_arith)
            requires
                zs == xs + ys,
                xs == sc * qx + rx,
                ys == sc * qy + ry;
        lemma_fundamental_div_mod_converse(zs, sc, qx + qy, rx + ry);
    } else {
        assert(zs == (qx + qy + 1) * sc + (rx + ry - sc)) by (nonlinear_arith)
            requires
                zs == xs + ys,
                xs == sc * qx + rx,
                ys == sc * qy + ry;
        lemma_fundamental_div_mod_converse(zs, sc, qx + qy + 1, rx + ry - sc);
    }
}

} // verus!
