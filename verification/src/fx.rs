//! Fixed-point scalar arithmetic.
//!
//! Every scalar of this library is an `i64` holding a multiple of
//! `1 / SCALE`: the value `x` stands for the real number `x / SCALE`.
//! All operations round toward negative infinity (Euclidean division),
//! so every contract below is an exact statement over the integers.

use vstd::prelude::*;
use vstd::arithmetic::div_mod::{
    lemma_fundamental_div_mod, lemma_fundamental_div_mod_converse,
    lemma_mod_division_less_than_divisor, lemma_div_is_ordered,
};

verus! {

/// Number of fixed-point steps per unit: scalars have 20 fractional bits.
pub const SCALE: i64 = 1048576;

/// `x` fits the range of an `i64`.
pub open spec fn fits_i64(x: int) -> bool {
    i64::MIN <= x <= i64::MAX
}

/// Floor division of `a` by a positive `b` (equals Euclidean division).
pub(crate) fn floor_div_i128(a: i128, b: i128) -> (q: i128)
    requires
        b > 0,
        a > i128::MIN,
    ensures
        q == a as int / b as int,
{
    let q0: i128 = a / b;
    let r0: i128 = a % b;
    if r0 != 0 && a < 0 {
        proof {
            let na: int = -(a as int);
            let k: int = na / (b as int);
            let m: int = na % (b as int);
            lemma_fundamental_div_mod(na, b as int);
            lemma_mod_division_less_than_divisor(na, b as int);
            assert(a as int == (-k - 1) * (b as int) + ((b as int) - m)) by (nonlinear_arith)
                requires
                    na == (b as int) * k + m,
                    a as int == -na;
            lemma_fundamental_div_mod_converse(a as int, b as int, -k - 1, (b as int) - m);
        }
        q0 - 1
    } else {
        if a >= 0 {
            q0
        } else {
            proof {
                let na: int = -(a as int);
                let k: int = na / (b as int);
                lemma_fundamental_div_mod(na, b as int);
                lemma_mod_division_less_than_divisor(na, b as int);
                assert(a as int == (-k) * (b as int) + 0) by (nonlinear_arith)
                    requires
                        na == (b as int) * k,
                        a as int == -na;
                lemma_fundamental_div_mod_converse(a as int, b as int, -k, 0);
            }
            q0
        }
    }
}

/// The product of two `i64` values stays well inside the `i128` range.
pub(crate) proof fn lemma_i64_mul_fits_i128(a: int, b: int)
    requires
        i64::MIN <= a <= i64::MAX,
        i64::MIN <= b <= i64::MAX,
    ensures
        -0x40000000000000000000000000000000 <= a * b <= 0x40000000000000000000000000000000,
{
    assert(-0x40000000000000000000000000000000 <= a * b <= 0x40000000000000000000000000000000)
        by (nonlinear_arith)
        requires
            -0x8000000000000000 <= a <= 0x7fffffffffffffff,
            -0x8000000000000000 <= b <= 0x7fffffffffffffff;
}

/// Fixed-point product: the scalar `a * b / SCALE`, rounded down.
pub open spec fn fx_mul_spec(a: int, b: int) -> int {
    a * b / (SCALE as int)
}

/// Fixed-point multiplication of two scalars.
pub fn fx_mul(a: i64, b: i64) -> (r: i64)
    requires
        fits_i64(fx_mul_spec(a as int, b as int)),
    ensures
        r == fx_mul_spec(a as int, b as int),
{
    proof {
        lemma_i64_mul_fits_i128(a as int, b as int);
    }
    let p: i128 = (a as i128) * (b as i128);
    let q: i128 = floor_div_i128(p, SCALE as i128);
    q as i64
}

/// Fixed-point quotient: the scalar `a * SCALE / b`, rounded down.
/// For a negative divisor this is the negated quotient by the magnitude,
/// which is exactly Euclidean division by `b`.
pub open spec fn fx_div_spec(a: int, b: int) -> int {
    if b >= 0 {
        a * (SCALE as int) / b
    } else {
        -(a * (SCALE as int) / -b)
    }
}

/// Fixed-point division of two scalars; `b` must not be zero.
pub fn fx_div(a: i64, b: i64) -> (r: i64)
    requires
        b != 0,
        fits_i64(fx_div_spec(a as int, b as int)),
    ensures
        r == fx_div_spec(a as int, b as int),
{
    proof {
        lemma_i64_mul_fits_i128(a as int, SCALE as int);
    }
    let p: i128 = (a as i128) * (SCALE as i128);
    if b > 0 {
        let q: i128 = floor_div_i128(p, b as i128);
        q as i64
    } else {
        let q: i128 = floor_div_i128(p, -(b as i128));
        (-q) as i64
    }
}

/// The fixed-point scalar holding the integer value `i`.
pub fn fx_from_int(i: i64) -> (r: i64)
    requires
        -0x7ffffffffff <= i <= 0x7ffffffffff,
    ensures
        r == i * (SCALE as int),
{
    i * SCALE
}

/// Negating the numerator of a division moves the quotient by at most one.
pub(crate) proof fn lemma_div_neg_numerator(y: int, d: int)
    requires
        d > 0,
        y >= 0,
    ensures
        -(y / d) - 1 <= (-y) / d <= -(y / d),
        y % d == 0 ==> (-y) / d == -(y / d),
{
    let q: int = y / d;
    let m: int = y % d;
    lemma_fundamental_div_mod(y, d);
    lemma_mod_division_less_than_divisor(y, d);
    if m == 0 {
        assert(-y == (-q) * d + 0) by (nonlinear_arith)
            requires
                y == d * q;
        lemma_fundamental_div_mod_converse(-y, d, -q, 0);
    } else {
        assert(-y == (-q - 1) * d + (d - m)) by (nonlinear_arith)
            requires
                y == d * q + m;
        lemma_fundamental_div_mod_converse(-y, d, -q - 1, d - m);
    }
}

/// Dividing by a positive number never grows the magnitude.
pub(crate) proof fn lemma_div_magnitude_bound(x: int, s: int)
    requires
        s >= 1,
    ensures
        x >= 0 ==> 0 <= x / s <= x,
        x < 0 ==> x <= x / s <= 0,
{
    let q: int = x / s;
    let r: int = x % s;
    lemma_fundamental_div_mod(x, s);
    lemma_mod_division_less_than_divisor(x, s);
    assert((x >= 0 ==> 0 <= q <= x) && (x < 0 ==> x <= q <= 0)) by (nonlinear_arith)
        requires
            x == s * q + r,
            0 <= r < s,
            s >= 1;
}

/// A product is bounded by the product of the factors' bounds.
pub(crate) proof fn lemma_mul_le(a: int, b: int, ba: int, bb: int)
    requires
        -ba <= a <= ba,
        -bb <= b <= bb,
        0 <= ba,
        0 <= bb,
    ensures
        -(ba * bb) <= a * b <= ba * bb,
{
    assert(-(ba * bb) <= a * b <= ba * bb) by (nonlinear_arith)
        requires
            -ba <= a <= ba,
            -bb <= b <= bb,
            0 <= ba,
            0 <= bb;
}

/// The fixed-point square of a bounded scalar is nonnegative and bounded.
pub(crate) proof fn lemma_fx_square_bound(a: int, ba: int)
    requires
        -ba <= a <= ba,
        0 <= ba,
    ensures
        0 <= fx_mul_spec(a, a) <= (ba * ba) / (SCALE as int),
{
    assert(0 <= a * a <= ba * ba) by (nonlinear_arith)
        requires
            -ba <= a <= ba,
            0 <= ba;
    vstd::arithmetic::div_mod::lemma_div_pos_is_pos(a * a, SCALE as int);
    lemma_div_is_ordered(a * a, ba * ba, SCALE as int);
}

/// Multiplying by a scalar of magnitude at most one keeps the magnitude.
pub(crate) proof fn lemma_fx_mul_unit_bound(d: int, t: int)
    requires
        -(SCALE as int) <= d <= SCALE as int,
    ensures
        t >= 0 ==> -t <= fx_mul_spec(d, t) <= t,
        t < 0 ==> t <= fx_mul_spec(d, t) <= -t,
{
    let sc: int = SCALE as int;
    if t >= 0 {
        assert(sc * (-t) <= d * t <= sc * t) by (nonlinear_arith)
            requires
                -sc <= d <= sc,
                t >= 0;
        lemma_div_is_ordered(sc * (-t), d * t, sc);
        lemma_div_is_ordered(d * t, sc * t, sc);
        vstd::arithmetic::div_mod::lemma_div_multiples_vanish(t, sc);
        vstd::arithmetic::div_mod::lemma_div_multiples_vanish(-t, sc);
    } else {
        assert(sc * t <= d * t <= sc * (-t)) by (nonlinear_arith)
            requires
                -sc <= d <= sc,
                t < 0;
        lemma_div_is_ordered(sc * t, d * t, sc);
        lemma_div_is_ordered(d * t, sc * (-t), sc);
        vstd::arithmetic::div_mod::lemma_div_multiples_vanish(t, sc);
        vstd::arithmetic::div_mod::lemma_div_multiples_vanish(-t, sc);
    }
}

/// The integer square root: the greatest `r` with `r * r <= x`.
pub open spec fn isqrt_spec(x: nat) -> nat
    decreases x,
{
    if x == 0 {
        0
    } else {
        let r = isqrt_spec((x - 1) as nat);
        if (r + 1) * (r + 1) <= x {
            (r + 1) as nat
        } else {
            r
        }
    }
}

/// `isqrt_spec(x)` brackets `x` between consecutive squares.
pub proof fn lemma_isqrt_spec_bounds(x: nat)
    ensures
        (isqrt_spec(x) as int) * (isqrt_spec(x) as int) <= x as int,
        (x as int) < (isqrt_spec(x) as int + 1) * (isqrt_spec(x) as int + 1),
    decreases x,
{
    if x > 0 {
        let r = isqrt_spec((x - 1) as nat) as int;
        lemma_isqrt_spec_bounds((x - 1) as nat);
        let s = isqrt_spec(x) as int;
        if (r + 1) * (r + 1) <= x {
            assert(s == r + 1);
            assert(s * s <= x as int && (x as int) < (s + 1) * (s + 1)) by (nonlinear_arith)
                requires
                    s == r + 1,
                    (r + 1) * (r + 1) <= x as int,
                    (x as int) - 1 < (r + 1) * (r + 1),
                    r >= 0;
        } else {
            assert(s == r);
            assert(s * s <= x as int && (x as int) < (s + 1) * (s + 1)) by (nonlinear_arith)
                requires
                    s == r,
                    r * r <= (x as int) - 1,
                    (x as int) < (r + 1) * (r + 1);
        }
    } else {
        let s = isqrt_spec(x) as int;
        assert(s == 0);
        assert(s * s == 0 && (s + 1) * (s + 1) == 1) by (nonlinear_arith)
            requires
                s == 0;
    }
}

/// Any value bracketed between consecutive squares is the integer square root.
pub proof fn lemma_isqrt_unique(x: nat, r: nat)
    requires
        (r as int) * (r as int) <= x as int,
        (x as int) < (r as int + 1) * (r as int + 1),
    ensures
        r == isqrt_spec(x),
{
    let s = isqrt_spec(x) as int;
    lemma_isqrt_spec_bounds(x);
    assert(r as int == s) by (nonlinear_arith)
        requires
            (r as int) * (r as int) <= x as int,
            (x as int) < (r as int + 1) * (r as int + 1),
            s * s <= x as int,
            (x as int) < (s + 1) * (s + 1),
            r as int >= 0,
            s >= 0;
}

/// Integer square root of a `u128`, by binary search.
pub(crate) fn isqrt_u128(x: u128) -> (r: u128)
    ensures
        r == isqrt_spec(x as nat),
        (r as int) * (r as int) <= x as int,
        (x as int) < (r as int + 1) * (r as int + 1),
{
    let mut lo: u128 = 0;
    let mut hi: u128 = 0x10000000000000000;
    proof {
        assert((hi as int) * (hi as int) > u128::MAX as int) by (nonlinear_arith)
            requires
                hi == 0x10000000000000000;
    }
    while hi - lo > 1
        invariant
            0 <= lo < hi <= 0x10000000000000000,
            (lo as int) * (lo as int) <= x as int,
            (x as int) < (hi as int) * (hi as int),
        decreases hi - lo,
    {
        let mid: u128 = lo + (hi - lo) / 2;
        proof {
            assert((mid as int) * (mid as int) <= u128::MAX as int) by (nonlinear_arith)
                requires
                    0 <= (mid as int) < 0x10000000000000000;
        }
        if mid * mid <= x {
            lo = mid;
        } else {
            hi = mid;
        }
    }
    proof {
        lemma_isqrt_unique(x as nat, lo as nat);
    }
    lo
}

} // verus!
