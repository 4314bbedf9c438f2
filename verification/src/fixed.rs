//! Fixed-point arithmetic with sixteen fractional bits.
//!
//! A raw value `v` stands for the rational number `v / 65536`. World
//! coordinates, distances, angles and durations are all carried as raw
//! values; intermediate products are formed in 128 bits so that no
//! operation here can overflow.

use vstd::prelude::*;

verus! {

/// Number of fractional bits of a raw value.
pub const FRAC_BITS: u32 = 16;

/// The raw value of 1.
pub const ONE: i64 = 65536;

/// The raw value of 1/2.
pub const HALF: i64 = 32768;

/// Absolute value of an integer.
pub open spec fn magnitude(a: int) -> int {
    if a < 0 {
        -a
    } else {
        a
    }
}

/// Quotient rounded toward zero, for a positive divisor.
pub open spec fn trunc_div(a: int, b: int) -> int {
    if a >= 0 {
        a / b
    } else {
        -((-a) / b)
    }
}

/// Product of two raw values, rounded toward zero.
pub open spec fn fx_prod(a: int, b: int) -> int {
    trunc_div(a * b, ONE as int)
}

/// Quotient of two raw values, rounded toward zero, for a positive divisor.
pub open spec fn fx_quot(a: int, b: int) -> int {
    trunc_div(a * ONE, b)
}

/// `v` limited to the interval from `lo` to `hi`.
pub open spec fn clamp_to(v: int, lo: int, hi: int) -> int {
    if v < lo {
        lo
    } else if v > hi {
        hi
    } else {
        v
    }
}

/// Whether `v` can be held in an `i64`.
pub open spec fn fits_i64(v: int) -> bool {
    i64::MIN <= v <= i64::MAX
}

/// `r` is the integer square root of `n`.
pub open spec fn is_isqrt(n: int, r: int) -> bool {
    0 <= r && r * r <= n < (r + 1) * (r + 1)
}

/// The integer square root of `n`: the largest integer whose square does
/// not exceed it.
pub open spec fn int_sqrt(n: int) -> int {
    choose|r: int| is_isqrt(n, r)
}

/// A number has at most one integer square root.
pub proof fn lemma_isqrt_unique(n: int, r1: int, r2: int)
    by (nonlinear_arith)
    requires
        is_isqrt(n, r1),
        is_isqrt(n, r2),
    ensures
        r1 == r2,
{
    if r1 < r2 {
        assert((r1 + 1) * (r1 + 1) <= r2 * r2);
    }
    if r2 < r1 {
        assert((r2 + 1) * (r2 + 1) <= r1 * r1);
    }
}

/// The product of a raw value of magnitude at most `ma` and one of at
/// most `mb` whole units has magnitude at most `ma * mb`.
pub proof fn lemma_fx_prod_bound(a: int, b: int, ma: int, mb: int)
    requires
        magnitude(a) <= ma,
        magnitude(b) <= mb * ONE,
    ensures
        magnitude(fx_prod(a, b)) <= ma * mb,
{
    lemma_product_bound(a, b, ma, mb * ONE);
    assert(ma * (mb * ONE) == (ma * mb) * ONE) by (nonlinear_arith);
    lemma_trunc_div_magnitude_le(a * b, ONE as int, ma * mb);
}

/// A product is bounded by the product of the bounds of its factors.
pub proof fn lemma_product_bound(a: int, b: int, ma: int, mb: int)
    by (nonlinear_arith)
    requires
        -ma <= a <= ma,
        -mb <= b <= mb,
    ensures
        -(ma * mb) <= a * b <= ma * mb,
{
}

/// Rounding toward zero never increases the magnitude and keeps the sign.
pub proof fn lemma_trunc_div_bounds(a: int, b: int)
    requires
        b > 0,
    ensures
        a >= 0 ==> 0 <= trunc_div(a, b) <= a,
        a <= 0 ==> a <= trunc_div(a, b) <= 0,
        trunc_div(a, b) * b <= a || a <= 0,
        magnitude(trunc_div(a, b)) == magnitude(a) / b,
{
    vstd::arithmetic::div_mod::lemma_div_pos_is_pos(magnitude(a), b);
    vstd::arithmetic::div_mod::lemma_div_nonincreasing(magnitude(a), b);
    vstd::arithmetic::div_mod::lemma_fundamental_div_mod(magnitude(a), b);
    vstd::arithmetic::mul::lemma_mul_is_commutative(magnitude(a) / b, b);
}

/// Rounding toward zero is monotone in the magnitude of the dividend.
pub proof fn lemma_trunc_div_magnitude_le(a: int, b: int, bound: int)
    requires
        b > 0,
        magnitude(a) <= bound * b,
    ensures
        magnitude(trunc_div(a, b)) <= bound,
{
    lemma_trunc_div_bounds(a, b);
    vstd::arithmetic::div_mod::lemma_div_is_ordered(magnitude(a), bound * b, b);
    vstd::arithmetic::div_mod::lemma_div_multiples_vanish(bound, b);
    vstd::arithmetic::mul::lemma_mul_is_commutative(bound, b);
}

/// The exact product of two 64-bit values.
pub fn wide_prod(a: i64, b: i64) -> (p: i128)
    ensures
        p == a * b,
        -0x4000_0000_0000_0000_0000_0000_0000_0000 <= p <= 0x4000_0000_0000_0000_0000_0000_0000_0000,
{
    let x: i128 = a as i128;
    let y: i128 = b as i128;
    proof {
        lemma_product_bound(x as int, y as int, 0x8000_0000_0000_0000, 0x8000_0000_0000_0000);
    }
    x * y
}

/// The exact product of two values of at most 64 bits each.
pub fn mul_i128(a: i128, b: i128) -> (p: i128)
    requires
        -0x8000_0000_0000_0000 <= a <= 0x8000_0000_0000_0000,
        -0x8000_0000_0000_0000 <= b <= 0x8000_0000_0000_0000,
    ensures
        p == a * b,
{
    proof {
        lemma_product_bound(a as int, b as int, 0x8000_0000_0000_0000, 0x8000_0000_0000_0000);
    }
    a * b
}

/// Floor division by a positive divisor.
pub fn div_floor(a: i128, b: i128) -> (q: i128)
    requires
        b > 0,
    ensures
        q == a / b,
{
    if a >= 0 {
        a / b
    } else {
        // For a negative dividend the machine quotient rounds toward zero,
        // so it is one too large whenever the division leaves a remainder.
        let m: i128 = -(a + 1);
        let t: i128 = m / b;
        proof {
            lemma_floor_of_negative(a as int, b as int);
        }
        -t - 1
    }
}

/// Floor division of a negative number, through the quotient of a
/// non-negative one.
pub proof fn lemma_floor_of_negative(a: int, b: int)
    requires
        a < 0,
        b > 0,
    ensures
        a / b == -((-(a + 1)) / b) - 1,
        0 <= (-(a + 1)) / b <= -(a + 1),
{
    let m = -(a + 1);
    let t = m / b;
    vstd::arithmetic::div_mod::lemma_fundamental_div_mod(m, b);
    vstd::arithmetic::div_mod::lemma_div_pos_is_pos(m, b);
    vstd::arithmetic::div_mod::lemma_div_nonincreasing(m, b);
    // m == b * t + r with 0 <= r < b, hence a == b * (-t - 1) + (b - 1 - r).
    let r = m % b;
    assert(b * (-t - 1) == -(b * t) - b) by (nonlinear_arith);
    assert(a == b * (-t - 1) + (b - 1 - r));
    vstd::arithmetic::div_mod::lemma_fundamental_div_mod_converse(a, b, -t - 1, b - 1 - r);
}

/// Remainder of floor division of a negative number.
pub proof fn lemma_rem_of_negative(a: int, b: int)
    requires
        a < 0,
        b > 0,
    ensures
        a % b == (if (-a) % b == 0 {
            0
        } else {
            b - (-a) % b
        }),
        0 <= (-a) % b < b,
{
    let m = -a;
    let t = m / b;
    let r = m % b;
    vstd::arithmetic::div_mod::lemma_fundamental_div_mod(m, b);
    vstd::arithmetic::div_mod::lemma_mod_bound(m, b);
    if r == 0 {
        assert(b * (-t) == -(b * t)) by (nonlinear_arith);
        vstd::arithmetic::div_mod::lemma_fundamental_div_mod_converse(a, b, -t, 0);
    } else {
        assert(b * (-t - 1) == -(b * t) - b) by (nonlinear_arith);
        vstd::arithmetic::div_mod::lemma_fundamental_div_mod_converse(a, b, -t - 1, b - r);
    }
}

/// Remainder of floor division by a positive divisor: always in `0..b`.
pub fn rem_floor(a: i128, b: i128) -> (r: i128)
    requires
        b > 0,
    ensures
        r == a % b,
        0 <= r < b,
{
    let t: i128 = a % b;
    proof {
        vstd::arithmetic::div_mod::lemma_mod_bound(a as int, b as int);
        if a < 0 {
            lemma_rem_of_negative(a as int, b as int);
        }
    }
    if t < 0 {
        t + b
    } else {
        t
    }
}

/// Product of two raw values, rounded toward zero.
pub fn fx_mul(a: i64, b: i64) -> (p: i128)
    ensures
        p == fx_prod(a as int, b as int),
        -0x4000_0000_0000_0000_0000_0000_0000 <= p <= 0x4000_0000_0000_0000_0000_0000_0000,
{
    let w = wide_prod(a, b);
    proof {
        lemma_trunc_div_magnitude_le(w as int, ONE as int, 0x4000_0000_0000_0000_0000_0000_0000);
    }
    w / (ONE as i128)
}

/// Integer square root: the largest `r` whose square does not exceed `n`.
pub fn isqrt(n: u128) -> (r: u64)
    ensures
        is_isqrt(n as int, r as int),
        r == int_sqrt(n as int),
{
    let mut lo: u128 = 0;
    let mut hi: u128 = 0x1_0000_0000_0000_0000;
    assert(0x1_0000_0000_0000_0000int * 0x1_0000_0000_0000_0000int
        == 0x1_0000_0000_0000_0000_0000_0000_0000_0000int) by (nonlinear_arith);
    while hi - lo > 1
        invariant
            lo < hi <= 0x1_0000_0000_0000_0000,
            lo * lo <= n,
            n < hi * hi,
        decreases hi - lo,
    {
        let mid: u128 = lo + (hi - lo) / 2;
        assert(mid * mid <= 0xffff_ffff_ffff_ffff * 0xffff_ffff_ffff_ffff) by (nonlinear_arith)
            requires
                0 <= mid <= 0xffff_ffff_ffff_ffff,
        ;
        if mid * mid <= n {
            lo = mid;
        } else {
            hi = mid;
        }
    }
    proof {
        let r = int_sqrt(n as int);
        assert(is_isqrt(n as int, lo as int));
        lemma_isqrt_unique(n as int, lo as int, r);
    }
    lo as u64
}

/// A quotient is at most `y` where the dividend is at most `y` times the
/// divisor, and not negative where the dividend is not.
pub proof fn lemma_quotient_le(x: int, a: int, y: int)
    requires
        a > 0,
        x <= y * a,
    ensures
        x / a <= y,
        x >= 0 ==> x / a >= 0,
{
    vstd::arithmetic::div_mod::lemma_div_is_ordered(x, y * a, a);
    vstd::arithmetic::div_mod::lemma_div_multiples_vanish(y, a);
    vstd::arithmetic::mul::lemma_mul_is_commutative(y, a);
    if x >= 0 {
        vstd::arithmetic::div_mod::lemma_div_pos_is_pos(x, a);
    }
}

/// A quotient is below `y` where the dividend is below `y` times the
/// divisor.
pub proof fn lemma_quotient_lt(x: int, a: int, y: int)
    requires
        a > 0,
        0 <= x < a * y,
    ensures
        0 <= x / a < y,
{
    vstd::arithmetic::div_mod::lemma_div_pos_is_pos(x, a);
    vstd::arithmetic::div_mod::lemma_fundamental_div_mod(x, a);
    vstd::arithmetic::div_mod::lemma_mod_bound(x, a);
    if x / a >= y {
        assert(a * (x / a) >= a * y) by (nonlinear_arith)
            requires
                a > 0,
                x / a >= y,
        ;
    }
}

/// A quotient is at least `x` where the dividend is at least `x` times
/// the divisor.
pub proof fn lemma_quotient_ge(n: int, a: int, x: int)
    requires
        a > 0,
        x * a <= n,
    ensures
        x <= n / a,
{
    vstd::arithmetic::div_mod::lemma_div_is_ordered(x * a, n, a);
    vstd::arithmetic::div_mod::lemma_div_multiples_vanish(x, a);
    vstd::arithmetic::mul::lemma_mul_is_commutative(x, a);
}

/// The floor quotient of a product by a positive divisor lies within the
/// bounds of the product.
pub proof fn lemma_quotient_within(gap: int, other: int, axis: int, bound: int)
    requires
        axis > 0,
        bound >= 0,
        -bound <= gap * other <= bound,
    ensures
        -bound <= (gap * other) / axis <= bound,
{
    let x = gap * other;
    vstd::arithmetic::div_mod::lemma_fundamental_div_mod(x, axis);
    vstd::arithmetic::div_mod::lemma_mod_bound(x, axis);
    let q = x / axis;
    if q > bound {
        assert(axis * q > bound) by (nonlinear_arith)
            requires
                axis >= 1,
                q > bound,
                bound >= 0,
        ;
    }
    if q < -bound {
        assert(axis * q + axis <= -bound) by (nonlinear_arith)
            requires
                axis >= 1,
                q + 1 <= -bound,
                bound >= 0,
        ;
    }
}

} // verus!
