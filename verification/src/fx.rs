//! Fixed-point scalar arithmetic.
//!
//! Every physical quantity in the engine (a coordinate, a radius, a mass, an
//! angle, a timestep) is a signed 64-bit count of ticks, with `FX_ONE` ticks
//! to the unit.  Products and quotients are computed through 128-bit
//! intermediates and truncate toward zero, exactly as the spec functions
//! here say they do.  State that the engine stores is kept within
//! `FX_LIM` ticks of zero (the representable world bound), which keeps every
//! intermediate of every formula inside `i64`.

use vstd::arithmetic::div_mod::{
    lemma_div_is_ordered, lemma_div_is_ordered_by_denominator, lemma_div_nonincreasing,
};
use vstd::prelude::*;

verus! {

/// Ticks per world unit.
pub const FX_ONE: i64 = 65536;

/// Bound on every stored physical quantity, in ticks.
pub const FX_LIM: i64 = 2147483648;

/// `x` is within the representable world bound.
pub open spec fn in_lim(x: int) -> bool {
    -(FX_LIM as int) <= x <= FX_LIM as int
}

/// Division truncating toward zero (the `/` of Rust's integers), for a
/// positive divisor; zero on a nonpositive one, to stay total.
pub open spec fn tdiv(a: int, b: int) -> int {
    if b <= 0 {
        0
    } else if a >= 0 {
        a / b
    } else {
        -((-a) / b)
    }
}

/// The fixed-point product: `a * b` scaled back down by `FX_ONE`.
pub open spec fn fx_mul_s(a: int, b: int) -> int {
    tdiv(a * b, FX_ONE as int)
}

/// The fixed-point quotient: `a` scaled up by `FX_ONE`, divided by `b`.
pub open spec fn fx_div_s(a: int, b: int) -> int {
    tdiv(a * (FX_ONE as int), b)
}

/// Saturation at the representable world bound.
pub open spec fn clamp_s(x: int) -> int {
    if x > FX_LIM as int {
        FX_LIM as int
    } else if x < -(FX_LIM as int) {
        -(FX_LIM as int)
    } else {
        x
    }
}

/// Magnitude bounds pass through truncating division.
pub proof fn lemma_tdiv_bound(a: int, b: int, m: int)
    requires
        b > 0,
        m >= 0,
        -m <= a <= m,
    ensures
        -(m / b) <= tdiv(a, b) <= m / b,
        tdiv(a, b) * b <= a < (tdiv(a, b) + 1) * b || (tdiv(a, b) - 1) * b < a <= tdiv(a, b) * b,
{
    if a >= 0 {
        lemma_div_is_ordered(a, m, b);
        lemma_div_nonincreasing(a, b);
        lemma_fundamental_div_mod_bounds(a, b);
    } else {
        lemma_div_is_ordered(-a, m, b);
        lemma_div_nonincreasing(-a, b);
        lemma_fundamental_div_mod_bounds(-a, b);
        let q = (-a) / b;
        assert(q * b <= -a < (q + 1) * b);
        assert((-q) * b == -(q * b) && (-q - 1) * b == -(q * b) - b && (q + 1) * b == q * b + b)
            by (nonlinear_arith);
        assert(tdiv(a, b) == -q);
        assert((-q - 1) * b < a <= (-q) * b);
    }
}

/// For a nonnegative dividend and positive divisor, the quotient brackets
/// the dividend.
proof fn lemma_fundamental_div_mod_bounds(a: int, b: int)
    requires
        a >= 0,
        b > 0,
    ensures
        a / b * b <= a < (a / b + 1) * b,
        a / b >= 0,
{
    vstd::arithmetic::div_mod::lemma_fundamental_div_mod(a, b);
    vstd::arithmetic::div_mod::lemma_mod_bound(a, b);
    vstd::arithmetic::div_mod::lemma_div_pos_is_pos(a, b);
    let q = a / b;
    let r = a % b;
    assert(q * b <= a) by (nonlinear_arith)
        requires a == b * q + r && r >= 0;
    assert(a < (q + 1) * b) by (nonlinear_arith)
        requires a == b * q + r && r < b;
}

/// Truncating division of 64-bit values, positive divisor.
pub fn tdiv64(a: i64, b: i64) -> (r: i64)
    requires
        b > 0,
        a > i64::MIN,
    ensures
        r == tdiv(a as int, b as int),
{
    proof {
        lemma_tdiv_bound(a as int, b as int, if a >= 0 { a as int } else { -(a as int) });
        lemma_div_is_ordered_by_denominator(if a >= 0 { a as int } else { -(a as int) }, 1, b as int);
        vstd::arithmetic::div_mod::lemma_div_basics(if a >= 0 { a as int } else { -(a as int) });
    }
    if a >= 0 {
        ((a as u64) / (b as u64)) as i64
    } else {
        let m: u64 = ((-a) as u64) / (b as u64);
        -(m as i64)
    }
}

/// Truncating division of 128-bit values, positive divisor.
pub fn tdiv128(a: i128, b: i128) -> (r: i128)
    requires
        b > 0,
        a > i128::MIN,
    ensures
        r == tdiv(a as int, b as int),
{
    proof {
        lemma_tdiv_bound(a as int, b as int, if a >= 0 { a as int } else { -(a as int) });
        lemma_div_is_ordered_by_denominator(if a >= 0 { a as int } else { -(a as int) }, 1, b as int);
        vstd::arithmetic::div_mod::lemma_div_basics(if a >= 0 { a as int } else { -(a as int) });
    }
    if a >= 0 {
        ((a as u128) / (b as u128)) as i128
    } else {
        let m: u128 = ((-a) as u128) / (b as u128);
        -(m as i128)
    }
}

/// Flooring division of 64-bit values, positive divisor: the `/` of the
/// mathematical integers.
pub fn fdiv64(a: i64, b: i64) -> (r: i64)
    requires
        b > 0,
        -0x4000_0000_0000_0000 < a < 0x4000_0000_0000_0000,
        b < 0x4000_0000_0000_0000,
    ensures
        r == a as int / b as int,
{
    if a >= 0 {
        proof {
            lemma_tdiv_bound(a as int, b as int, a as int);
            lemma_div_is_ordered_by_denominator(a as int, 1, b as int);
            vstd::arithmetic::div_mod::lemma_div_basics(a as int);
        }
        ((a as u64) / (b as u64)) as i64
    } else {
        let num: i64 = -a + (b - 1);
        proof {
            lemma_tdiv_bound(num as int, b as int, num as int);
            lemma_div_is_ordered_by_denominator(num as int, 1, b as int);
            vstd::arithmetic::div_mod::lemma_div_basics(num as int);
            lemma_floor_of_negative(a as int, b as int);
        }
        let m: u64 = (num as u64) / (b as u64);
        -(m as i64)
    }
}

/// For a negative dividend, flooring division is the negated rounded-up
/// division of the magnitude.
proof fn lemma_floor_of_negative(a: int, b: int)
    requires
        a < 0,
        b > 0,
    ensures
        a / b == -((-a + b - 1) / b),
{
    let q = (-a + b - 1) / b;
    lemma_fundamental_div_mod_bounds(-a + b - 1, b);
    assert(q * b <= -a + b - 1 < (q + 1) * b);
    assert((-q) * b == -(q * b) && (q + 1) * b == q * b + b) by (nonlinear_arith);
    assert(-a <= q * b);
    assert((-q) * b <= a <= (-q) * b + b - 1);
    vstd::arithmetic::div_mod::lemma_fundamental_div_mod_converse(a, b, -q, a - (-q) * b);
}

/// The fixed-point product, exact per `fx_mul_s`.
pub fn fx_mul(a: i64, b: i64) -> (r: i64)
    requires
        -0x4000_0000_0000_0000 <= a as int * b as int <= 0x4000_0000_0000_0000,
    ensures
        r == fx_mul_s(a as int, b as int),
        -0x4000_0000_0000 <= r <= 0x4000_0000_0000,
{
    let p: i128 = (a as i128) * (b as i128);
    let q: i128 = tdiv128(p, 65536);
    proof {
        lemma_tdiv_bound(p as int, 65536, 0x4000_0000_0000_0000);
        assert(0x4000_0000_0000_0000int / 65536 == 0x4000_0000_0000) by (nonlinear_arith);
    }
    q as i64
}

/// The fixed-point quotient, exact per `fx_div_s`.
pub fn fx_div(a: i64, b: i64) -> (r: i64)
    requires
        b > 0,
        -0x4000_0000_0000 <= a <= 0x4000_0000_0000,
    ensures
        r == fx_div_s(a as int, b as int),
        -0x4000_0000_0000_0000 <= r <= 0x4000_0000_0000_0000,
{
    let p: i128 = (a as i128) * 65536;
    let q: i128 = tdiv128(p, b as i128);
    proof {
        lemma_tdiv_bound(p as int, b as int, 0x4000_0000_0000_0000);
        lemma_div_is_ordered_by_denominator(0x4000_0000_0000_0000, 1, b as int);
        vstd::arithmetic::div_mod::lemma_div_basics(0x4000_0000_0000_0000);
    }
    q as i64
}

/// Saturation at the representable world bound, exact per `clamp_s`.
pub fn clamp64(x: i64) -> (r: i64)
    ensures
        r == clamp_s(x as int),
        in_lim(r as int),
{
    if x > FX_LIM {
        FX_LIM
    } else if x < -FX_LIM {
        -FX_LIM
    } else {
        x
    }
}

/// `r` is the integer square root of `n`.
pub open spec fn is_sqrt(n: int, r: int) -> bool {
    r >= 0 && r * r <= n < (r + 1) * (r + 1)
}

/// The integer square root: the unique `r` with `r * r <= n < (r+1) * (r+1)`.
pub open spec fn sqrt_s(n: int) -> int {
    if n >= 0 {
        choose|r: int| is_sqrt(n, r)
    } else {
        0
    }
}

/// Integer square roots are unique, so any witness is `sqrt_s`.
pub proof fn lemma_sqrt_unique(n: int, r: int)
    requires
        is_sqrt(n, r),
    ensures
        sqrt_s(n) == r,
{
    assert(n >= 0) by (nonlinear_arith)
        requires is_sqrt(n, r);
    let c = sqrt_s(n);
    assert(is_sqrt(n, c));
    assert(c == r) by (nonlinear_arith)
        requires is_sqrt(n, c) && is_sqrt(n, r);
}

/// The integer square root of a 64-bit value, by bisection.
pub fn isqrt64(n: u64) -> (r: u64)
    ensures
        is_sqrt(n as int, r as int),
        r == sqrt_s(n as int),
        r < 0x1_0000_0000,
{
    let mut lo: u64 = 0;
    let mut hi: u64 = 0x1_0000_0000;
    while lo + 1 < hi
        invariant
            lo < hi <= 0x1_0000_0000,
            (lo as int) * (lo as int) <= n as int,
            (hi as int) * (hi as int) > n as int,
        decreases hi - lo,
    {
        let mid: u64 = lo + (hi - lo) / 2;
        proof {
            vstd::arithmetic::div_mod::lemma_div_decreases(hi as int - lo as int, 2);
            vstd::arithmetic::div_mod::lemma_div_is_ordered(2, hi as int - lo as int, 2);
            assert(2int / 2 == 1) by (nonlinear_arith);
            assert(lo < mid < hi);
            assert((mid as int) * (mid as int) <= 0x1_0000_0000_0000_0000) by (nonlinear_arith)
                requires 0 <= mid as int <= 0x1_0000_0000;
        }
        let sq: u128 = (mid as u128) * (mid as u128);
        if sq <= n as u128 {
            lo = mid;
        } else {
            hi = mid;
        }
    }
    proof {
        assert((lo + 1) as int * (lo + 1) as int >= hi as int * hi as int) by (nonlinear_arith)
            requires lo as int + 1 >= hi as int && hi as int >= 1;
        lemma_sqrt_unique(n as int, lo as int);
    }
    lo
}

/// The integer square root rounded up: the least `r` with `n <= r * r`.
pub open spec fn sqrt_up_s(n: int) -> int {
    if sqrt_s(n) * sqrt_s(n) == n {
        sqrt_s(n)
    } else {
        sqrt_s(n) + 1
    }
}

/// Addition saturated at the world bound.
pub fn add_clamped(a: i64, b: i64) -> (r: i64)
    requires
        -0x4000_0000_0000_0000 <= a as int + b as int <= 0x4000_0000_0000_0000,
    ensures
        r == clamp_s(a as int + b as int),
        in_lim(r as int),
{
    let s: i64 = a + b;
    clamp64(s)
}


/// The fixed-point product saturated at the world bound.
pub open spec fn fx_mul_cs(a: int, b: int) -> int {
    clamp_s(fx_mul_s(a, b))
}

/// Clamped fixed-point multiply, exact per `fx_mul_cs`.
pub fn fx_mul_c(a: i64, b: i64) -> (r: i64)
    requires
        -0x4000_0000_0000_0000 <= a as int * b as int <= 0x4000_0000_0000_0000,
    ensures
        r == fx_mul_cs(a as int, b as int),
        in_lim(r as int),
{
    clamp64(fx_mul(a, b))
}

/// The integer square root of a 128-bit value below 2^80, by bisection.
pub fn isqrt128(n: u128) -> (r: u64)
    requires
        n < 0x1_0000_0000_0000_0000_0000,
    ensures
        is_sqrt(n as int, r as int),
        r == sqrt_s(n as int),
        r < 0x100_0000_0000,
{
    let mut lo: u128 = 0;
    let mut hi: u128 = 0x100_0000_0000;
    while lo + 1 < hi
        invariant
            lo < hi <= 0x100_0000_0000,
            (lo as int) * (lo as int) <= n as int,
            (hi as int) * (hi as int) > n as int,
        decreases hi - lo,
    {
        let mid: u128 = lo + (hi - lo) / 2;
        proof {
            vstd::arithmetic::div_mod::lemma_div_decreases(hi as int - lo as int, 2);
            vstd::arithmetic::div_mod::lemma_div_is_ordered(2, hi as int - lo as int, 2);
            assert(2int / 2 == 1) by (nonlinear_arith);
            assert(lo < mid < hi);
            assert((mid as int) * (mid as int) <= 0x1_0000_0000_0000_0000_0000) by (
            nonlinear_arith)
                requires 0 <= mid as int <= 0x100_0000_0000;
        }
        let sq: u128 = mid * mid;
        if sq <= n {
            lo = mid;
        } else {
            hi = mid;
        }
    }
    proof {
        assert((lo + 1) as int * (lo + 1) as int >= (hi as int) * (hi as int)) by (
        nonlinear_arith)
            requires lo as int + 1 >= hi as int && hi as int >= 1;
        lemma_sqrt_unique(n as int, lo as int);
    }
    lo as u64
}


/// Integer square roots are nonnegative.
pub proof fn lemma_sqrt_nonneg(n: int)
    ensures
        sqrt_s(n) >= 0,
{
    if n >= 0 {
        assert(is_sqrt(n, sqrt_s(n))) by {
            lemma_sqrt_exists(n);
        }
    }
}

/// Every nonnegative integer has an integer square root.
pub proof fn lemma_sqrt_exists(n: int)
    requires
        n >= 0,
    ensures
        exists|r: int| is_sqrt(n, r),
    decreases n,
{
    if n == 0 {
        assert(is_sqrt(0, 0)) by (nonlinear_arith);
    } else {
        lemma_sqrt_exists(n - 1);
        let r = choose|r: int| #[trigger] is_sqrt(n - 1, r);
        if (r + 1) * (r + 1) <= n {
            assert(is_sqrt(n, r + 1)) by (nonlinear_arith)
                requires is_sqrt(n - 1, r) && (r + 1) * (r + 1) <= n;
        } else {
            assert(is_sqrt(n, r));
        }
    }
}


/// The rounded-up integer square root of a 128-bit value below 2^80.
pub fn isqrt128_up(n: u128) -> (r: u64)
    requires
        n < 0x1_0000_0000_0000_0000_0000,
    ensures
        r == sqrt_up_s(n as int),
        n as int <= (r as int) * (r as int),
        r <= 0x100_0000_0000,
{
    let s = isqrt128(n);
    let sq: u128 = (s as u128) * (s as u128);
    proof {
        assert((s as int) * (s as int) <= 0x1_0000_0000_0000_0000_0000) by (nonlinear_arith)
            requires 0 <= (s as int) && (s as int) < 0x100_0000_0000;
        assert(((s + 1) as int) * ((s + 1) as int) > n as int);
    }
    if sq == n {
        s
    } else {
        s + 1
    }
}

/// The rounded-up square root bounds each component it came from.
pub proof fn lemma_sqrt_up_ge(n: int, x: int)
    requires
        n >= 0,
        x * x <= n,
    ensures
        sqrt_up_s(n) >= x,
        sqrt_up_s(n) >= -x,
        sqrt_up_s(n) >= 0,
        n <= sqrt_up_s(n) * sqrt_up_s(n),
{
    lemma_sqrt_exists(n);
    let s = sqrt_s(n);
    assert(is_sqrt(n, s));
    let u = sqrt_up_s(n);
    assert(n <= u * u) by (nonlinear_arith)
        requires is_sqrt(n, s) && (u == s || u == s + 1) && (s * s == n ==> u == s) && (s * s != n
            ==> u == s + 1);
    assert(u >= x && u >= -x && u >= 0) by (nonlinear_arith)
        requires is_sqrt(n, s) && u >= s && u >= 0 && x * x <= n && n <= u * u;
}

} // verus!
