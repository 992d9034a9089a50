//! Two-dimensional fixed-point vectors.
//!
//! `Vec2` is the stored form, two `i64` tick counts.  Its mathematical view
//! is `V2i`, a pair of unbounded integers, and every operation here says in
//! its contract exactly which `V2i` it produces.

use crate::fx::{
    clamp_s, fx_div, fx_div_s, fx_mul, fx_mul_s, in_lim, isqrt64, sqrt_s, tdiv, FX_LIM,
};
use vstd::prelude::*;

verus! {

/// A stored vector: x and y in ticks.
#[derive(Clone, Copy, PartialEq, Eq, Structural, Debug)]
pub struct Vec2 {
    pub x: i64,
    pub y: i64,
}

/// The mathematical value of a `Vec2`.
pub struct V2i {
    pub x: int,
    pub y: int,
}

impl View for Vec2 {
    type V = V2i;

    open spec fn view(&self) -> V2i {
        V2i { x: self.x as int, y: self.y as int }
    }
}

/// Both components within the representable world bound.
pub open spec fn in_lim_v(v: V2i) -> bool {
    in_lim(v.x) && in_lim(v.y)
}

/// Both components within `m` of zero.
pub open spec fn v_bounded(v: V2i, m: int) -> bool {
    -m <= v.x <= m && -m <= v.y <= m
}

pub open spec fn v_add(a: V2i, b: V2i) -> V2i {
    V2i { x: a.x + b.x, y: a.y + b.y }
}

pub open spec fn v_sub(a: V2i, b: V2i) -> V2i {
    V2i { x: a.x - b.x, y: a.y - b.y }
}

pub open spec fn v_neg(a: V2i) -> V2i {
    V2i { x: -a.x, y: -a.y }
}

/// Componentwise fixed-point scaling.
pub open spec fn v_scale(a: V2i, s: int) -> V2i {
    V2i { x: fx_mul_s(a.x, s), y: fx_mul_s(a.y, s) }
}

/// Componentwise fixed-point division by a scalar.
pub open spec fn v_fxdiv(a: V2i, d: int) -> V2i {
    V2i { x: fx_div_s(a.x, d), y: fx_div_s(a.y, d) }
}

/// Componentwise saturation at the world bound.
pub open spec fn v_clamp(a: V2i) -> V2i {
    V2i { x: clamp_s(a.x), y: clamp_s(a.y) }
}

/// Squared length in raw ticks.
pub open spec fn v_len_sq(a: V2i) -> int {
    a.x * a.x + a.y * a.y
}

/// Length in ticks: the integer square root of the squared length.
pub open spec fn v_len(a: V2i) -> int {
    sqrt_s(v_len_sq(a))
}

/// Fixed-point dot product.
pub open spec fn v_dot(a: V2i, b: V2i) -> int {
    tdiv(a.x * b.x + a.y * b.y, 65536)
}

impl Vec2 {
    /// The vector with the given components.
    pub fn new(x: i64, y: i64) -> (r: Vec2)
        ensures
            r@ == (V2i { x: x as int, y: y as int }),
    {
        Vec2 { x, y }
    }

    /// The zero vector.
    pub fn zero() -> (r: Vec2)
        ensures
            r@ == (V2i { x: 0int, y: 0int }),
    {
        Vec2 { x: 0, y: 0 }
    }
}

/// Componentwise sum, exact.
pub fn v2_add(a: Vec2, b: Vec2) -> (r: Vec2)
    requires
        v_bounded(a@, 0x1000_0000_0000_0000),
        v_bounded(b@, 0x1000_0000_0000_0000),
    ensures
        r@ == v_add(a@, b@),
{
    Vec2 { x: a.x + b.x, y: a.y + b.y }
}

/// Componentwise difference, exact.
pub fn v2_sub(a: Vec2, b: Vec2) -> (r: Vec2)
    requires
        v_bounded(a@, 0x1000_0000_0000_0000),
        v_bounded(b@, 0x1000_0000_0000_0000),
    ensures
        r@ == v_sub(a@, b@),
{
    Vec2 { x: a.x - b.x, y: a.y - b.y }
}

/// Componentwise negation, exact.
pub fn v2_neg(a: Vec2) -> (r: Vec2)
    requires
        v_bounded(a@, 0x1000_0000_0000_0000),
    ensures
        r@ == v_neg(a@),
{
    Vec2 { x: -a.x, y: -a.y }
}

/// Fixed-point scaling, exact per `v_scale`.
pub fn v2_scale(a: Vec2, s: i64) -> (r: Vec2)
    requires
        -0x4000_0000_0000_0000 <= a@.x * s <= 0x4000_0000_0000_0000,
        -0x4000_0000_0000_0000 <= a@.y * s <= 0x4000_0000_0000_0000,
    ensures
        r@ == v_scale(a@, s as int),
        v_bounded(r@, 0x4000_0000_0000),
{
    Vec2 { x: fx_mul(a.x, s), y: fx_mul(a.y, s) }
}

/// A product of two values within `m` of zero is within `m * m` of zero.
pub proof fn lemma_mul_mag(a: int, b: int, m: int)
    requires
        m >= 0,
        -m <= a <= m,
        -m <= b <= m,
    ensures
        -(m * m) <= a * b <= m * m,
{
    assert(-(m * m) <= a * b <= m * m) by (nonlinear_arith)
        requires m >= 0 && -m <= a <= m && -m <= b <= m;
}

/// Fixed-point division by a positive scalar, exact per `v_fxdiv`.
pub fn v2_fxdiv(a: Vec2, d: i64) -> (r: Vec2)
    requires
        d > 0,
        v_bounded(a@, 0x4000_0000_0000),
    ensures
        r@ == v_fxdiv(a@, d as int),
{
    Vec2 { x: fx_div(a.x, d), y: fx_div(a.y, d) }
}

/// Componentwise saturation, exact per `v_clamp`.
pub fn v2_clamp(a: Vec2) -> (r: Vec2)
    ensures
        r@ == v_clamp(a@),
        in_lim_v(r@),
{
    Vec2 { x: crate::fx::clamp64(a.x), y: crate::fx::clamp64(a.y) }
}

/// Squared length in raw ticks, exact.
pub fn v2_len_sq(a: Vec2) -> (r: u64)
    requires
        v_bounded(a@, 0x8000_0000),
    ensures
        r == v_len_sq(a@),
        r <= 0x8000_0000_0000_0000,
{
    proof {
        lemma_mul_mag(a.x as int, a.x as int, 0x8000_0000);
        lemma_mul_mag(a.y as int, a.y as int, 0x8000_0000);
        assert((a.x as int) * (a.x as int) >= 0 && (a.y as int) * (a.y as int) >= 0)
            by (nonlinear_arith);
    }
    let px: i128 = (a.x as i128) * (a.x as i128);
    let py: i128 = (a.y as i128) * (a.y as i128);
    (px + py) as u64
}

/// Length in ticks, exact per `v_len`.
pub fn v2_len(a: Vec2) -> (r: i64)
    requires
        v_bounded(a@, 0x8000_0000),
    ensures
        r == v_len(a@),
        0 <= r < 0x1_0000_0000,
{
    let sq = v2_len_sq(a);
    let root = isqrt64(sq);
    root as i64
}

/// Fixed-point dot product, exact per `v_dot`.
pub fn v2_dot(a: Vec2, b: Vec2) -> (r: i64)
    requires
        v_bounded(a@, 0x8000_0000),
        v_bounded(b@, 0x8000_0000),
    ensures
        r == v_dot(a@, b@),
        -0x1_0000_0000_0000 <= r <= 0x1_0000_0000_0000,
{
    proof {
        lemma_mul_mag(a.x as int, b.x as int, 0x8000_0000);
        lemma_mul_mag(a.y as int, b.y as int, 0x8000_0000);
    }
    let p: i128 = (a.x as i128) * (b.x as i128) + (a.y as i128) * (b.y as i128);
    let q: i128 = crate::fx::tdiv128(p, 65536);
    proof {
        crate::fx::lemma_tdiv_bound(p as int, 65536, 0x8000_0000_0000_0000);
        vstd::arithmetic::div_mod::lemma_fundamental_div_mod_converse(
            0x8000_0000_0000_0000,
            65536,
            0x8000_0000_0000,
            0,
        );
    }
    q as i64
}


/// Fixed-point two-dimensional cross product (perp-dot).
pub open spec fn v_perp_dot(a: V2i, b: V2i) -> int {
    tdiv(a.x * b.y - a.y * b.x, 65536)
}

/// Fixed-point perp-dot, exact per `v_perp_dot`.
pub fn v2_perp_dot(a: Vec2, b: Vec2) -> (r: i64)
    requires
        v_bounded(a@, 0x8000_0000),
        v_bounded(b@, 0x8000_0000),
    ensures
        r == v_perp_dot(a@, b@),
        -0x1_0000_0000_0000 <= r <= 0x1_0000_0000_0000,
{
    proof {
        lemma_mul_mag(a.x as int, b.y as int, 0x8000_0000);
        lemma_mul_mag(a.y as int, b.x as int, 0x8000_0000);
    }
    let p: i128 = (a.x as i128) * (b.y as i128) - (a.y as i128) * (b.x as i128);
    let q: i128 = crate::fx::tdiv128(p, 65536);
    proof {
        crate::fx::lemma_tdiv_bound(p as int, 65536, 0x8000_0000_0000_0000);
        vstd::arithmetic::div_mod::lemma_fundamental_div_mod_converse(
            0x8000_0000_0000_0000,
            65536,
            0x8000_0000_0000,
            0,
        );
    }
    q as i64
}

/// Length of a vector whose components may be a few world bounds wide,
/// exact per `v_len`.
pub fn v2_len_wide(a: Vec2) -> (r: i64)
    requires
        v_bounded(a@, 0x10_0000_0000),
    ensures
        r == v_len(a@),
        0 <= r < 0x100_0000_0000,
{
    proof {
        lemma_mul_mag(a.x as int, a.x as int, 0x10_0000_0000);
        lemma_mul_mag(a.y as int, a.y as int, 0x10_0000_0000);
        assert((a.x as int) * (a.x as int) >= 0 && (a.y as int) * (a.y as int) >= 0)
            by (nonlinear_arith);
    }
    let px: i128 = (a.x as i128) * (a.x as i128);
    let py: i128 = (a.y as i128) * (a.y as i128);
    let sq: u128 = (px + py) as u128;
    let root = crate::fx::isqrt128(sq);
    root as i64
}

/// Squared length of a vector a few world bounds wide, exact.
pub fn v2_len_sq_wide(a: Vec2) -> (r: u128)
    requires
        v_bounded(a@, 0x10_0000_0000),
    ensures
        r == v_len_sq(a@),
        r <= 0x200_0000_0000_0000_0000,
{
    proof {
        lemma_mul_mag(a.x as int, a.x as int, 0x10_0000_0000);
        lemma_mul_mag(a.y as int, a.y as int, 0x10_0000_0000);
        assert((a.x as int) * (a.x as int) >= 0 && (a.y as int) * (a.y as int) >= 0)
            by (nonlinear_arith);
    }
    let px: i128 = (a.x as i128) * (a.x as i128);
    let py: i128 = (a.y as i128) * (a.y as i128);
    (px + py) as u128
}


/// A vector's length bounds the magnitude of each of its components.
pub proof fn lemma_len_ge_components(a: V2i)
    ensures
        v_len(a) >= a.x && v_len(a) >= -a.x,
        v_len(a) >= a.y && v_len(a) >= -a.y,
        v_len(a) >= 0,
{
    let n = v_len_sq(a);
    assert(n >= a.x * a.x && n >= a.y * a.y && n >= 0) by (nonlinear_arith)
        requires n == a.x * a.x + a.y * a.y;
    crate::fx::lemma_sqrt_exists(n);
    let d = sqrt_s(n);
    assert(crate::fx::is_sqrt(n, d));
    assert(d >= a.x && d >= -a.x && d >= a.y && d >= -a.y && d >= 0) by (nonlinear_arith)
        requires
            crate::fx::is_sqrt(n, d) && n >= a.x * a.x && n >= a.y * a.y,
    ;
}

/// A vector divided by its own positive length has components of at
/// most one unit.
pub proof fn lemma_unit_dir_bounded(a: V2i)
    requires
        v_len(a) > 0,
    ensures
        v_bounded(v_fxdiv(a, v_len(a)), 65536),
{
    let d = v_len(a);
    lemma_len_ge_components(a);
    assert(a.x * 65536 <= d * 65536 && -(d * 65536) <= a.x * 65536 && a.y * 65536 <= d * 65536
        && -(d * 65536) <= a.y * 65536 && d * 65536 >= 0) by (nonlinear_arith)
        requires
            d > 0 && -d <= a.x <= d && -d <= a.y <= d,
    ;
    crate::fx::lemma_tdiv_bound(a.x * 65536, d, d * 65536);
    crate::fx::lemma_tdiv_bound(a.y * 65536, d, d * 65536);
    vstd::arithmetic::div_mod::lemma_div_multiples_vanish(65536, d);
}

} // verus!
