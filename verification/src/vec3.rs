//! Three-component fixed-point vectors, used as positions, directions and
//! RGB colors alike.
//!
//! The spec-level model is [`V3`], a triple of unbounded integers; every
//! executable operation is proved equal to its model (`v3_add_s`,
//! `v3_dot_s`, ...), including the rounding of products, quotients and the
//! square root in `norm` and `unit`.

use crate::fixed::{
    fx_div, fx_div_s, fx_mul, fx_mul_s, fx_sqrt, fx_sqrt_s, is_sqrt_floor, sqrt_floor, DIV_LIMIT,
    SCALE,
};
use vstd::arithmetic::div_mod::{
    lemma_div_is_ordered, lemma_div_multiples_vanish, lemma_fundamental_div_mod,
    lemma_mod_pos_bound,
};
use vstd::prelude::*;

verus! {

/// A fixed-point vector: each component counts millionths of a unit.
#[derive(Clone, Copy, Debug, PartialEq, Eq, Structural)]
pub struct Vec3 {
    pub x: i128,
    pub y: i128,
    pub z: i128,
}

/// Spec-level model of a vector: a triple of unbounded integers, still in
/// raw millionth steps.
#[verifier::ext_equal]
pub ghost struct V3 {
    pub x: int,
    pub y: int,
    pub z: int,
}

impl View for Vec3 {
    type V = V3;

    open spec fn view(&self) -> V3 {
        V3 { x: self.x as int, y: self.y as int, z: self.z as int }
    }
}

impl Vec3 {
    /// Build a vector from raw fixed-point components.
    pub fn new(x: i128, y: i128, z: i128) -> (r: Vec3)
        ensures
            r@ == (V3 { x: x as int, y: y as int, z: z as int }),
    {
        Vec3 { x, y, z }
    }
}

/// All components lie in `[-m, m]`.
pub open spec fn bounded_s(v: V3, m: int) -> bool {
    &&& -m <= v.x <= m
    &&& -m <= v.y <= m
    &&& -m <= v.z <= m
}

pub open spec fn v3_add_s(a: V3, b: V3) -> V3 {
    V3 { x: a.x + b.x, y: a.y + b.y, z: a.z + b.z }
}

pub open spec fn v3_sub_s(a: V3, b: V3) -> V3 {
    V3 { x: a.x - b.x, y: a.y - b.y, z: a.z - b.z }
}

pub open spec fn v3_neg_s(a: V3) -> V3 {
    V3 { x: -a.x, y: -a.y, z: -a.z }
}

/// Scale by a fixed-point scalar, component-wise.
pub open spec fn v3_scale_s(v: V3, k: int) -> V3 {
    V3 { x: fx_mul_s(v.x, k), y: fx_mul_s(v.y, k), z: fx_mul_s(v.z, k) }
}

/// Divide by a fixed-point scalar, component-wise.
pub open spec fn v3_divs_s(v: V3, k: int) -> V3 {
    V3 { x: fx_div_s(v.x, k), y: fx_div_s(v.y, k), z: fx_div_s(v.z, k) }
}

pub open spec fn v3_dot_s(a: V3, b: V3) -> int {
    fx_mul_s(a.x, b.x) + fx_mul_s(a.y, b.y) + fx_mul_s(a.z, b.z)
}

/// Component-wise (Hadamard) product, as used for color attenuation.
pub open spec fn v3_comp_mul_s(a: V3, b: V3) -> V3 {
    V3 { x: fx_mul_s(a.x, b.x), y: fx_mul_s(a.y, b.y), z: fx_mul_s(a.z, b.z) }
}

pub open spec fn v3_cross_s(a: V3, b: V3) -> V3 {
    V3 {
        x: fx_mul_s(a.y, b.z) - fx_mul_s(a.z, b.y),
        y: fx_mul_s(a.z, b.x) - fx_mul_s(a.x, b.z),
        z: fx_mul_s(a.x, b.y) - fx_mul_s(a.y, b.x),
    }
}

pub open spec fn v3_norm_sq_s(v: V3) -> int {
    v3_dot_s(v, v)
}

pub open spec fn v3_norm_s(v: V3) -> int {
    fx_sqrt_s(v3_norm_sq_s(v))
}

/// The vector rescaled to (approximately) unit length.
pub open spec fn v3_unit_s(v: V3) -> V3 {
    v3_divs_s(v, v3_norm_s(v))
}

/// Bound on each raw component product accepted by the product-like
/// operations, far below the overflow line.
pub const PROD_LIMIT: i128 = 3_000_000_000_000_000_000_000_000_000_000_000_000;

/// Bound on each component accepted by the additive operations.
pub const COMP_LIMIT: i128 = 80_000_000_000_000_000_000_000_000_000_000_000_000;

pub fn v3_add(a: &Vec3, b: &Vec3) -> (r: Vec3)
    requires
        bounded_s(a@, COMP_LIMIT as int),
        bounded_s(b@, COMP_LIMIT as int),
    ensures
        r@ == v3_add_s(a@, b@),
{
    Vec3 { x: a.x + b.x, y: a.y + b.y, z: a.z + b.z }
}

pub fn v3_sub(a: &Vec3, b: &Vec3) -> (r: Vec3)
    requires
        bounded_s(a@, COMP_LIMIT as int),
        bounded_s(b@, COMP_LIMIT as int),
    ensures
        r@ == v3_sub_s(a@, b@),
{
    Vec3 { x: a.x - b.x, y: a.y - b.y, z: a.z - b.z }
}

pub fn v3_neg(a: &Vec3) -> (r: Vec3)
    requires
        bounded_s(a@, COMP_LIMIT as int),
    ensures
        r@ == v3_neg_s(a@),
{
    Vec3 { x: -a.x, y: -a.y, z: -a.z }
}

pub fn v3_scale(v: &Vec3, k: i128) -> (r: Vec3)
    requires
        -PROD_LIMIT <= v.x * k <= PROD_LIMIT,
        -PROD_LIMIT <= v.y * k <= PROD_LIMIT,
        -PROD_LIMIT <= v.z * k <= PROD_LIMIT,
    ensures
        r@ == v3_scale_s(v@, k as int),
{
    Vec3 { x: fx_mul(v.x, k), y: fx_mul(v.y, k), z: fx_mul(v.z, k) }
}

pub fn v3_divs(v: &Vec3, k: i128) -> (r: Vec3)
    requires
        k != 0,
        -DIV_LIMIT <= v.x <= DIV_LIMIT,
        -DIV_LIMIT <= v.y <= DIV_LIMIT,
        -DIV_LIMIT <= v.z <= DIV_LIMIT,
        -DIV_LIMIT <= k <= DIV_LIMIT,
    ensures
        r@ == v3_divs_s(v@, k as int),
{
    Vec3 { x: fx_div(v.x, k), y: fx_div(v.y, k), z: fx_div(v.z, k) }
}

pub fn v3_dot(a: &Vec3, b: &Vec3) -> (r: i128)
    requires
        -PROD_LIMIT <= a.x * b.x <= PROD_LIMIT,
        -PROD_LIMIT <= a.y * b.y <= PROD_LIMIT,
        -PROD_LIMIT <= a.z * b.z <= PROD_LIMIT,
    ensures
        r == v3_dot_s(a@, b@),
{
    let tx = fx_mul(a.x, b.x);
    let ty = fx_mul(a.y, b.y);
    let tz = fx_mul(a.z, b.z);
    tx + ty + tz
}

pub fn v3_comp_mul(a: &Vec3, b: &Vec3) -> (r: Vec3)
    requires
        -PROD_LIMIT <= a.x * b.x <= PROD_LIMIT,
        -PROD_LIMIT <= a.y * b.y <= PROD_LIMIT,
        -PROD_LIMIT <= a.z * b.z <= PROD_LIMIT,
    ensures
        r@ == v3_comp_mul_s(a@, b@),
{
    Vec3 { x: fx_mul(a.x, b.x), y: fx_mul(a.y, b.y), z: fx_mul(a.z, b.z) }
}

pub fn v3_cross(a: &Vec3, b: &Vec3) -> (r: Vec3)
    requires
        bounded_s(a@, 1_000_000_000_000_000_000),
        bounded_s(b@, 1_000_000_000_000_000_000),
    ensures
        r@ == v3_cross_s(a@, b@),
{
    proof {
        lemma_prod_bound(a.y as int, b.z as int, 1_000_000_000_000_000_000);
        lemma_prod_bound(a.z as int, b.y as int, 1_000_000_000_000_000_000);
        lemma_prod_bound(a.z as int, b.x as int, 1_000_000_000_000_000_000);
        lemma_prod_bound(a.x as int, b.z as int, 1_000_000_000_000_000_000);
        lemma_prod_bound(a.x as int, b.y as int, 1_000_000_000_000_000_000);
        lemma_prod_bound(a.y as int, b.x as int, 1_000_000_000_000_000_000);
    }
    Vec3 {
        x: fx_mul(a.y, b.z) - fx_mul(a.z, b.y),
        y: fx_mul(a.z, b.x) - fx_mul(a.x, b.z),
        z: fx_mul(a.x, b.y) - fx_mul(a.y, b.x),
    }
}

/// A product of two factors bounded by `m` is bounded by `m * m`.
pub proof fn lemma_prod_bound(a: int, b: int, m: int) by (nonlinear_arith)
    requires
        0 <= m,
        -m <= a <= m,
        -m <= b <= m,
    ensures
        -(m * m) <= a * b <= m * m,
{
}

/// A product is bounded by the product of the factors' bounds.
pub proof fn lemma_prod_bound2(a: int, b: int, ma: int, mb: int) by (nonlinear_arith)
    requires
        0 <= ma,
        0 <= mb,
        -ma <= a <= ma,
        -mb <= b <= mb,
    ensures
        -(ma * mb) <= a * b <= ma * mb,
{
}

/// The fixed-point square of any scalar is non-negative.
pub proof fn lemma_fx_square_nonneg(c: int)
    ensures
        fx_mul_s(c, c) >= 0,
{
    assert(c * c >= 0) by (nonlinear_arith);
}

pub fn v3_norm_sq(v: &Vec3) -> (r: i128)
    requires
        bounded_s(v@, 1_000_000_000_000_000_000),
    ensures
        r == v3_norm_sq_s(v@),
        r >= 0,
{
    proof {
        lemma_prod_bound(v.x as int, v.x as int, 1_000_000_000_000_000_000);
        lemma_prod_bound(v.y as int, v.y as int, 1_000_000_000_000_000_000);
        lemma_prod_bound(v.z as int, v.z as int, 1_000_000_000_000_000_000);
        lemma_fx_square_nonneg(v.x as int);
        lemma_fx_square_nonneg(v.y as int);
        lemma_fx_square_nonneg(v.z as int);
    }
    v3_dot(v, v)
}

pub fn v3_norm(v: &Vec3) -> (r: i128)
    requires
        bounded_s(v@, 1_000_000_000_000_000_000),
    ensures
        r == v3_norm_s(v@),
        r >= 0,
        is_sqrt_floor(v3_norm_sq_s(v@) * SCALE, r as int),
{
    proof {
        lemma_prod_bound(v.x as int, v.x as int, 1_000_000_000_000_000_000);
        lemma_prod_bound(v.y as int, v.y as int, 1_000_000_000_000_000_000);
        lemma_prod_bound(v.z as int, v.z as int, 1_000_000_000_000_000_000);
    }
    let ns = v3_norm_sq(v);
    fx_sqrt(ns)
}

/// Each component of a rescaled vector stays within twice the unit length:
/// a component cannot exceed the whole norm by more than rounding allows.
proof fn lemma_unit_comp_bound(c: int, ns: int, norm: int)
    requires
        fx_mul_s(c, c) <= ns,
        1 <= ns,
        is_sqrt_floor(ns * SCALE, norm),
    ensures
        -2_000_000 <= fx_div_s(c, norm) <= 2_000_000,
        1000 <= norm,
{
    assert(1000 <= norm) by (nonlinear_arith)
        requires
            0 <= norm,
            1_000_000 <= ns * 1_000_000,
            ns * 1_000_000 < (norm + 1) * (norm + 1),
    ;
    assert(c * c >= 0) by (nonlinear_arith);
    lemma_fundamental_div_mod(c * c, SCALE as int);
    lemma_mod_pos_bound(c * c, SCALE as int);
    assert(c * c <= 1_000_000 * ns + 999_999);
    assert(-2 * norm <= c <= 2 * norm) by (nonlinear_arith)
        requires
            c * c <= 1_000_000 * ns + 999_999,
            ns * 1_000_000 < (norm + 1) * (norm + 1),
            1000 <= norm,
    ;
    assert(c * SCALE <= norm * 2_000_000);
    assert(norm * (-2_000_000) <= c * SCALE);
    lemma_div_is_ordered(c * SCALE, norm * 2_000_000, norm);
    lemma_div_is_ordered(norm * (-2_000_000), c * SCALE, norm);
    lemma_div_multiples_vanish(2_000_000, norm);
    lemma_div_multiples_vanish(-2_000_000, norm);
}

pub fn v3_unit(v: &Vec3) -> (r: Vec3)
    requires
        bounded_s(v@, 10_000_000_000),
        v3_norm_sq_s(v@) >= 1,
    ensures
        r@ == v3_unit_s(v@),
        bounded_s(r@, 2_000_000),
{
    proof {
        lemma_prod_bound(v.x as int, v.x as int, 10_000_000_000);
        lemma_prod_bound(v.y as int, v.y as int, 10_000_000_000);
        lemma_prod_bound(v.z as int, v.z as int, 10_000_000_000);
    }
    let ns = v3_norm_sq(v);
    let norm = fx_sqrt(ns);
    proof {
        assert(norm <= 20_000_000_000) by (nonlinear_arith)
            requires
                0 <= norm,
                norm as int * norm as int <= 300_000_000_000_002int * 1_000_000int,
        ;
        lemma_fx_square_nonneg(v.x as int);
        lemma_fx_square_nonneg(v.y as int);
        lemma_fx_square_nonneg(v.z as int);
        lemma_unit_comp_bound(v.x as int, ns as int, norm as int);
        lemma_unit_comp_bound(v.y as int, ns as int, norm as int);
        lemma_unit_comp_bound(v.z as int, ns as int, norm as int);
    }
    v3_divs(v, norm)
}

} // verus!
