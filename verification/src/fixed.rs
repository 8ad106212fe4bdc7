//! Fixed-point scalar arithmetic: values are `i128` counts of millionths.
//!
//! Every operation has an exact spec-level counterpart (`fx_mul_s`,
//! `fx_div_s`, `fx_sqrt_s`) that fixes the rounding: products and quotients
//! round toward negative infinity, square roots round down.

use vstd::arithmetic::div_mod::{lemma_fundamental_div_mod, lemma_fundamental_div_mod_converse};
use vstd::prelude::*;

verus! {

/// Number of raw integer steps per unit value: a scalar `x` represents the
/// real number `x / SCALE`.
pub const SCALE: i128 = 1_000_000;

/// One half, in raw steps.
pub const HALF: i128 = 500_000;

/// Largest magnitude allowed for the raw product of two factors, far below
/// the `i128` range so that products of in-range scalars never overflow.
pub const MUL_LIMIT: i128 = 100_000_000_000_000_000_000_000_000_000_000_000_000;

/// Largest magnitude allowed for a dividend, so that scaling it by `SCALE`
/// stays within `i128`.
pub const DIV_LIMIT: i128 = 10_000_000_000_000_000_000_000_000_000_000;

/// Largest radicand accepted by `fx_sqrt`, so that scaling it by `SCALE`
/// stays within `i128`.
pub const SQRT_LIMIT: i128 = 100_000_000_000_000_000_000_000_000_000_000;

/// Fixed-point product: the real product of the two represented values,
/// rounded toward negative infinity onto the grid.
pub open spec fn fx_mul_s(a: int, b: int) -> int {
    (a * b) / (SCALE as int)
}

/// Fixed-point quotient: the real quotient of the two represented values,
/// rounded toward negative infinity onto the grid.
pub open spec fn fx_div_s(a: int, b: int) -> int {
    if b > 0 {
        (a * SCALE) / b
    } else {
        (-(a * SCALE)) / (-b)
    }
}

/// Magnitude of a scalar.
pub open spec fn abs_s(x: int) -> int {
    if x >= 0 {
        x
    } else {
        -x
    }
}

/// A quotient is no larger in magnitude than its scaled dividend.
pub proof fn lemma_fx_div_mag(a: int, b: int)
    requires
        b != 0,
    ensures
        -(abs_s(a) * SCALE) <= fx_div_s(a, b) <= abs_s(a) * SCALE,
{
    let n = if b > 0 {
        a * SCALE
    } else {
        -(a * SCALE)
    };
    let d = if b > 0 {
        b
    } else {
        -b
    };
    assert(1 <= d);
    assert(-(abs_s(a) * SCALE) <= n <= abs_s(a) * SCALE) by (nonlinear_arith)
        requires
            n == a * SCALE || n == -(a * SCALE),
    ;
    lemma_fundamental_div_mod(n, d);
    let q = n / d;
    let m = n % d;
    assert(0 <= m < d) by {
        vstd::arithmetic::div_mod::lemma_mod_bound(n, d);
    }
    assert(-abs_s(n) <= q <= abs_s(n)) by (nonlinear_arith)
        requires
            n == d * q + m,
            0 <= m < d,
            1 <= d,
    ;
}

/// `r` is the integer square root of `n`, rounded down.
pub open spec fn is_sqrt_floor(n: int, r: int) -> bool {
    0 <= r && r * r <= n && n < (r + 1) * (r + 1)
}

/// The integer square root of `n`, rounded down (meaningful for `n >= 0`;
/// see `lemma_sqrt_floor_exists`).
pub open spec fn sqrt_floor(n: int) -> int {
    choose|r: int| is_sqrt_floor(n, r)
}

/// Fixed-point square root: the square root of the represented value,
/// rounded down onto the grid.
pub open spec fn fx_sqrt_s(a: int) -> int {
    sqrt_floor(a * SCALE)
}

/// Every non-negative integer has a rounded-down square root.
pub proof fn lemma_sqrt_floor_exists(n: int)
    requires
        n >= 0,
    ensures
        is_sqrt_floor(n, sqrt_floor(n)),
    decreases n,
{
    if n == 0 {
        assert(is_sqrt_floor(0, 0));
    } else {
        lemma_sqrt_floor_exists(n - 1);
        let r = sqrt_floor(n - 1);
        if (r + 1) * (r + 1) <= n {
            assert(is_sqrt_floor(n, r + 1)) by (nonlinear_arith)
                requires
                    is_sqrt_floor(n - 1, r),
                    (r + 1) * (r + 1) <= n,
            ;
        } else {
            assert(is_sqrt_floor(n, r));
        }
    }
}

/// The rounded-down square root is unique.
pub proof fn lemma_sqrt_floor_unique(n: int, r: int)
    requires
        is_sqrt_floor(n, r),
    ensures
        r == sqrt_floor(n),
{
    assert(n >= 0) by (nonlinear_arith)
        requires
            0 <= r && r * r <= n,
    ;
    lemma_sqrt_floor_exists(n);
    let r2 = sqrt_floor(n);
    assert(r == r2) by (nonlinear_arith)
        requires
            0 <= r && r * r <= n && n < (r + 1) * (r + 1),
            0 <= r2 && r2 * r2 <= n && n < (r2 + 1) * (r2 + 1),
    ;
}

/// Rounded-down division by a positive divisor, on machine integers.
fn div_floor_i(n: i128, d: i128) -> (q: i128)
    requires
        1 <= d,
        -170_141_183_460_469_231_731_687_303_715_884_105_727 <= n,
    ensures
        q == n as int / d as int,
{
    if n >= 0 {
        let q0: u128 = (n as u128) / (d as u128);
        q0 as i128
    } else {
        let m: u128 = (-n) as u128;
        let du: u128 = d as u128;
        let k: u128 = (m + (du - 1)) / du;
        proof {
            let mi = m as int;
            let di = d as int;
            let ki = k as int;
            lemma_fundamental_div_mod(mi + di - 1, di);
            let s = (mi + di - 1) % di;
            assert(mi + di - 1 == di * ki + s);
            let r = di * ki - mi;
            assert(r == di - 1 - s);
            assert(0 <= r < di);
            assert(ki <= mi) by (nonlinear_arith)
                requires
                    mi + di - 1 == di * ki + s,
                    0 <= s,
                    1 <= di,
                    1 <= mi,
            ;
            assert(n as int == (-ki) * di + r) by (nonlinear_arith)
                requires
                    r == di * ki - mi,
                    n as int == -mi,
            ;
            lemma_fundamental_div_mod_converse(n as int, di, -ki, r);
        }
        -(k as i128)
    }
}

/// Fixed-point multiplication; exact image of `fx_mul_s`.
pub fn fx_mul(a: i128, b: i128) -> (r: i128)
    requires
        -MUL_LIMIT <= a * b <= MUL_LIMIT,
    ensures
        r == fx_mul_s(a as int, b as int),
{
    let p: i128 = a * b;
    div_floor_i(p, SCALE)
}

/// Fixed-point division; exact image of `fx_div_s`.
pub fn fx_div(a: i128, b: i128) -> (r: i128)
    requires
        b != 0,
        -DIV_LIMIT <= a <= DIV_LIMIT,
        -DIV_LIMIT <= b <= DIV_LIMIT,
    ensures
        r == fx_div_s(a as int, b as int),
{
    let n: i128 = a * SCALE;
    if b > 0 {
        div_floor_i(n, b)
    } else {
        div_floor_i(-n, -b)
    }
}

/// Integer square root on `u128`, rounded down, by bisection.
fn isqrt_u(n: u128) -> (r: u128)
    ensures
        is_sqrt_floor(n as int, r as int),
{
    let mut lo: u128 = 0;
    let mut hi: u128 = 18_446_744_073_709_551_616;
    proof {
        assert(18_446_744_073_709_551_616int * 18_446_744_073_709_551_616int
            == 0x1_0000_0000_0000_0000_0000_0000_0000_0000int);
    }
    while hi - lo > 1
        invariant
            lo < hi <= 18_446_744_073_709_551_616,
            lo as int * lo as int <= n as int,
            (n as int) < hi as int * hi as int,
        decreases hi - lo,
    {
        let mid: u128 = lo + (hi - lo) / 2;
        assert(mid as int * mid as int <= u128::MAX) by (nonlinear_arith)
            requires
                mid < 18_446_744_073_709_551_616,
        ;
        let sq: u128 = mid * mid;
        if sq <= n {
            lo = mid;
        } else {
            hi = mid;
        }
    }
    lo
}

/// Fixed-point square root; exact image of `fx_sqrt_s`.
pub fn fx_sqrt(a: i128) -> (r: i128)
    requires
        0 <= a <= SQRT_LIMIT,
    ensures
        r == fx_sqrt_s(a as int),
        is_sqrt_floor(a * SCALE, r as int),
{
    let n: i128 = a * SCALE;
    let rq: u128 = isqrt_u(n as u128);
    assert(rq <= 0xffff_ffff_ffff_ffff_ffff_ffffu128) by (nonlinear_arith)
        requires
            rq as int * rq as int <= 100_000_000_000_000_000_000_000_000_000_000_000_000int,
    ;
    proof {
        lemma_sqrt_floor_unique(n as int, rq as int);
    }
    rq as i128
}

/// Smaller of two scalars.
pub fn fx_min(a: i128, b: i128) -> (r: i128)
    ensures
        r == if a as int <= b as int { a as int } else { b as int },
{
    if a <= b { a } else { b }
}

/// `x` clamped to `[lo, hi]`.
pub open spec fn clamp_s(x: int, lo: int, hi: int) -> int {
    if x < lo { lo } else if x > hi { hi } else { x }
}

/// Clamp a scalar to `[lo, hi]`.
pub fn fx_clamp(x: i128, lo: i128, hi: i128) -> (r: i128)
    requires
        lo <= hi,
    ensures
        r == clamp_s(x as int, lo as int, hi as int),
{
    if x < lo { lo } else if x > hi { hi } else { x }
}

} // verus!
