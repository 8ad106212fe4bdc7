//! Rays and the reflection / refraction direction formulas.

use crate::fixed::{fx_min, fx_sqrt, fx_sqrt_s, SCALE};
use crate::vec3::{
    bounded_s, lemma_prod_bound2, v3_add, v3_add_s, v3_dot, v3_dot_s, v3_neg, v3_neg_s,
    v3_norm_sq, v3_norm_sq_s, v3_scale, v3_scale_s, v3_sub, v3_sub_s, Vec3, V3,
};
use vstd::prelude::*;

verus! {

/// Largest magnitude allowed for a ray origin component.
pub const POS_LIMIT: i128 = 100_000_000_000_000;

/// Largest magnitude allowed for a ray direction component.
pub const DIR_LIMIT: i128 = 10_000_000_000;

/// Largest magnitude allowed for a ray parameter.
pub const T_LIMIT: i128 = 100_000_000_000_000;

/// A parametrized line: the point set `origin + t * direction`.  The
/// direction need not be unit length, but must be non-zero (see
/// [`ray_wf_s`]).
#[derive(Clone, Copy, Debug, PartialEq, Eq, Structural)]
pub struct Ray {
    pub origin: Vec3,
    pub direction: Vec3,
}

/// A ray the tracer can work on: components within the machine range and a
/// direction of at least one raw step of length.
pub open spec fn ray_wf_s(r: Ray) -> bool {
    &&& bounded_s(r.origin@, POS_LIMIT as int)
    &&& bounded_s(r.direction@, DIR_LIMIT as int)
    &&& v3_norm_sq_s(r.direction@) >= 1
}

/// The point the ray reaches at parameter `t`.
pub open spec fn ray_at_s(r: Ray, t: int) -> V3 {
    v3_add_s(r.origin@, v3_scale_s(r.direction@, t))
}

/// Mirror direction of `v` about the plane with normal `n`:
/// `v - 2*dot(v,n)*n`.
pub open spec fn reflect_s(v: V3, n: V3) -> V3 {
    v3_sub_s(v, v3_scale_s(n, 2 * v3_dot_s(v, n)))
}

/// Snell-law refraction of `v` through a surface with unit-length normal
/// `n` and refraction ratio `eta`, decomposed into components
/// perpendicular and parallel to `n`.  The caller must have ruled out
/// total internal reflection.
pub open spec fn refract_s(v: V3, n: V3, eta: int) -> V3 {
    let cos = if v3_dot_s(v3_neg_s(v), n) <= SCALE {
        v3_dot_s(v3_neg_s(v), n)
    } else {
        SCALE as int
    };
    let perp = v3_scale_s(v3_add_s(v, v3_scale_s(n, cos)), eta);
    let d = SCALE - v3_norm_sq_s(perp);
    let par_len = fx_sqrt_s(if d < 0 { -d } else { d });
    v3_add_s(perp, v3_scale_s(n, -par_len))
}

impl Ray {
    pub fn new(origin: Vec3, direction: Vec3) -> (r: Ray)
        ensures
            r.origin == origin,
            r.direction == direction,
    {
        Ray { origin, direction }
    }

    /// Evaluate the ray at parameter `t`.
    pub fn at(&self, t: i128) -> (p: Vec3)
        requires
            bounded_s(self.origin@, POS_LIMIT as int),
            bounded_s(self.direction@, DIR_LIMIT as int),
            -T_LIMIT <= t <= T_LIMIT,
        ensures
            p@ == ray_at_s(*self, t as int),
    {
        proof {
            lemma_prod_bound2(self.direction.x as int, t as int, DIR_LIMIT as int, T_LIMIT as int);
            lemma_prod_bound2(self.direction.y as int, t as int, DIR_LIMIT as int, T_LIMIT as int);
            lemma_prod_bound2(self.direction.z as int, t as int, DIR_LIMIT as int, T_LIMIT as int);
        }
        let step = v3_scale(&self.direction, t);
        v3_add(&self.origin, &step)
    }
}

/// Decide `ray_wf_s` on a concrete ray.
pub fn ray_wf(r: &Ray) -> (b: bool)
    ensures
        b == ray_wf_s(*r),
{
    let o = &r.origin;
    let d = &r.direction;
    let ob = -POS_LIMIT <= o.x && o.x <= POS_LIMIT && -POS_LIMIT <= o.y && o.y <= POS_LIMIT
        && -POS_LIMIT <= o.z && o.z <= POS_LIMIT;
    let db = -DIR_LIMIT <= d.x && d.x <= DIR_LIMIT && -DIR_LIMIT <= d.y && d.y <= DIR_LIMIT
        && -DIR_LIMIT <= d.z && d.z <= DIR_LIMIT;
    ob && db && v3_norm_sq(d) >= 1
}

/// Reflect `v` about the normal `n`; exact image of `reflect_s`.
pub fn reflect(v: &Vec3, n: &Vec3) -> (r: Vec3)
    requires
        bounded_s(v@, 1_000_000_000_000),
        bounded_s(n@, 1_000_000_000_000),
    ensures
        r@ == reflect_s(v@, n@),
{
    proof {
        lemma_prod_bound2(v.x as int, n.x as int, 1_000_000_000_000, 1_000_000_000_000);
        lemma_prod_bound2(v.y as int, n.y as int, 1_000_000_000_000, 1_000_000_000_000);
        lemma_prod_bound2(v.z as int, n.z as int, 1_000_000_000_000, 1_000_000_000_000);
    }
    let d = v3_dot(v, n);
    let k: i128 = 2 * d;
    proof {
        lemma_prod_bound2(n.x as int, k as int, 1_000_000_000_000, 7_000_000_000_000_000_000);
        lemma_prod_bound2(n.y as int, k as int, 1_000_000_000_000, 7_000_000_000_000_000_000);
        lemma_prod_bound2(n.z as int, k as int, 1_000_000_000_000, 7_000_000_000_000_000_000);
    }
    let scaled = v3_scale(n, k);
    v3_sub(v, &scaled)
}

/// Refract `v` through a surface with normal `n` and refraction ratio
/// `eta`; exact image of `refract_s`.
pub fn refract(v: &Vec3, n: &Vec3, eta: i128) -> (r: Vec3)
    requires
        bounded_s(v@, 10_000_000),
        bounded_s(n@, 10_000_000),
        0 <= eta <= 1_000_000_000_000,
    ensures
        r@ == refract_s(v@, n@, eta as int),
{
    let nv = v3_neg(v);
    proof {
        lemma_prod_bound2(nv.x as int, n.x as int, 10_000_000, 10_000_000);
        lemma_prod_bound2(nv.y as int, n.y as int, 10_000_000, 10_000_000);
        lemma_prod_bound2(nv.z as int, n.z as int, 10_000_000, 10_000_000);
    }
    let cos = fx_min(v3_dot(&nv, n), SCALE);
    proof {
        lemma_prod_bound2(n.x as int, cos as int, 10_000_000, 1_000_000_000);
        lemma_prod_bound2(n.y as int, cos as int, 10_000_000, 1_000_000_000);
        lemma_prod_bound2(n.z as int, cos as int, 10_000_000, 1_000_000_000);
    }
    let inner = v3_add(v, &v3_scale(n, cos));
    proof {
        lemma_prod_bound2(inner.x as int, eta as int, 20_000_000_000, 1_000_000_000_000);
        lemma_prod_bound2(inner.y as int, eta as int, 20_000_000_000, 1_000_000_000_000);
        lemma_prod_bound2(inner.z as int, eta as int, 20_000_000_000, 1_000_000_000_000);
    }
    let perp = v3_scale(&inner, eta);
    proof {
        lemma_prod_bound2(perp.x as int, perp.x as int, 21_000_000_000_000_000, 21_000_000_000_000_000);
        lemma_prod_bound2(perp.y as int, perp.y as int, 21_000_000_000_000_000, 21_000_000_000_000_000);
        lemma_prod_bound2(perp.z as int, perp.z as int, 21_000_000_000_000_000, 21_000_000_000_000_000);
    }
    let ns = v3_norm_sq(&perp);
    let d: i128 = SCALE - ns;
    let ad: i128 = if d < 0 { -d } else { d };
    let par_len = fx_sqrt(ad);
    proof {
        assert(par_len as int * par_len as int <= ad * 1_000_000);
        assert(par_len <= 400_000_000_000_000_000) by (nonlinear_arith)
            requires
                0 <= par_len,
                par_len as int * par_len as int <= 100_000_000_000_000_000_000_000_000_000_000_000int,
        ;
        lemma_prod_bound2(n.x as int, -(par_len as int), 10_000_000, 400_000_000_000_000_000);
        lemma_prod_bound2(n.y as int, -(par_len as int), 10_000_000, 400_000_000_000_000_000);
        lemma_prod_bound2(n.z as int, -(par_len as int), 10_000_000, 400_000_000_000_000_000);
    }
    let par = v3_scale(n, -par_len);
    v3_add(&perp, &par)
}

} // verus!
