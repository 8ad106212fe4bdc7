//! Spheres and their ray intersection test.
//!
//! The quadratic intersection uses the half-b form; the spec-level model
//! `sphere_hit_s` pins every arithmetic step of the test, including the
//! rounding of each product, quotient and the square root.

use crate::fixed::{
    abs_s, fx_div, fx_div_s, fx_mul, fx_mul_s, fx_sqrt, fx_sqrt_s, is_sqrt_floor,
    lemma_fx_div_mag, SCALE,
};
use crate::hit::{HitRec, HitRecord};
use crate::material::{material_wf_s, Material};
use crate::ray::{ray_at_s, ray_wf_s, Ray, T_LIMIT};
use crate::vec3::{
    bounded_s, lemma_prod_bound2, v3_divs, v3_divs_s, v3_dot, v3_dot_s, v3_neg, v3_neg_s,
    v3_norm_sq, v3_norm_sq_s, v3_sub, v3_sub_s, Vec3, V3,
};
use vstd::prelude::*;

verus! {

/// Largest magnitude allowed for a sphere center component or radius.
pub const SPHERE_LIMIT: i128 = 10_000_000_000;

/// A sphere with a signed radius: a negative radius flips the stored
/// normal, which models hollow inner surfaces.
#[derive(Clone, Copy, Debug, PartialEq, Eq, Structural)]
pub struct Sphere {
    pub center: Vec3,
    pub radius: i128,
    pub material: Material,
}

impl Sphere {
    /// A sphere the tracer can work on: center and radius within the
    /// machine range, radius non-zero, material well-formed.
    pub open spec fn wf(self) -> bool {
        &&& bounded_s(self.center@, SPHERE_LIMIT as int)
        &&& self.radius != 0
        &&& -SPHERE_LIMIT <= self.radius <= SPHERE_LIMIT
        &&& material_wf_s(self.material)
    }

    pub fn new(center: Vec3, radius: i128, material: Material) -> (s: Sphere)
        ensures
            s.center == center,
            s.radius == radius,
            s.material == material,
    {
        Sphere { center, radius, material }
    }
}

/// Offset of the ray origin from the sphere center.
pub open spec fn sphere_oc_s(s: Sphere, r: Ray) -> V3 {
    v3_sub_s(r.origin@, s.center@)
}

/// Squared length of the ray direction (the quadratic's leading term).
pub open spec fn sphere_a_s(r: Ray) -> int {
    v3_norm_sq_s(r.direction@)
}

/// Half the quadratic's linear term.
pub open spec fn sphere_half_b_s(s: Sphere, r: Ray) -> int {
    v3_dot_s(sphere_oc_s(s, r), r.direction@)
}

/// The quadratic's constant term.
pub open spec fn sphere_c_s(s: Sphere, r: Ray) -> int {
    v3_norm_sq_s(sphere_oc_s(s, r)) - fx_mul_s(s.radius as int, s.radius as int)
}

/// The half-b discriminant: negative exactly when the ray's line misses
/// the sphere.
pub open spec fn sphere_disc_s(s: Sphere, r: Ray) -> int {
    fx_mul_s(sphere_half_b_s(s, r), sphere_half_b_s(s, r)) - fx_mul_s(
        sphere_a_s(r),
        sphere_c_s(s, r),
    )
}

/// The intersection parameter reported for a hit: the nearer quadratic
/// root if it lies in `[t_min, t_max]`, else the farther one.
pub open spec fn sphere_root_s(s: Sphere, r: Ray, t_min: int, t_max: int) -> int {
    let half_b = sphere_half_b_s(s, r);
    let sd = fx_sqrt_s(sphere_disc_s(s, r));
    let root1 = fx_div_s(-half_b - sd, sphere_a_s(r));
    if t_min <= root1 && root1 <= t_max {
        root1
    } else {
        fx_div_s(-half_b + sd, sphere_a_s(r))
    }
}

/// The record a hit produces: hit point, outward normal (negated exactly
/// by a negative radius, the hollow-sphere construction), parameter,
/// material, and whether the ray struck the outside of the surface.
pub open spec fn sphere_rec_s(s: Sphere, r: Ray, root: int) -> HitRec {
    let p = ray_at_s(r, root);
    let n0 = v3_divs_s(v3_sub_s(p, s.center@), abs_s(s.radius as int));
    let n = if s.radius < 0 {
        v3_neg_s(n0)
    } else {
        n0
    };
    HitRec {
        point: p,
        normal: n,
        t: root,
        material: s.material,
        front_face: v3_dot_s(r.direction@, n) <= 0,
    }
}

/// Full model of the intersection test over `[t_min, t_max]`.
pub open spec fn sphere_hit_s(s: Sphere, r: Ray, t_min: int, t_max: int) -> Option<HitRec> {
    if sphere_disc_s(s, r) < 0 {
        None
    } else {
        let root = sphere_root_s(s, r, t_min, t_max);
        if t_min <= root && root <= t_max {
            Some(sphere_rec_s(s, r, root))
        } else {
            None
        }
    }
}

/// A negative discriminant (the ray's line passes farther from the center
/// than the radius) yields no hit, whatever the parameter range.
pub proof fn lemma_miss_when_disc_negative(s: Sphere, r: Ray, t_min: int, t_max: int)
    requires
        sphere_disc_s(s, r) < 0,
    ensures
        sphere_hit_s(s, r, t_min, t_max) is None,
{
}

/// A ray fired down the axis from distance `d` straight at a sphere of
/// radius `rad` centered at the origin hits at parameter `d - rad`, with
/// the stored normal pointing straight back along the axis and the front
/// face flagged.  The radius must land squarely on the fixed-point grid
/// (`rad * rad` divisible by `SCALE`), so that no step rounds.
pub proof fn lemma_axis_ray_hit(s: Sphere, r: Ray, d: int, rad: int, t_min: int, t_max: int)
    requires
        0 < rad < d,
        (rad * rad) % (SCALE as int) == 0,
        s.center@ == (V3 { x: 0, y: 0, z: 0 }),
        s.radius == rad,
        r.origin@ == (V3 { x: 0, y: 0, z: d }),
        r.direction@ == (V3 { x: 0, y: 0, z: -(SCALE as int) }),
        t_min <= d - rad <= t_max,
    ensures
        sphere_hit_s(s, r, t_min, t_max) is Some,
        sphere_hit_s(s, r, t_min, t_max)->Some_0.t == d - rad,
        sphere_hit_s(s, r, t_min, t_max)->Some_0.normal == (V3 { x: 0, y: 0, z: SCALE as int }),
        sphere_hit_s(s, r, t_min, t_max)->Some_0.front_face,
{
    let sc = SCALE as int;
    vstd::arithmetic::div_mod::lemma_div_of0(sc);
    let rsq = fx_mul_s(rad, rad);
    vstd::arithmetic::div_mod::lemma_fundamental_div_mod(rad * rad, sc);
    assert(rsq * sc == rad * rad) by (nonlinear_arith)
        requires
            rad * rad == sc * rsq + (rad * rad) % sc,
            (rad * rad) % sc == 0,
            sc == 1_000_000,
    ;
    assert(sphere_half_b_s(s, r) == -d) by {
        assert(d * -sc == sc * -d) by (nonlinear_arith);
        vstd::arithmetic::div_mod::lemma_div_multiples_vanish(-d, sc);
    }
    assert(sphere_a_s(r) == sc) by {
        assert(-sc * -sc == sc * sc) by (nonlinear_arith);
        vstd::arithmetic::div_mod::lemma_div_multiples_vanish(sc, sc);
    }
    let c = sphere_c_s(s, r);
    assert(c == fx_mul_s(d, d) - rsq);
    assert(fx_mul_s(sc, c) == c) by {
        vstd::arithmetic::div_mod::lemma_div_multiples_vanish(c, sc);
    }
    assert(fx_mul_s(-d, -d) == fx_mul_s(d, d)) by {
        assert(-d * -d == d * d) by (nonlinear_arith);
    }
    assert(sphere_disc_s(s, r) == rsq);
    assert(rsq >= 0) by (nonlinear_arith)
        requires
            rsq * sc == rad * rad,
            sc == 1_000_000,
    ;
    assert(is_sqrt_floor(rad * rad, rad)) by (nonlinear_arith)
        requires
            0 < rad,
    ;
    crate::fixed::lemma_sqrt_floor_unique(rad * rad, rad);
    assert(fx_sqrt_s(rsq) == rad);
    let root1 = fx_div_s(-sphere_half_b_s(s, r) - rad, sc);
    assert(root1 == d - rad) by {
        assert((d - rad) * sc == sc * (d - rad)) by (nonlinear_arith);
        vstd::arithmetic::div_mod::lemma_div_multiples_vanish(d - rad, sc);
    }
    assert(sphere_root_s(s, r, t_min, t_max) == d - rad);
    let p = ray_at_s(r, d - rad);
    assert(fx_mul_s(0, d - rad) == 0);
    assert(fx_mul_s(-sc, d - rad) == -(d - rad)) by {
        assert(-sc * (d - rad) == sc * -(d - rad)) by (nonlinear_arith);
        vstd::arithmetic::div_mod::lemma_div_multiples_vanish(-(d - rad), sc);
    }
    assert(p =~= (V3 { x: 0, y: 0, z: rad }));
    assert(abs_s(rad) == rad);
    let n = v3_divs_s(v3_sub_s(p, s.center@), rad);
    assert(fx_div_s(0, rad) == 0) by {
        vstd::arithmetic::div_mod::lemma_div_of0(rad);
    }
    assert(fx_div_s(rad, rad) == sc) by {
        assert(rad * sc == sc * rad) by (nonlinear_arith);
        vstd::arithmetic::div_mod::lemma_div_multiples_vanish(sc, rad);
    }
    assert(n =~= (V3 { x: 0, y: 0, z: sc }));
    assert(sphere_rec_s(s, r, d - rad).normal == n);
    assert(fx_mul_s(-sc, sc) == -sc) by {
        assert(-sc * sc == sc * -sc) by (nonlinear_arith);
        vstd::arithmetic::div_mod::lemma_div_multiples_vanish(-sc, sc);
    }
    assert(v3_dot_s(r.direction@, n) == -sc);
}

/// Negating a sphere's radius changes nothing of the intersection but the
/// stored normal, which is negated exactly: the same rays hit, at the same
/// parameter and point, with the same material.  This is the hollow-sphere
/// construction of the signed radius.
pub proof fn lemma_negated_radius_flips_normal(
    s: Sphere,
    s2: Sphere,
    r: Ray,
    t_min: int,
    t_max: int,
)
    requires
        s.radius > 0,
        s2.center == s.center,
        s2.radius as int == -(s.radius as int),
        s2.material == s.material,
    ensures
        (sphere_hit_s(s, r, t_min, t_max) is Some) == (sphere_hit_s(s2, r, t_min, t_max) is Some),
        sphere_hit_s(s, r, t_min, t_max) is Some ==> {
            let h = sphere_hit_s(s, r, t_min, t_max)->Some_0;
            let h2 = sphere_hit_s(s2, r, t_min, t_max)->Some_0;
            &&& h2.t == h.t
            &&& h2.point == h.point
            &&& h2.material == h.material
            &&& h2.normal == v3_neg_s(h.normal)
        },
{
    let rad = s.radius as int;
    assert(fx_mul_s(s2.radius as int, s2.radius as int) == fx_mul_s(rad, rad)) by {
        assert((-rad) * (-rad) == rad * rad) by (nonlinear_arith);
    }
    assert(sphere_oc_s(s2, r) == sphere_oc_s(s, r));
    assert(sphere_c_s(s2, r) == sphere_c_s(s, r));
    assert(sphere_half_b_s(s2, r) == sphere_half_b_s(s, r));
    assert(sphere_disc_s(s2, r) == sphere_disc_s(s, r));
    assert(sphere_root_s(s2, r, t_min, t_max) == sphere_root_s(s, r, t_min, t_max));
    if sphere_hit_s(s, r, t_min, t_max) is Some {
        let root = sphere_root_s(s, r, t_min, t_max);
        assert(abs_s(s2.radius as int) == rad);
        assert(sphere_rec_s(s2, r, root).normal == v3_neg_s(sphere_rec_s(s, r, root).normal));
    }
}

impl Sphere {
    /// Intersect the ray with the sphere over `[t_min, t_max]`; exact
    /// image of `sphere_hit_s`.
    pub fn hit(&self, r: &Ray, t_min: i128, t_max: i128) -> (res: Option<HitRecord>)
        requires
            self.wf(),
            ray_wf_s(*r),
            -T_LIMIT <= t_min <= T_LIMIT,
            -T_LIMIT <= t_max <= T_LIMIT,
        ensures
            (res is Some) == (sphere_hit_s(*self, *r, t_min as int, t_max as int) is Some),
            res matches Some(h) ==> h@ == sphere_hit_s(*self, *r, t_min as int, t_max as int)->Some_0,
    {
        let oc = v3_sub(&r.origin, &self.center);
        proof {
            lemma_prod_bound2(r.direction.x as int, r.direction.x as int, 10_000_000_000, 10_000_000_000);
            lemma_prod_bound2(r.direction.y as int, r.direction.y as int, 10_000_000_000, 10_000_000_000);
            lemma_prod_bound2(r.direction.z as int, r.direction.z as int, 10_000_000_000, 10_000_000_000);
            lemma_prod_bound2(oc.x as int, oc.x as int, 200_000_000_000_000, 200_000_000_000_000);
            lemma_prod_bound2(oc.y as int, oc.y as int, 200_000_000_000_000, 200_000_000_000_000);
            lemma_prod_bound2(oc.z as int, oc.z as int, 200_000_000_000_000, 200_000_000_000_000);
            lemma_prod_bound2(oc.x as int, r.direction.x as int, 200_000_000_000_000, 10_000_000_000);
            lemma_prod_bound2(oc.y as int, r.direction.y as int, 200_000_000_000_000, 10_000_000_000);
            lemma_prod_bound2(oc.z as int, r.direction.z as int, 200_000_000_000_000, 10_000_000_000);
            lemma_prod_bound2(self.radius as int, self.radius as int, 10_000_000_000, 10_000_000_000);
        }
        let a = v3_norm_sq(&r.direction);
        let half_b = v3_dot(&oc, &r.direction);
        let c = v3_norm_sq(&oc) - fx_mul(self.radius, self.radius);
        proof {
            lemma_prod_bound2(half_b as int, half_b as int, 7_000_000_000_000_000_000, 7_000_000_000_000_000_000);
            lemma_prod_bound2(a as int, c as int, 300_000_000_000_002, 130_000_000_000_000_000_000_000);
        }
        let disc = fx_mul(half_b, half_b) - fx_mul(a, c);
        if disc < 0 {
            return None;
        }
        let sqrt_d = fx_sqrt(disc);
        proof {
            assert(sqrt_d <= 10_000_000_000_000_000_000_000) by (nonlinear_arith)
                requires
                    0 <= sqrt_d,
                    sqrt_d as int * sqrt_d as int <= disc as int * 1_000_000
                        <= 100_000_000_000_000_000_000_000_000_000_000_000_000int,
            ;
            assert(a >= 1);
        }
        let mut root = fx_div(-half_b - sqrt_d, a);
        if root < t_min || t_max < root {
            root = fx_div(-half_b + sqrt_d, a);
            if root < t_min || t_max < root {
                return None;
            }
        }
        proof {
            assert(root as int == sphere_root_s(*self, *r, t_min as int, t_max as int));
            lemma_prod_bound2(r.direction.x as int, root as int, 10_000_000_000, 100_000_000_000_000);
            lemma_prod_bound2(r.direction.y as int, root as int, 10_000_000_000, 100_000_000_000_000);
            lemma_prod_bound2(r.direction.z as int, root as int, 10_000_000_000, 100_000_000_000_000);
        }
        let p = r.at(root);
        let pc = v3_sub(&p, &self.center);
        let rad_abs: i128 = if self.radius < 0 {
            -self.radius
        } else {
            self.radius
        };
        let n0 = v3_divs(&pc, rad_abs);
        proof {
            lemma_fx_div_mag(pc.x as int, rad_abs as int);
            lemma_fx_div_mag(pc.y as int, rad_abs as int);
            lemma_fx_div_mag(pc.z as int, rad_abs as int);
        }
        let n = if self.radius < 0 {
            v3_neg(&n0)
        } else {
            n0
        };
        proof {
            lemma_prod_bound2(r.direction.x as int, n.x as int, 10_000_000_000, 2_000_000_000_000_000_000_000_000);
            lemma_prod_bound2(r.direction.y as int, n.y as int, 10_000_000_000, 2_000_000_000_000_000_000_000_000);
            lemma_prod_bound2(r.direction.z as int, n.z as int, 10_000_000_000, 2_000_000_000_000_000_000_000_000);
        }
        let ff = v3_dot(&r.direction, &n) <= 0;
        let rec = HitRecord { point: p, normal: n, t: root, material: self.material, front_face: ff };
        proof {
            assert(rec@ =~= sphere_rec_s(*self, *r, root as int));
        }
        Some(rec)
    }
}

} // verus!
