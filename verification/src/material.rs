//! The material scattering models: diffuse (Lambertian), specular with
//! roughness (Metal) and refractive (Dielectric).
//!
//! Scattering consumes random draws; each model is specified for every
//! value the generator may hand back: the deterministic parts (origin,
//! attenuation, absorption condition) are pinned exactly, and the scattered
//! direction is pinned as a function of the draw.

use crate::fixed::{
    clamp_s, fx_clamp, fx_div, fx_div_s, fx_mul, fx_mul_s, fx_sqrt, fx_sqrt_s, SCALE,
};
use crate::hit::{rec_wf_s, HitRecord};
use crate::ray::{ray_wf_s, reflect, reflect_s, refract, refract_s, Ray};
use crate::rng::{is_sampled_unit, random_unit_vector, Rng};
use crate::vec3::{
    bounded_s, lemma_fx_square_nonneg, lemma_prod_bound2, v3_add, v3_add_s, v3_comp_mul_s, v3_dot,
    v3_dot_s, v3_neg, v3_neg_s, v3_norm_sq, v3_norm_sq_s, v3_scale, v3_scale_s, v3_unit,
    v3_unit_s, Vec3, V3,
};
use vstd::arithmetic::div_mod::{
    lemma_div_is_ordered, lemma_div_is_ordered_by_denominator, lemma_div_multiples_vanish,
    lemma_div_pos_is_pos,
};
use vstd::prelude::*;

verus! {

/// Largest refractive index accepted, in raw steps.
pub const IR_LIMIT: i128 = 1_000_000_000_000;

/// An RGB color with every channel in `[0, 1]`.
pub open spec fn color_wf_s(c: V3) -> bool {
    &&& 0 <= c.x <= SCALE
    &&& 0 <= c.y <= SCALE
    &&& 0 <= c.z <= SCALE
}

/// Diffuse surface: scatters around the normal, attenuates by its albedo.
#[derive(Clone, Copy, Debug, PartialEq, Eq, Structural)]
pub struct Lambertian {
    pub albedo: Vec3,
}

/// Specular reflector: mirrors the incoming direction, blurred by `fuzz`.
#[derive(Clone, Copy, Debug, PartialEq, Eq, Structural)]
pub struct Metal {
    pub albedo: Vec3,
    pub fuzz: i128,
}

/// Refractive surface (glass-like) with refractive index `ir`.
#[derive(Clone, Copy, Debug, PartialEq, Eq, Structural)]
pub struct Dielectric {
    pub ir: i128,
}

/// Closed set of material kinds, dispatched by a match.
#[derive(Clone, Copy, Debug, PartialEq, Eq, Structural)]
pub enum Material {
    Lambertian(Lambertian),
    Metal(Metal),
    Dielectric(Dielectric),
}

impl Lambertian {
    pub open spec fn wf(self) -> bool {
        color_wf_s(self.albedo@)
    }

    pub fn new(color: Vec3) -> (r: Lambertian)
        ensures
            r.albedo == color,
    {
        Lambertian { albedo: color }
    }
}

impl Metal {
    pub open spec fn wf(self) -> bool {
        &&& color_wf_s(self.albedo@)
        &&& 0 <= self.fuzz <= SCALE
    }

    pub fn new(color: Vec3, fuzz: i128) -> (r: Metal)
        ensures
            r.albedo == color,
            r.fuzz == fuzz,
    {
        Metal { albedo: color, fuzz }
    }
}

impl Dielectric {
    pub open spec fn wf(self) -> bool {
        1 <= self.ir <= IR_LIMIT
    }

    pub fn new(index_of_refraction: i128) -> (r: Dielectric)
        ensures
            r.ir == index_of_refraction,
    {
        Dielectric { ir: index_of_refraction }
    }
}

pub open spec fn material_wf_s(m: Material) -> bool {
    match m {
        Material::Lambertian(l) => l.wf(),
        Material::Metal(mt) => mt.wf(),
        Material::Dielectric(dl) => dl.wf(),
    }
}

/// Decide `material_wf_s` on a concrete material.
pub fn material_wf(m: &Material) -> (b: bool)
    ensures
        b == material_wf_s(*m),
{
    match m {
        Material::Lambertian(l) => {
            let a = &l.albedo;
            0 <= a.x && a.x <= SCALE && 0 <= a.y && a.y <= SCALE && 0 <= a.z && a.z <= SCALE
        },
        Material::Metal(mt) => {
            let a = &mt.albedo;
            0 <= a.x && a.x <= SCALE && 0 <= a.y && a.y <= SCALE && 0 <= a.z && a.z <= SCALE
                && 0 <= mt.fuzz && mt.fuzz <= SCALE
        },
        Material::Dielectric(dl) => 1 <= dl.ir && dl.ir <= IR_LIMIT,
    }
}

/// The attenuation a material applies to the light it scatters: the
/// albedo for diffuse and metal surfaces, pure white (no absorption) for
/// a dielectric.
pub open spec fn material_attenuation_s(m: Material) -> V3 {
    match m {
        Material::Lambertian(l) => l.albedo@,
        Material::Metal(mt) => mt.albedo@,
        Material::Dielectric(_) => V3 { x: SCALE as int, y: SCALE as int, z: SCALE as int },
    }
}

/// Scattered direction of a diffuse bounce: the normal plus a sampled unit
/// vector, falling back to the normal itself when the sum cancels to
/// nothing.
pub open spec fn lambertian_dir_s(normal: V3, ruv: V3) -> V3 {
    let d = v3_add_s(normal, ruv);
    if v3_norm_sq_s(d) == 0 {
        normal
    } else {
        d
    }
}

/// Mirror direction of a metal bounce, before fuzzing.
pub open spec fn metal_reflected_s(in_dir: V3, normal: V3) -> V3 {
    reflect_s(v3_unit_s(in_dir), normal)
}

/// A metal bounce absorbs the ray exactly when the mirror direction
/// points into the surface; the condition involves no random draw.
pub open spec fn metal_absorbs_s(r_in: Ray, h: crate::hit::HitRec) -> bool {
    &&& h.material is Metal
    &&& v3_dot_s(metal_reflected_s(r_in.direction@, h.normal), h.normal) <= 0
}

/// Attenuating colors in `[0, 1]` keeps every channel in `[0, 1]`.
pub proof fn lemma_color_mul(a: V3, b: V3)
    requires
        color_wf_s(a),
        color_wf_s(b),
    ensures
        color_wf_s(v3_comp_mul_s(a, b)),
{
    assert(0 <= a.x * b.x <= 1_000_000_000_000) by (nonlinear_arith)
        requires
            0 <= a.x <= 1_000_000 && 0 <= b.x <= 1_000_000,
    ;
    assert(0 <= a.y * b.y <= 1_000_000_000_000) by (nonlinear_arith)
        requires
            0 <= a.y <= 1_000_000 && 0 <= b.y <= 1_000_000,
    ;
    assert(0 <= a.z * b.z <= 1_000_000_000_000) by (nonlinear_arith)
        requires
            0 <= a.z <= 1_000_000 && 0 <= b.z <= 1_000_000,
    ;
}

/// Fifth fixed-point power.
pub open spec fn pow5_s(x: int) -> int {
    let x2 = fx_mul_s(x, x);
    let x4 = fx_mul_s(x2, x2);
    fx_mul_s(x4, x)
}

/// Schlick's approximation of the Fresnel reflectance:
/// `r0 + (1 - r0) * (1 - cos)^5` with `r0 = ((1 - ratio)/(1 + ratio))^2`.
pub open spec fn schlick_s(cos: int, ratio: int) -> int {
    let q = fx_div_s(SCALE - ratio, SCALE + ratio);
    let r0 = fx_mul_s(q, q);
    r0 + fx_mul_s(SCALE - r0, pow5_s(SCALE - cos))
}

/// Refraction ratio across the surface: `1/ir` entering the medium,
/// `ir` leaving it.
pub open spec fn dielectric_ratio_s(ir: int, front_face: bool) -> int {
    if front_face {
        fx_div_s(SCALE as int, ir)
    } else {
        ir
    }
}

/// Incidence cosine against the effective normal, clamped to `[-1, 1]` to
/// guard numeric overshoot.
pub open spec fn dielectric_cos_s(unit_dir: V3, n_eff: V3) -> int {
    clamp_s(v3_dot_s(v3_neg_s(unit_dir), n_eff), -(SCALE as int), SCALE as int)
}

/// Total internal reflection: Snell's law has no solution when
/// `ratio * sin > 1`.
pub open spec fn dielectric_cannot_refract_s(ratio: int, cos: int) -> bool {
    fx_mul_s(ratio, fx_sqrt_s(SCALE - fx_mul_s(cos, cos))) > SCALE
}

/// Scattered direction of a dielectric bounce, as a function of the
/// reflectance draw `u`.
pub open spec fn dielectric_dir_s(ir: int, front_face: bool, normal: V3, unit_dir: V3, u: int) -> V3 {
    let n_eff = if front_face {
        normal
    } else {
        v3_neg_s(normal)
    };
    let ratio = dielectric_ratio_s(ir, front_face);
    let cos = dielectric_cos_s(unit_dir, n_eff);
    if dielectric_cannot_refract_s(ratio, cos) || u < schlick_s(cos, ratio) {
        reflect_s(unit_dir, n_eff)
    } else {
        refract_s(unit_dir, n_eff, ratio)
    }
}

/// A dielectric whose index matches the surrounding medium (`ir == 1`)
/// has refraction ratio exactly one on both faces, never totally
/// internally reflects, and its Schlick reflectance at normal incidence
/// (`cos == 1`) is exactly zero, because `r0 == 0` there.
pub proof fn lemma_unity_dielectric(front_face: bool, cos: int)
    requires
        -SCALE <= cos <= SCALE,
    ensures
        dielectric_ratio_s(SCALE as int, front_face) == SCALE,
        !dielectric_cannot_refract_s(SCALE as int, cos),
        schlick_s(SCALE as int, SCALE as int) == 0,
{
    let sc = SCALE as int;
    vstd::arithmetic::div_mod::lemma_div_of0(sc);
    vstd::arithmetic::div_mod::lemma_div_of0(2 * sc);
    assert(fx_div_s(sc, sc) == sc) by {
        assert(sc * sc == sc * sc);
        vstd::arithmetic::div_mod::lemma_div_multiples_vanish(sc, sc);
    }
    let c2 = fx_mul_s(cos, cos);
    assert(0 <= cos * cos <= sc * sc) by (nonlinear_arith)
        requires
            -sc <= cos <= sc,
    ;
    assert(sc * sc == 1_000_000_000_000) by (nonlinear_arith)
        requires
            sc == 1_000_000,
    ;
    assert(0 <= c2 <= sc) by {
        vstd::arithmetic::div_mod::lemma_div_pos_is_pos(cos * cos, sc);
        vstd::arithmetic::div_mod::lemma_div_is_ordered(cos * cos, 1_000_000_000_000, sc);
    }
    let arg = (sc - c2) * sc;
    assert(0 <= arg <= 1_000_000_000_000) by (nonlinear_arith)
        requires
            0 <= sc - c2 <= sc,
            sc == 1_000_000,
            arg == (sc - c2) * sc,
    ;
    crate::fixed::lemma_sqrt_floor_exists(arg);
    let sin = fx_sqrt_s(sc - c2);
    assert(sin <= sc) by (nonlinear_arith)
        requires
            0 <= sin,
            sin * sin <= arg <= 1_000_000_000_000,
            sc == 1_000_000,
    ;
    assert(fx_mul_s(sc, sin) == sin) by {
        vstd::arithmetic::div_mod::lemma_div_multiples_vanish(sin, sc);
    }
    assert(schlick_s(sc, sc) == 0) by {
        assert(fx_div_s(sc - sc, sc + sc) == 0);
        assert(fx_mul_s(0, 0) == 0);
        assert(pow5_s(sc - sc) == 0);
        assert(fx_mul_s(sc - 0, 0) == 0);
    }
}

/// The scattered direction of a dielectric bounce came from some
/// reflectance draw in `[0, 1)`.
pub open spec fn dielectric_dir_post(ir: int, r_in: Ray, rec: HitRecord, res: Option<(Ray, Vec3)>) -> bool {
    exists|u: int|
        0 <= u < SCALE && res->Some_0.0.direction@ == dielectric_dir_s(
            ir,
            rec.front_face,
            rec.normal@,
            v3_unit_s(r_in.direction@),
            u,
        )
}

/// What `Material::scatter` promises, for every value of the random draws:
/// whether the ray continues, where it continues from, its attenuation,
/// and the scattered direction as a function of the draws.
pub open spec fn scatter_post_s(m: Material, r_in: Ray, rec: HitRecord, res: Option<(Ray, Vec3)>) -> bool {
    match m {
        Material::Lambertian(l) => {
            &&& res is Some
            &&& res->Some_0.0.origin == rec.point
            &&& res->Some_0.1 == l.albedo
            &&& exists|ruv: V3|
                is_sampled_unit(ruv) && res->Some_0.0.direction@ == lambertian_dir_s(
                    rec.normal@,
                    ruv,
                )
        },
        Material::Metal(mt) => {
            let refl = metal_reflected_s(r_in.direction@, rec.normal@);
            &&& (res is Some <==> v3_dot_s(refl, rec.normal@) > 0)
            &&& (res is Some ==> {
                &&& res->Some_0.0.origin == rec.point
                &&& res->Some_0.1 == mt.albedo
                &&& exists|ruv: V3|
                    is_sampled_unit(ruv) && res->Some_0.0.direction@ == v3_add_s(
                        refl,
                        v3_scale_s(ruv, mt.fuzz as int),
                    )
                &&& (mt.fuzz == 0 ==> res->Some_0.0.direction@ == refl)
            })
        },
        Material::Dielectric(dl) => {
            &&& res is Some
            &&& res->Some_0.0.origin == rec.point
            &&& res->Some_0.1 == (Vec3 { x: SCALE, y: SCALE, z: SCALE })
            &&& dielectric_dir_post(dl.ir as int, r_in, rec, res)
        },
    }
}

/// Scaling by zero yields the zero vector, so a fuzz of zero leaves the
/// mirror direction untouched.
proof fn lemma_scale_zero(v: V3, r: V3)
    ensures
        v3_add_s(r, v3_scale_s(v, 0)) =~= r,
{
    assert(v3_scale_s(v, 0).x == 0);
    assert(v3_scale_s(v, 0).y == 0);
    assert(v3_scale_s(v, 0).z == 0);
}

/// The reflection of a short vector about a short normal stays short.
pub proof fn lemma_reflect_bounded(v: V3, n: V3)
    requires
        bounded_s(v, 2_000_000),
        bounded_s(n, 4_000_000),
    ensures
        bounded_s(reflect_s(v, n), 400_000_000),
{
    lemma_prod_bound2(v.x, n.x, 2_000_000, 4_000_000);
    lemma_prod_bound2(v.y, n.y, 2_000_000, 4_000_000);
    lemma_prod_bound2(v.z, n.z, 2_000_000, 4_000_000);
    let d = v3_dot_s(v, n);
    assert(-25_000_000 <= d <= 25_000_000);
    lemma_prod_bound2(n.x, 2 * d, 4_000_000, 50_000_000);
    lemma_prod_bound2(n.y, 2 * d, 4_000_000, 50_000_000);
    lemma_prod_bound2(n.z, 2 * d, 4_000_000, 50_000_000);
}

impl Lambertian {
    /// Diffuse scattering: always continues, from the hit point, with the
    /// albedo as attenuation.
    pub fn scatter(&self, r_in: &Ray, rec: &HitRecord, rng: &mut Rng) -> (res: Option<(Ray, Vec3)>)
        requires
            rec_wf_s(rec@),
        ensures
            scatter_post_s(Material::Lambertian(*self), *r_in, *rec, res),
    {
        let ruv = random_unit_vector(rng);
        let d = v3_add(&rec.normal, &ruv);
        proof {
            lemma_prod_bound2(d.x as int, d.x as int, 6_000_000, 6_000_000);
            lemma_prod_bound2(d.y as int, d.y as int, 6_000_000, 6_000_000);
            lemma_prod_bound2(d.z as int, d.z as int, 6_000_000, 6_000_000);
        }
        let ns = v3_norm_sq(&d);
        let dir = if ns == 0 {
            rec.normal
        } else {
            d
        };
        proof {
            assert(dir@ == lambertian_dir_s(rec.normal@, ruv@));
        }
        Some((Ray { origin: rec.point, direction: dir }, self.albedo))
    }
}

impl Metal {
    /// Specular scattering: mirrors the incoming direction, perturbed by
    /// `fuzz`; absorbs the ray when the mirror direction points into the
    /// surface.
    pub fn scatter(&self, r_in: &Ray, rec: &HitRecord, rng: &mut Rng) -> (res: Option<(Ray, Vec3)>)
        requires
            self.wf(),
            rec_wf_s(rec@),
            ray_wf_s(*r_in),
        ensures
            scatter_post_s(Material::Metal(*self), *r_in, *rec, res),
    {
        let unit_in = v3_unit(&r_in.direction);
        let refl = reflect(&unit_in, &rec.normal);
        proof {
            lemma_reflect_bounded(unit_in@, rec.normal@);
        }
        let ruv = random_unit_vector(rng);
        proof {
            lemma_prod_bound2(ruv.x as int, self.fuzz as int, 2_000_000, 1_000_000);
            lemma_prod_bound2(ruv.y as int, self.fuzz as int, 2_000_000, 1_000_000);
            lemma_prod_bound2(ruv.z as int, self.fuzz as int, 2_000_000, 1_000_000);
        }
        let fz = v3_scale(&ruv, self.fuzz);
        let dir = v3_add(&refl, &fz);
        proof {
            lemma_prod_bound2(refl.x as int, rec.normal.x as int, 400_000_000, 4_000_000);
            lemma_prod_bound2(refl.y as int, rec.normal.y as int, 400_000_000, 4_000_000);
            lemma_prod_bound2(refl.z as int, rec.normal.z as int, 400_000_000, 4_000_000);
        }
        let facing = v3_dot(&refl, &rec.normal);
        if facing <= 0 {
            None
        } else {
            proof {
                if self.fuzz == 0 {
                    lemma_scale_zero(ruv@, refl@);
                }
            }
            Some((Ray { origin: rec.point, direction: dir }, self.albedo))
        }
    }
}

/// The first Schlick coefficient `(1 - ratio)/(1 + ratio)` lies in
/// `[-1, 1]` for every non-negative ratio.
proof fn lemma_schlick_q_bound(ratio: int)
    requires
        0 <= ratio,
    ensures
        -SCALE <= fx_div_s(SCALE - ratio, SCALE + ratio) <= SCALE,
{
    let den = SCALE + ratio;
    assert((SCALE - ratio) * SCALE <= den * SCALE) by (nonlinear_arith)
        requires
            0 <= ratio,
            den == SCALE + ratio,
    ;
    assert(den * (-SCALE) <= (SCALE - ratio) * SCALE) by (nonlinear_arith)
        requires
            0 <= ratio,
            den == SCALE + ratio,
    ;
    lemma_div_is_ordered((SCALE - ratio) * SCALE, den * SCALE, den);
    lemma_div_is_ordered(den * (-SCALE), (SCALE - ratio) * SCALE, den);
    lemma_div_multiples_vanish(SCALE as int, den);
    lemma_div_multiples_vanish(-(SCALE as int), den);
}

impl Dielectric {
    /// Schlick's approximation of the Fresnel reflectance; exact image of
    /// `schlick_s`.
    pub fn reflectance(cosine: i128, ref_idx: i128) -> (r: i128)
        requires
            -SCALE <= cosine <= SCALE,
            0 <= ref_idx <= IR_LIMIT,
        ensures
            r == schlick_s(cosine as int, ref_idx as int),
            0 <= r,
    {
        let q = fx_div(SCALE - ref_idx, SCALE + ref_idx);
        proof {
            lemma_schlick_q_bound(ref_idx as int);
            lemma_prod_bound2(q as int, q as int, SCALE as int, SCALE as int);
            lemma_fx_square_nonneg(q as int);
        }
        let r0 = fx_mul(q, q);
        let x: i128 = SCALE - cosine;
        proof {
            lemma_prod_bound2(x as int, x as int, 2_000_000, 2_000_000);
            lemma_fx_square_nonneg(x as int);
        }
        let x2 = fx_mul(x, x);
        proof {
            lemma_prod_bound2(x2 as int, x2 as int, 4_000_000, 4_000_000);
            lemma_fx_square_nonneg(x2 as int);
        }
        let x4 = fx_mul(x2, x2);
        proof {
            lemma_prod_bound2(x4 as int, x as int, 16_000_000, 2_000_000);
            assert(x4 as int * x as int >= 0) by (nonlinear_arith)
                requires
                    x4 as int >= 0,
                    x as int >= 0,
            ;
        }
        let x5 = fx_mul(x4, x);
        proof {
            lemma_prod_bound2((SCALE - r0) as int, x5 as int, SCALE as int, 32_000_000);
            assert((SCALE - r0) as int * x5 as int >= 0) by (nonlinear_arith)
                requires
                    SCALE - r0 >= 0,
                    x5 as int >= 0,
            ;
        }
        r0 + fx_mul(SCALE - r0, x5)
    }

    /// Refractive scattering: always continues from the hit point with no
    /// absorption; reflects on total internal reflection or with the
    /// Schlick probability, refracts otherwise.
    #[verifier::rlimit(40)]
    pub fn scatter(&self, r_in: &Ray, rec: &HitRecord, rng: &mut Rng) -> (res: Option<(Ray, Vec3)>)
        requires
            self.wf(),
            rec_wf_s(rec@),
            ray_wf_s(*r_in),
        ensures
            scatter_post_s(Material::Dielectric(*self), *r_in, *rec, res),
    {
        let ratio: i128 = if rec.front_face {
            proof {
                lemma_div_pos_is_pos(SCALE as int * SCALE as int, self.ir as int);
                lemma_div_is_ordered_by_denominator(SCALE as int * SCALE as int, 1, self.ir as int);
            }
            fx_div(SCALE, self.ir)
        } else {
            self.ir
        };
        let unit_in = v3_unit(&r_in.direction);
        let n_eff = if rec.front_face {
            rec.normal
        } else {
            v3_neg(&rec.normal)
        };
        let neg_unit = v3_neg(&unit_in);
        proof {
            lemma_prod_bound2(neg_unit.x as int, n_eff.x as int, 2_000_000, 4_000_000);
            lemma_prod_bound2(neg_unit.y as int, n_eff.y as int, 2_000_000, 4_000_000);
            lemma_prod_bound2(neg_unit.z as int, n_eff.z as int, 2_000_000, 4_000_000);
        }
        let d0 = v3_dot(&neg_unit, &n_eff);
        let cos = fx_clamp(d0, -SCALE, SCALE);
        proof {
            lemma_prod_bound2(cos as int, cos as int, SCALE as int, SCALE as int);
            lemma_fx_square_nonneg(cos as int);
        }
        let sin_sq: i128 = SCALE - fx_mul(cos, cos);
        let sin = fx_sqrt(sin_sq);
        proof {
            assert(sin <= SCALE) by (nonlinear_arith)
                requires
                    0 <= sin,
                    sin as int * sin as int <= 1_000_000_000_000int,
            ;
            lemma_prod_bound2(ratio as int, sin as int, IR_LIMIT as int, SCALE as int);
        }
        let cannot_refract = fx_mul(ratio, sin) > SCALE;
        let refl_prob = Dielectric::reflectance(cos, ratio);
        let u = rng.sample_unit_interval();
        let will_reflect = u < refl_prob;
        let dir = if cannot_refract || will_reflect {
            reflect(&unit_in, &n_eff)
        } else {
            refract(&unit_in, &n_eff, ratio)
        };
        let res = Some((Ray { origin: rec.point, direction: dir }, Vec3 { x: SCALE, y: SCALE, z: SCALE }));
        proof {
            assert(dir@ == dielectric_dir_s(
                self.ir as int,
                rec.front_face,
                rec.normal@,
                v3_unit_s(r_in.direction@),
                u as int,
            ));
            assert(dielectric_dir_post(self.ir as int, *r_in, *rec, res));
            assert(scatter_post_s(Material::Dielectric(*self), *r_in, *rec, res));
        }
        res
    }
}

impl Material {
    pub open spec fn wf(self) -> bool {
        material_wf_s(self)
    }

    /// Dispatch to the hit material's scattering model.
    pub fn scatter(&self, r_in: &Ray, rec: &HitRecord, rng: &mut Rng) -> (res: Option<(Ray, Vec3)>)
        requires
            self.wf(),
            rec_wf_s(rec@),
            ray_wf_s(*r_in),
        ensures
            scatter_post_s(*self, *r_in, *rec, res),
            res is Some ==> color_wf_s(res->Some_0.1@),
            res is Some ==> res->Some_0.0.origin == rec.point,
    {
        match self {
            Material::Lambertian(l) => l.scatter(r_in, rec, rng),
            Material::Metal(mt) => mt.scatter(r_in, rec, rng),
            Material::Dielectric(dl) => dl.scatter(r_in, rec, rng),
        }
    }
}

} // verus!
