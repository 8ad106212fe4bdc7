//! The radiance integrator: recursive color accumulation along a ray.
//!
//! A ray is followed through the scene until it misses (sky gradient),
//! is absorbed (black), or exhausts its bounce budget (black); each bounce
//! multiplies the accumulated color component-wise by the material's
//! attenuation.  Every color the integrator produces has its channels in
//! `[0, 1]`.

use crate::fixed::{clamp_s, fx_clamp, fx_mul, fx_mul_s, HALF, SCALE};
use crate::hit::{rec_wf, rec_wf_s, world_hit_s, World};
use crate::material::{color_wf_s, lemma_color_mul, material_attenuation_s, metal_absorbs_s};
use crate::ray::{ray_wf, ray_wf_s, Ray, T_LIMIT};
use crate::rng::Rng;
use crate::vec3::{
    lemma_prod_bound2, v3_add, v3_add_s, v3_comp_mul, v3_comp_mul_s, v3_scale, v3_scale_s,
    v3_unit, v3_unit_s, Vec3, V3,
};
use vstd::arithmetic::div_mod::{
    lemma_div_is_ordered, lemma_div_multiples_vanish, lemma_div_pos_is_pos,
};
use vstd::prelude::*;

verus! {

/// Lower intersection bound used by the integrator: excludes
/// self-intersections at a bounce's own origin (shadow-acne guard).
pub const SHADOW_EPS: i128 = 1000;

pub open spec fn black_s() -> V3 {
    V3 { x: 0, y: 0, z: 0 }
}

pub open spec fn white_s() -> V3 {
    V3 { x: SCALE as int, y: SCALE as int, z: SCALE as int }
}

/// The sky's horizon-to-zenith target color.
pub open spec fn sky_s() -> V3 {
    V3 { x: HALF as int, y: 700_000, z: SCALE as int }
}

/// The blend parameter of the background gradient, `(y + 1) / 2`, clamped
/// to `[0, 1]`: the rescaled direction can overshoot unit length by
/// rounding, and the blend of white and sky must stay a convex one.
pub open spec fn fx_t_of(unit_y: int) -> int {
    clamp_s(fx_mul_s(HALF as int, unit_y + SCALE), 0, SCALE as int)
}

/// The background gradient for a missed ray: blend white to sky blue by
/// the height of the unit direction.
pub open spec fn background_s(r: Ray) -> V3 {
    let u = v3_unit_s(r.direction@);
    let t = fx_t_of(u.y);
    v3_add_s(v3_scale_s(white_s(), SCALE - t), v3_scale_s(sky_s(), t))
}

/// Compute the background gradient for a missed ray; exact image of
/// `background_s`, with every channel in `[0, 1]`.
pub fn background(r: &Ray) -> (c: Vec3)
    requires
        ray_wf_s(*r),
    ensures
        c@ == background_s(*r),
        color_wf_s(c@),
{
    let u = v3_unit(&r.direction);
    let blend = fx_clamp(fx_mul(HALF, u.y + SCALE), 0, SCALE);
    let w: i128 = SCALE - blend;
    let white = Vec3 { x: SCALE, y: SCALE, z: SCALE };
    let sky = Vec3 { x: HALF, y: 700_000, z: SCALE };
    proof {
        lemma_prod_bound2(SCALE as int, w as int, 1_000_000, 1_000_000);
        lemma_prod_bound2(HALF as int, blend as int, 1_000_000, 1_000_000);
        lemma_prod_bound2(700_000, blend as int, 1_000_000, 1_000_000);
        lemma_prod_bound2(SCALE as int, blend as int, 1_000_000, 1_000_000);
        // The white term is exactly `1 - t`, and each sky channel at most
        // `t`, so each blended channel lands in [0, 1].
        lemma_div_multiples_vanish(w as int, SCALE as int);
        lemma_div_multiples_vanish(blend as int, SCALE as int);
        lemma_div_pos_is_pos(HALF as int * blend as int, SCALE as int);
        lemma_div_is_ordered(HALF as int * blend as int, SCALE as int * blend as int, SCALE as int);
        lemma_div_pos_is_pos(700_000 * blend as int, SCALE as int);
        lemma_div_is_ordered(700_000 * blend as int, SCALE as int * blend as int, SCALE as int);
    }
    let a = v3_scale(&white, w);
    let b = v3_scale(&sky, blend);
    v3_add(&a, &b)
}

/// Attenuating pure black yields pure black.
proof fn lemma_comp_mul_black(a: V3)
    ensures
        v3_comp_mul_s(a, black_s()) =~= black_s(),
{
    assert(v3_comp_mul_s(a, black_s()).x == 0);
    assert(v3_comp_mul_s(a, black_s()).y == 0);
    assert(v3_comp_mul_s(a, black_s()).z == 0);
}

/// Follow a ray through the scene and accumulate its color.
///
/// The contract pins every deterministic case: a spent depth budget is
/// black; a miss is exactly the background gradient; a metal whose mirror
/// direction points into the surface absorbs the ray to black; a hit with
/// only one bounce left is black, whatever the material does, because the
/// recursion bottoms out at black and attenuation of black is black.  A
/// record or scattered ray outside the machine range (where the
/// real-valued algorithm would degenerate) is treated as absorbed.  Every
/// color channel returned lies in `[0, 1]`.
pub fn ray_color(r: &Ray, world: &World, depth: u64, rng: &mut Rng) -> (color: Vec3)
    requires
        world.wf(),
        ray_wf_s(*r),
    ensures
        color_wf_s(color@),
        depth == 0 ==> color@ == black_s(),
        depth > 0 && world_hit_s(world.spheres@, *r, SHADOW_EPS as int, T_LIMIT as int) is None
            ==> color@ == background_s(*r),
        depth == 1 && world_hit_s(world.spheres@, *r, SHADOW_EPS as int, T_LIMIT as int) is Some
            ==> color@ == black_s(),
        depth > 0 && world_hit_s(world.spheres@, *r, SHADOW_EPS as int, T_LIMIT as int) is Some
            && !rec_wf_s(world_hit_s(world.spheres@, *r, SHADOW_EPS as int, T_LIMIT as int)->Some_0)
            ==> color@ == black_s(),
        depth > 0 && world_hit_s(world.spheres@, *r, SHADOW_EPS as int, T_LIMIT as int) is Some
            && metal_absorbs_s(*r, world_hit_s(world.spheres@, *r, SHADOW_EPS as int, T_LIMIT as int)->Some_0)
            ==> color@ == black_s(),
        depth > 0 && world_hit_s(world.spheres@, *r, SHADOW_EPS as int, T_LIMIT as int) is Some
            ==> exists|c: V3|
                color_wf_s(c) && color@ == v3_comp_mul_s(
                    material_attenuation_s(
                        world_hit_s(world.spheres@, *r, SHADOW_EPS as int, T_LIMIT as int)->Some_0.material,
                    ),
                    c,
                ),
    decreases depth,
{
    if depth == 0 {
        return Vec3 { x: 0, y: 0, z: 0 };
    }
    let hit = world.hit(r, SHADOW_EPS, T_LIMIT);
    match hit {
        None => background(r),
        Some(rec) => {
            proof {
                lemma_comp_mul_black(material_attenuation_s(rec@.material));
                assert(color_wf_s(black_s()));
            }
            if !rec_wf(&rec) {
                return Vec3 { x: 0, y: 0, z: 0 };
            }
            let m = rec.material;
            let sc = m.scatter(r, &rec, rng);
            match sc {
                None => Vec3 { x: 0, y: 0, z: 0 },
                Some((scattered, attenuation)) => {
                    if !ray_wf(&scattered) {
                        return Vec3 { x: 0, y: 0, z: 0 };
                    }
                    let c = ray_color(&scattered, world, depth - 1, rng);
                    proof {
                        assert(color_wf_s(attenuation@));
                        lemma_color_mul(attenuation@, c@);
                        lemma_prod_bound2(attenuation.x as int, c.x as int, 1_000_000, 1_000_000);
                        lemma_prod_bound2(attenuation.y as int, c.y as int, 1_000_000, 1_000_000);
                        lemma_prod_bound2(attenuation.z as int, c.z as int, 1_000_000, 1_000_000);
                        if depth == 1 {
                            lemma_comp_mul_black(attenuation@);
                        }
                        assert(attenuation@ == material_attenuation_s(rec@.material));
                        assert(!metal_absorbs_s(*r, rec@));
                    }
                    v3_comp_mul(&attenuation, &c)
                },
            }
        },
    }
}

} // verus!
