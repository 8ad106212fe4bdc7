//! Fixed-point scalar and vector arithmetic on concrete values.

use pathtrace::fixed::{fx_clamp, fx_div, fx_min, fx_mul, fx_sqrt, SCALE};
use pathtrace::ray::{reflect, refract, Ray};
use pathtrace::vec3::{
    v3_add, v3_comp_mul, v3_cross, v3_dot, v3_neg, v3_norm, v3_norm_sq, v3_scale, v3_sub, v3_unit,
    Vec3,
};

#[test]
fn fx_mul_exact_and_rounding() {
    assert_eq!(fx_mul(1_500_000, 2_000_000), 3_000_000);
    assert_eq!(fx_mul(500_000, 500_000), 250_000);
    assert_eq!(fx_mul(1, 1), 0);
    // Products round toward negative infinity.
    assert_eq!(fx_mul(-1, 1), -1);
    assert_eq!(fx_mul(-1_500_000, 500_000), -750_000);
    assert_eq!(fx_mul(0, 123_456), 0);
}

#[test]
fn fx_div_exact_and_rounding() {
    assert_eq!(fx_div(1_000_000, 2_000_000), 500_000);
    assert_eq!(fx_div(1_000_000, 3_000_000), 333_333);
    assert_eq!(fx_div(-1_000_000, 3_000_000), -333_334);
    assert_eq!(fx_div(1_000_000, -3_000_000), -333_334);
    assert_eq!(fx_div(-1_000_000, -3_000_000), 333_333);
}

#[test]
fn fx_sqrt_values() {
    assert_eq!(fx_sqrt(0), 0);
    assert_eq!(fx_sqrt(4_000_000), 2_000_000);
    assert_eq!(fx_sqrt(250_000), 500_000);
    assert_eq!(fx_sqrt(2_000_000), 1_414_213);
    assert_eq!(fx_sqrt(1), 1_000);
}

#[test]
fn fx_min_and_clamp() {
    assert_eq!(fx_min(3, 5), 3);
    assert_eq!(fx_min(5, 3), 3);
    assert_eq!(fx_clamp(2_000_000, -SCALE, SCALE), SCALE);
    assert_eq!(fx_clamp(-2_000_000, -SCALE, SCALE), -SCALE);
    assert_eq!(fx_clamp(123, -SCALE, SCALE), 123);
}

#[test]
fn vector_linear_ops() {
    let a = Vec3::new(1_000_000, 2_000_000, -3_000_000);
    let b = Vec3::new(500_000, -500_000, 1_000_000);
    assert_eq!(v3_add(&a, &b), Vec3::new(1_500_000, 1_500_000, -2_000_000));
    assert_eq!(v3_sub(&a, &b), Vec3::new(500_000, 2_500_000, -4_000_000));
    assert_eq!(v3_neg(&a), Vec3::new(-1_000_000, -2_000_000, 3_000_000));
    assert_eq!(v3_scale(&a, 500_000), Vec3::new(500_000, 1_000_000, -1_500_000));
}

#[test]
fn vector_products() {
    let a = Vec3::new(1_000_000, 2_000_000, -3_000_000);
    let b = Vec3::new(500_000, -500_000, 1_000_000);
    // 0.5 - 1.0 - 3.0 = -3.5
    assert_eq!(v3_dot(&a, &b), -3_500_000);
    assert_eq!(
        v3_comp_mul(&a, &b),
        Vec3::new(500_000, -1_000_000, -3_000_000)
    );
    // (1,0,0) x (0,1,0) = (0,0,1)
    let x = Vec3::new(SCALE, 0, 0);
    let y = Vec3::new(0, SCALE, 0);
    assert_eq!(v3_cross(&x, &y), Vec3::new(0, 0, SCALE));
    assert_eq!(v3_cross(&y, &x), Vec3::new(0, 0, -SCALE));
}

#[test]
fn vector_norm_and_unit() {
    let v = Vec3::new(3_000_000, 4_000_000, 0);
    assert_eq!(v3_norm_sq(&v), 25_000_000);
    assert_eq!(v3_norm(&v), 5_000_000);
    assert_eq!(v3_unit(&v), Vec3::new(600_000, 800_000, 0));
    let axis = Vec3::new(0, -7_000_000, 0);
    assert_eq!(v3_unit(&axis), Vec3::new(0, -SCALE, 0));
}

#[test]
fn reflect_mirrors_about_normal() {
    let v = Vec3::new(SCALE, -SCALE, 0);
    let n = Vec3::new(0, SCALE, 0);
    assert_eq!(reflect(&v, &n), Vec3::new(SCALE, SCALE, 0));
    // A direction parallel to the surface is unchanged.
    let g = Vec3::new(SCALE, 0, 0);
    assert_eq!(reflect(&g, &n), g);
}

#[test]
fn refract_straight_through_at_unity() {
    let v = Vec3::new(0, 0, -SCALE);
    let n = Vec3::new(0, 0, SCALE);
    assert_eq!(refract(&v, &n, SCALE), Vec3::new(0, 0, -SCALE));
}

#[test]
fn ray_evaluates_points() {
    let r = Ray::new(Vec3::new(1_000_000, 0, 0), Vec3::new(0, 0, -SCALE));
    assert_eq!(r.at(0), Vec3::new(1_000_000, 0, 0));
    assert_eq!(r.at(2_500_000), Vec3::new(1_000_000, 0, -2_500_000));
    assert_eq!(r.at(-1_000_000), Vec3::new(1_000_000, 0, 1_000_000));
}
