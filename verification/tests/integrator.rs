//! The radiance integrator on concrete scenes.

use pathtrace::fixed::SCALE;
use pathtrace::hit::World;
use pathtrace::material::{Dielectric, Lambertian, Material, Metal};
use pathtrace::ray::Ray;
use pathtrace::rng::Rng;
use pathtrace::sphere::Sphere;
use pathtrace::trace::ray_color;
use pathtrace::vec3::Vec3;

fn unit_scene() -> World {
    let mut w = World::new();
    w.add(Sphere::new(
        Vec3::new(0, 0, -1_000_000),
        500_000,
        Material::Lambertian(Lambertian::new(Vec3::new(SCALE, SCALE, SCALE))),
    ));
    w
}

#[test]
fn zero_depth_is_black_regardless_of_scene() {
    let w = unit_scene();
    let mut rng = Rng::new(1);
    let r = Ray::new(Vec3::new(0, 0, 0), Vec3::new(0, 0, -SCALE));
    assert_eq!(ray_color(&r, &w, 0, &mut rng), Vec3::new(0, 0, 0));
    let up = Ray::new(Vec3::new(0, 0, 0), Vec3::new(0, SCALE, 0));
    assert_eq!(ray_color(&up, &w, 0, &mut rng), Vec3::new(0, 0, 0));
}

#[test]
fn miss_returns_background_gradient() {
    let w = World::new();
    let mut rng = Rng::new(1);
    // Straight up: t = 1, pure sky blue.
    let up = Ray::new(Vec3::new(0, 0, 0), Vec3::new(0, SCALE, 0));
    assert_eq!(
        ray_color(&up, &w, 10, &mut rng),
        Vec3::new(500_000, 700_000, SCALE)
    );
    // Straight down: t = 0, pure white.
    let down = Ray::new(Vec3::new(0, 0, 0), Vec3::new(0, -SCALE, 0));
    assert_eq!(
        ray_color(&down, &w, 10, &mut rng),
        Vec3::new(SCALE, SCALE, SCALE)
    );
    // Horizontal: t = 1/2, the even blend.
    let level = Ray::new(Vec3::new(0, 0, 0), Vec3::new(SCALE, 0, 0));
    assert_eq!(
        ray_color(&level, &w, 10, &mut rng),
        Vec3::new(750_000, 850_000, SCALE)
    );
}

#[test]
fn miss_gradient_ignores_scene_content() {
    // A scene is present but the ray misses everything: same gradient.
    let w = unit_scene();
    let mut rng = Rng::new(2);
    let up = Ray::new(Vec3::new(0, 0, 0), Vec3::new(0, SCALE, 0));
    assert_eq!(
        ray_color(&up, &w, 10, &mut rng),
        Vec3::new(500_000, 700_000, SCALE)
    );
}

#[test]
fn single_bounce_budget_exhausts_to_black() {
    // Unit sphere at (0,0,-1), white Lambertian, depth 1: the ray hits,
    // scatters once, recurses at depth 0 and returns black, whatever the
    // random draws were.
    let w = unit_scene();
    let r = Ray::new(Vec3::new(0, 0, 0), Vec3::new(0, 0, -SCALE));
    for seed in 0..20 {
        let mut rng = Rng::new(seed);
        assert_eq!(ray_color(&r, &w, 1, &mut rng), Vec3::new(0, 0, 0));
    }
}

#[test]
fn depth_one_hit_is_black_for_every_material() {
    let r = Ray::new(Vec3::new(0, 0, 0), Vec3::new(0, 0, -SCALE));
    let materials = [
        Material::Lambertian(Lambertian::new(Vec3::new(500_000, 500_000, 500_000))),
        Material::Metal(Metal::new(Vec3::new(800_000, 800_000, 800_000), 300_000)),
        Material::Dielectric(Dielectric::new(1_500_000)),
    ];
    for m in materials {
        let mut w = World::new();
        w.add(Sphere::new(Vec3::new(0, 0, -1_000_000), 500_000, m));
        let mut rng = Rng::new(17);
        assert_eq!(ray_color(&r, &w, 1, &mut rng), Vec3::new(0, 0, 0));
    }
}

#[test]
fn background_channels_stay_in_unit_range_for_tiny_directions() {
    // A direction of near-minimal length rescales with a large relative
    // error; the blend parameter clamps, so the gradient stays a convex
    // blend.  Here the rescaled y falls below -1, so the blend clamps to
    // 0: pure white.
    let w = World::new();
    let mut rng = Rng::new(4);
    let r = Ray::new(Vec3::new(0, 0, 0), Vec3::new(0, -1_414, 0));
    let c = ray_color(&r, &w, 5, &mut rng);
    assert_eq!(c, Vec3::new(SCALE, SCALE, SCALE));
    assert!(0 <= c.x && c.x <= SCALE);
    assert!(0 <= c.y && c.y <= SCALE);
    assert!(0 <= c.z && c.z <= SCALE);
}

#[test]
fn metal_back_face_absorbs_to_black() {
    // From inside a metal sphere the mirror direction points into the
    // surface, so the path is absorbed: black, whatever the draws.
    let mut w = World::new();
    w.add(Sphere::new(
        Vec3::new(0, 0, 0),
        1_000_000,
        Material::Metal(Metal::new(Vec3::new(900_000, 900_000, 900_000), 0)),
    ));
    let r = Ray::new(Vec3::new(0, 0, 0), Vec3::new(0, 0, -SCALE));
    for seed in 0..10 {
        let mut rng = Rng::new(seed);
        assert_eq!(ray_color(&r, &w, 10, &mut rng), Vec3::new(0, 0, 0));
    }
}

#[test]
fn mirror_floor_reflects_sky() {
    // A zero-fuzz white metal floor reflects the ray skyward; the color
    // is exactly the sky gradient seen through the mirror.
    let mut w = World::new();
    w.add(Sphere::new(
        Vec3::new(0, -1_000_000_000, 0),
        999_000_000,
        Material::Metal(Metal::new(Vec3::new(SCALE, SCALE, SCALE), 0)),
    ));
    let r = Ray::new(Vec3::new(0, 0, 0), Vec3::new(0, -SCALE, 0));
    let mut rng = Rng::new(9);
    let c = ray_color(&r, &w, 5, &mut rng);
    // The mirrored ray goes straight up into the sky gradient; a perfect
    // white mirror passes it through unchanged.
    assert_eq!(c, Vec3::new(500_000, 700_000, SCALE));
}
