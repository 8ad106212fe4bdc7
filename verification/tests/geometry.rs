//! Sphere intersection and the scene's nearest-hit query on concrete
//! scenes.

use pathtrace::fixed::SCALE;
use pathtrace::hit::World;
use pathtrace::material::{Lambertian, Material};
use pathtrace::ray::Ray;
use pathtrace::sphere::Sphere;
use pathtrace::vec3::Vec3;

fn gray() -> Material {
    Material::Lambertian(Lambertian::new(Vec3::new(500_000, 500_000, 500_000)))
}

#[test]
fn axis_ray_hits_at_distance_minus_radius() {
    // Unit-radius sphere at the origin, ray from z = 3 straight at it:
    // the hit parameter is d - r = 2.5, the normal points back at the ray.
    let s = Sphere::new(Vec3::new(0, 0, 0), 500_000, gray());
    let r = Ray::new(Vec3::new(0, 0, 3_000_000), Vec3::new(0, 0, -SCALE));
    let h = s.hit(&r, 1_000, 100_000_000_000_000).unwrap();
    assert_eq!(h.t, 2_500_000);
    assert_eq!(h.point, Vec3::new(0, 0, 500_000));
    assert_eq!(h.normal, Vec3::new(0, 0, SCALE));
    assert!(h.front_face);
}

#[test]
fn wide_ray_misses_for_every_range() {
    // Closest approach 2.0 exceeds the radius 0.5: no hit in any range.
    let s = Sphere::new(Vec3::new(0, 0, 0), 500_000, gray());
    let r = Ray::new(Vec3::new(2_000_000, 0, 3_000_000), Vec3::new(0, 0, -SCALE));
    assert!(s.hit(&r, 1_000, 100_000_000_000_000).is_none());
    assert!(s.hit(&r, -100_000_000_000_000, 100_000_000_000_000).is_none());
    assert!(s.hit(&r, 0, 1).is_none());
}

#[test]
fn range_excludes_near_root_picks_far_root() {
    // From inside the near root is behind t_min, so the far root (exit
    // point, t = d + r = 3.5) is reported.
    let s = Sphere::new(Vec3::new(0, 0, 0), 500_000, gray());
    let r = Ray::new(Vec3::new(0, 0, 3_000_000), Vec3::new(0, 0, -SCALE));
    let h = s.hit(&r, 2_600_000, 100_000_000_000_000).unwrap();
    assert_eq!(h.t, 3_500_000);
    assert!(s.hit(&r, 3_600_000, 100_000_000_000_000).is_none());
}

#[test]
fn negative_radius_flips_normal() {
    let s = Sphere::new(Vec3::new(0, 0, 0), -500_000, gray());
    let r = Ray::new(Vec3::new(0, 0, 3_000_000), Vec3::new(0, 0, -SCALE));
    let h = s.hit(&r, 1_000, 100_000_000_000_000).unwrap();
    assert_eq!(h.t, 2_500_000);
    assert_eq!(h.normal, Vec3::new(0, 0, -SCALE));
    assert!(!h.front_face);
}

#[test]
fn signed_radius_negation_flips_normal_exactly() {
    // Spheres of radius 0.7 and -0.7, hit off-axis: same parameter and
    // point, and the stored normals are exact negations of each other.
    let outer = Sphere::new(Vec3::new(0, 0, 0), 700_000, gray());
    let inner = Sphere::new(Vec3::new(0, 0, 0), -700_000, gray());
    let r = Ray::new(Vec3::new(300_000, 0, 3_000_000), Vec3::new(0, 0, -SCALE));
    let ho = outer.hit(&r, 1_000, 100_000_000_000_000).unwrap();
    let hi = inner.hit(&r, 1_000, 100_000_000_000_000).unwrap();
    assert_eq!(ho.t, hi.t);
    assert_eq!(ho.point, hi.point);
    assert_eq!(hi.normal, Vec3::new(-ho.normal.x, -ho.normal.y, -ho.normal.z));
}

#[test]
fn world_empty_returns_none() {
    let w = World::new();
    let r = Ray::new(Vec3::new(0, 0, 0), Vec3::new(0, 0, -SCALE));
    assert!(w.hit(&r, 1_000, 100_000_000_000_000).is_none());
}

#[test]
fn world_picks_minimum_parameter_hit() {
    let near = Sphere::new(Vec3::new(0, 0, -2_000_000), 500_000, gray());
    let far = Sphere::new(Vec3::new(0, 0, -5_000_000), 500_000, gray());
    let r = Ray::new(Vec3::new(0, 0, 0), Vec3::new(0, 0, -SCALE));
    let mut w = World::new();
    w.add(far);
    w.add(near);
    let h = w.hit(&r, 1_000, 100_000_000_000_000).unwrap();
    assert_eq!(h.t, 1_500_000);
    assert_eq!(h.point, Vec3::new(0, 0, -1_500_000));
}

#[test]
fn world_hit_is_order_independent() {
    let near = Sphere::new(Vec3::new(0, 0, -2_000_000), 500_000, gray());
    let far = Sphere::new(Vec3::new(0, 0, -5_000_000), 500_000, gray());
    let side = Sphere::new(Vec3::new(4_000_000, 0, 0), 500_000, gray());
    let r = Ray::new(Vec3::new(0, 0, 0), Vec3::new(0, 0, -SCALE));
    let mut w1 = World::new();
    w1.add(far);
    w1.add(near);
    w1.add(side);
    let mut w2 = World::new();
    w2.add(side);
    w2.add(near);
    w2.add(far);
    let h1 = w1.hit(&r, 1_000, 100_000_000_000_000).unwrap();
    let h2 = w2.hit(&r, 1_000, 100_000_000_000_000).unwrap();
    assert_eq!(h1, h2);
    assert_eq!(h1.t, 1_500_000);
}

#[test]
fn world_miss_when_all_spheres_miss() {
    let a = Sphere::new(Vec3::new(0, 3_000_000, 0), 500_000, gray());
    let b = Sphere::new(Vec3::new(0, -3_000_000, 0), 500_000, gray());
    let r = Ray::new(Vec3::new(0, 0, 0), Vec3::new(SCALE, 0, 0));
    let mut w = World::new();
    w.add(a);
    w.add(b);
    assert!(w.hit(&r, 1_000, 100_000_000_000_000).is_none());
}
