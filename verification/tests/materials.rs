//! Scattering models on concrete hit records.

use pathtrace::fixed::SCALE;
use pathtrace::hit::HitRecord;
use pathtrace::material::{Dielectric, Lambertian, Material, Metal};
use pathtrace::ray::{reflect, Ray};
use pathtrace::rng::{random_unit_vector, Rng};
use pathtrace::vec3::{v3_norm_sq, v3_unit, Vec3};

fn record(point: Vec3, normal: Vec3, material: Material, front_face: bool) -> HitRecord {
    HitRecord { point, normal, t: 1_000_000, material, front_face }
}

#[test]
fn lambertian_always_scatters_with_albedo() {
    let albedo = Vec3::new(700_000, 100_000, 300_000);
    let l = Lambertian::new(albedo);
    let p = Vec3::new(1_000_000, 2_000_000, 3_000_000);
    let rec = record(p, Vec3::new(0, SCALE, 0), Material::Lambertian(l), true);
    let r_in = Ray::new(Vec3::new(0, 5_000_000, 0), Vec3::new(0, -SCALE, 0));
    let mut rng = Rng::new(7);
    for _ in 0..50 {
        let (scattered, attenuation) = l.scatter(&r_in, &rec, &mut rng).unwrap();
        assert_eq!(scattered.origin, p);
        assert_eq!(attenuation, albedo);
    }
}

#[test]
fn metal_zero_fuzz_mirrors_exactly() {
    let m = Metal::new(Vec3::new(900_000, 900_000, 900_000), 0);
    let n = Vec3::new(0, SCALE, 0);
    let p = Vec3::new(0, 0, 0);
    let rec = record(p, n, Material::Metal(m), true);
    // Straight down onto an upward-facing surface: mirrored straight up.
    let down = Ray::new(Vec3::new(0, 3_000_000, 0), Vec3::new(0, -SCALE, 0));
    let mut rng = Rng::new(11);
    let (scattered, attenuation) = m.scatter(&down, &rec, &mut rng).unwrap();
    assert_eq!(scattered.origin, p);
    assert_eq!(scattered.direction, Vec3::new(0, SCALE, 0));
    assert_eq!(attenuation, Vec3::new(900_000, 900_000, 900_000));
    // Oblique incidence: equal to reflect(unit(incoming), normal).
    let oblique = Ray::new(Vec3::new(-2_000_000, 2_000_000, 0), Vec3::new(SCALE, -SCALE, 0));
    let expected = reflect(&v3_unit(&oblique.direction), &n);
    let (scattered2, _) = m.scatter(&oblique, &rec, &mut rng).unwrap();
    assert_eq!(scattered2.direction, expected);
}

#[test]
fn metal_absorbs_into_surface_reflection() {
    // The mirror direction points into the surface: the ray is absorbed.
    let m = Metal::new(Vec3::new(900_000, 900_000, 900_000), 0);
    let n = Vec3::new(0, SCALE, 0);
    let rec = record(Vec3::new(0, 0, 0), n, Material::Metal(m), false);
    let up = Ray::new(Vec3::new(0, -3_000_000, 0), Vec3::new(0, SCALE, 0));
    let mut rng = Rng::new(3);
    assert!(m.scatter(&up, &rec, &mut rng).is_none());
}

#[test]
fn schlick_reflectance_values() {
    // At normal incidence with a matching medium, reflectance is exactly 0.
    assert_eq!(Dielectric::reflectance(SCALE, SCALE), 0);
    // At grazing incidence (cos = 0) with a matching medium, it is 1.
    assert_eq!(Dielectric::reflectance(0, SCALE), SCALE);
    // Glass at normal incidence: r0 = ((1-1.5)/(1+1.5))^2 = 0.04 exactly.
    assert_eq!(Dielectric::reflectance(SCALE, 1_500_000), 40_000);
}

#[test]
fn unity_dielectric_passes_straight_through() {
    // ir = 1.0, normal incidence: reflectance is 0 and refraction cannot
    // fail, so the ray continues straight on, with white attenuation.
    let dl = Dielectric::new(SCALE);
    let n = Vec3::new(0, 0, SCALE);
    let p = Vec3::new(0, 0, -1_000_000);
    let rec = record(p, n, Material::Dielectric(dl), true);
    let r_in = Ray::new(Vec3::new(0, 0, 0), Vec3::new(0, 0, -SCALE));
    let mut rng = Rng::new(99);
    for _ in 0..20 {
        let (scattered, attenuation) = dl.scatter(&r_in, &rec, &mut rng).unwrap();
        assert_eq!(scattered.origin, p);
        assert_eq!(scattered.direction, Vec3::new(0, 0, -SCALE));
        assert_eq!(attenuation, Vec3::new(SCALE, SCALE, SCALE));
    }
}

#[test]
fn dielectric_total_internal_reflection() {
    // Glass (ir = 1.5) hit from the inside at 45 degrees: the sine of the
    // refracted angle would exceed 1, so the ray must reflect, whatever
    // the reflectance draw.
    let dl = Dielectric::new(1_500_000);
    let n = Vec3::new(0, SCALE, 0);
    let p = Vec3::new(0, 0, 0);
    let rec = record(p, n, Material::Dielectric(dl), false);
    let r_in = Ray::new(Vec3::new(1_000_000, -1_000_000, 0), Vec3::new(SCALE, SCALE, 0));
    for seed in 0..10 {
        let mut rng = Rng::new(seed);
        let (scattered, _) = dl.scatter(&r_in, &rec, &mut rng).unwrap();
        assert_eq!(scattered.direction, Vec3::new(707_107, -707_107, 0));
    }
}

#[test]
fn dielectric_dispatch_through_material() {
    let dl = Dielectric::new(SCALE);
    let m = Material::Dielectric(dl);
    let n = Vec3::new(0, 0, SCALE);
    let rec = record(Vec3::new(0, 0, -1_000_000), n, m, true);
    let r_in = Ray::new(Vec3::new(0, 0, 0), Vec3::new(0, 0, -SCALE));
    let mut rng = Rng::new(1);
    let (scattered, attenuation) = m.scatter(&r_in, &rec, &mut rng).unwrap();
    assert_eq!(scattered.direction, Vec3::new(0, 0, -SCALE));
    assert_eq!(attenuation, Vec3::new(SCALE, SCALE, SCALE));
}

#[test]
fn rng_draws_stay_in_range_and_vary() {
    let mut rng = Rng::new(42);
    let mut distinct = false;
    let mut first: i128 = -1;
    for i in 0..100 {
        let v = rng.sample_range(0, 1_000_000);
        assert!((0..1_000_000).contains(&v));
        if i == 0 {
            first = v;
        } else if v != first {
            distinct = true;
        }
    }
    assert!(distinct);
    // A one-value range can only return its lower bound.
    assert_eq!(rng.sample_range(5, 6), 5);
    // The same seed reproduces the same sequence.
    let mut a = Rng::new(123);
    let mut b = Rng::new(123);
    for _ in 0..20 {
        assert_eq!(a.sample_range(-50, 50), b.sample_range(-50, 50));
    }
}

#[test]
fn random_unit_vectors_are_unit_length() {
    let mut rng = Rng::new(5);
    for _ in 0..50 {
        let u = random_unit_vector(&mut rng);
        let ns = v3_norm_sq(&u);
        assert!((950_000..=1_050_000).contains(&ns), "norm_sq {}", ns);
    }
}
