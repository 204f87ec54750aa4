//! Scattering behavior of the three materials (65536 stands for 1).

use raytracer::hittable::HitRecord;
use raytracer::material::{schlick, Dielectric, Lambertian, Material, Metal};
use raytracer::ray::Ray;
use raytracer::rng::new_rng;
use raytracer::vec::{dot, Color, Vec3};

fn record(p: Vec3, normal: Vec3, front_face: bool, mat: Material) -> HitRecord {
    HitRecord { p, normal, t: 32768, front_face, mat }
}

#[test]
fn lambertian_never_absorbs() {
    let albedo = Vec3::new(32768, 16384, 8192);
    let lam = Lambertian::new(albedo);
    let rec = record(
        Vec3::new(0, 0, -32768),
        Vec3::new(0, 0, 65536),
        true,
        Material::Lambertian(lam),
    );
    let ray = Ray::new(&Vec3::new(0, 0, 0), &Vec3::new(0, 0, -65536));
    let mut rng = new_rng();
    for _ in 0..64 {
        let zero = Vec3::new(0, 0, 0);
        let mut attenuation = zero;
        let mut scattered = Ray::new(&zero, &zero);
        let alive = lam.scatter(&ray, &rec, &mut attenuation, &mut scattered, &mut rng);
        assert!(alive);
        assert_eq!(attenuation, albedo);
        assert_eq!(scattered.orig, rec.p);
    }
}

#[test]
fn smooth_metal_reflects_off_surface() {
    let albedo = Vec3::new(45875, 39321, 32768);
    let metal = Metal::new(albedo, 0);
    let rec = record(
        Vec3::new(0, 0, -32768),
        Vec3::new(0, 0, 65536),
        true,
        Material::Metal(metal),
    );
    let ray = Ray::new(&Vec3::new(0, 0, 0), &Vec3::new(0, 0, -65536));
    let mut rng = new_rng();
    let zero = Vec3::new(0, 0, 0);
    let mut attenuation = zero;
    let mut scattered = Ray::new(&zero, &zero);
    let alive = metal.scatter(&ray, &rec, &mut attenuation, &mut scattered, &mut rng);
    // The mirror reflection of a head-on ray points back along +z, away
    // from the surface: the path continues.
    assert!(alive);
    assert_eq!(attenuation, albedo);
    assert_eq!(scattered.dir, Vec3::new(0, 0, 65536));
    assert!(dot(&scattered.dir, &rec.normal) > 0);
}

#[test]
fn metal_absorbs_exactly_when_reflection_enters_surface() {
    // With the normal pointing along the ray (a grazing, degenerate
    // record), the reflection lands inside the surface: the scatter is
    // rejected, and the returned flag agrees with the dot-product test.
    let metal = Metal::new(Vec3::new(45875, 39321, 32768), 0);
    let rec = record(
        Vec3::new(0, 0, -32768),
        Vec3::new(0, 0, -65536),
        false,
        Material::Metal(metal),
    );
    let ray = Ray::new(&Vec3::new(0, 0, 0), &Vec3::new(0, 0, -65536));
    let mut rng = new_rng();
    let zero = Vec3::new(0, 0, 0);
    let mut attenuation = zero;
    let mut scattered = Ray::new(&zero, &zero);
    let alive = metal.scatter(&ray, &rec, &mut attenuation, &mut scattered, &mut rng);
    assert!(!alive);
    assert!(dot(&scattered.dir, &rec.normal) <= 0);
}

#[test]
fn unit_index_dielectric_passes_straight_through() {
    // With refractive index 1 Snell's law is an identity: a head-on ray
    // continues in exactly its incoming direction, with white
    // attenuation and no absorption.
    let diel = Dielectric::new(65536);
    let rec = record(
        Vec3::new(0, 0, -32768),
        Vec3::new(0, 0, 65536),
        true,
        Material::Dielectric(diel),
    );
    let ray = Ray::new(&Vec3::new(0, 0, 0), &Vec3::new(0, 0, -65536));
    let mut rng = new_rng();
    for _ in 0..32 {
        let zero = Vec3::new(0, 0, 0);
        let mut attenuation = zero;
        let mut scattered = Ray::new(&zero, &zero);
        let alive = diel.scatter(&ray, &rec, &mut attenuation, &mut scattered, &mut rng);
        assert!(alive);
        assert_eq!(attenuation, Color::new(65536, 65536, 65536));
        assert_eq!(scattered.orig, rec.p);
        assert_eq!(scattered.dir, Vec3::new(0, 0, -65536));
    }
}

#[test]
fn dielectric_never_absorbs() {
    let diel = Dielectric::new(98304);
    let rec = record(
        Vec3::new(0, 0, -32768),
        Vec3::new(0, 0, 65536),
        true,
        Material::Dielectric(diel),
    );
    let ray = Ray::new(&Vec3::new(0, 0, 0), &Vec3::new(0, 0, -65536));
    let mut rng = new_rng();
    for _ in 0..64 {
        let zero = Vec3::new(0, 0, 0);
        let mut attenuation = zero;
        let mut scattered = Ray::new(&zero, &zero);
        let alive = diel.scatter(&ray, &rec, &mut attenuation, &mut scattered, &mut rng);
        assert!(alive);
        assert_eq!(attenuation, Color::new(65536, 65536, 65536));
    }
}

#[test]
fn absorbing_material_ends_the_path() {
    let rec = record(
        Vec3::new(0, 0, -32768),
        Vec3::new(0, 0, 65536),
        true,
        Material::Absorbing,
    );
    let ray = Ray::new(&Vec3::new(0, 0, 0), &Vec3::new(0, 0, -65536));
    let mut rng = new_rng();
    let zero = Vec3::new(0, 0, 0);
    let mut attenuation = zero;
    let mut scattered = Ray::new(&zero, &zero);
    let alive = Material::Absorbing.scatter(&ray, &rec, &mut attenuation, &mut scattered, &mut rng);
    assert!(!alive);
}

#[test]
fn schlick_head_on_value() {
    // At head-on incidence the (1 - cos)^5 term vanishes and only the
    // base reflectance r0 = ((1 - n) / (1 + n))^2 remains; for n = 2
    // that is 1/9, which truncates to 7281 in fixed point.
    assert_eq!(schlick(65536, 131072), 7281);
    // For n = 1 the base reflectance is zero.
    assert_eq!(schlick(65536, 65536), 0);
}

#[test]
fn metal_roughness_is_clamped() {
    let m = Metal::new(Vec3::new(65536, 65536, 65536), 131072);
    assert_eq!(m.roughness, 65536);
    let m2 = Metal::new(Vec3::new(65536, 65536, 65536), -5);
    assert_eq!(m2.roughness, 0);
    let m3 = Metal::new(Vec3::new(65536, 65536, 65536), 32768);
    assert_eq!(m3.roughness, 32768);
}
