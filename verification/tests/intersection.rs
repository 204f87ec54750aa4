//! Ray–sphere intersection scenarios (65536 stands for 1).

use raytracer::fixed::{fx_mul, fx_div, fx_sqrt};
use raytracer::hittable::HittableList;
use raytracer::material::{Lambertian, Material};
use raytracer::ray::Ray;
use raytracer::sphere::Sphere;
use raytracer::vec::{dot, Vec3};

fn gray_lambertian() -> Material {
    Material::Lambertian(Lambertian::new(Vec3::new(32768, 32768, 32768)))
}

#[test]
fn head_on_hit_reports_near_surface() {
    // A scene with a single sphere centered at (0, 0, -1), radius 0.5,
    // and a ray from the origin straight along -z: the near surface is
    // hit at t = 0.5 with normal (0, 0, 1), entering the front face.
    let sphere = Sphere::new(Vec3::new(0, 0, -65536), 32768, gray_lambertian());
    let mut world = HittableList::new();
    world.add(sphere);
    let ray = Ray::new(&Vec3::new(0, 0, 0), &Vec3::new(0, 0, -65536));
    let rec = world.hit(&ray, 0, 0x400_0000).expect("the ray must hit");
    assert_eq!(rec.t, 32768);
    assert_eq!(rec.p, Vec3::new(0, 0, -32768));
    assert_eq!(rec.normal, Vec3::new(0, 0, 65536));
    assert!(rec.front_face);
}

#[test]
fn hit_point_lies_on_surface() {
    // |hit_point - center| equals the radius exactly for the axial ray...
    let center = Vec3::new(0, 0, -65536);
    let sphere = Sphere::new(center, 32768, gray_lambertian());
    let ray = Ray::new(&Vec3::new(0, 0, 0), &Vec3::new(0, 0, -65536));
    let rec = sphere.hit(&ray, 0, 0x400_0000).expect("the ray must hit");
    let d = rec.p.sub(&center);
    assert_eq!(d.length(), 32768);

    // ...and within fixed-point tolerance for an oblique ray.
    let center2 = Vec3::new(0, 0, -196608);
    let sphere2 = Sphere::new(center2, 65536, gray_lambertian());
    let ray2 = Ray::new(&Vec3::new(0, 0, 0), &Vec3::new(13107, 0, -65536));
    let rec2 = sphere2.hit(&ray2, 0, 0x400_0000).expect("the ray must hit");
    let d2 = rec2.p.sub(&center2);
    assert!((d2.length() - 65536).abs() <= 64);
}

#[test]
fn normal_opposes_ray_from_inside() {
    // Leaving through the back face: front_face is false and the stored
    // normal still opposes the ray direction.
    let sphere = Sphere::new(Vec3::new(0, 0, 0), 65536, gray_lambertian());
    let ray = Ray::new(&Vec3::new(0, 0, 0), &Vec3::new(0, 0, -65536));
    let rec = sphere.hit(&ray, 0, 0x400_0000).expect("the ray must hit");
    assert!(!rec.front_face);
    assert_eq!(rec.normal, Vec3::new(0, 0, 65536));
    assert!(dot(&ray.dir, &rec.normal) <= 0);
}

#[test]
fn nearer_of_two_roots_is_selected() {
    // Aimed at the center from outside with the full interval: both
    // quadratic roots are admissible and the nearer one is reported.
    let center = Vec3::new(0, 0, -65536);
    let radius: i64 = 32768;
    let sphere = Sphere::new(center, radius, gray_lambertian());
    let orig = Vec3::new(0, 0, 0);
    let dir = Vec3::new(0, 0, -65536);
    let ray = Ray::new(&orig, &dir);

    let oc = orig.sub(&center);
    let a = dot(&dir, &dir);
    let half_b = dot(&oc, &dir);
    let c = dot(&oc, &oc) - fx_mul(radius, radius);
    let disc = fx_mul(half_b, half_b) - fx_mul(a, c);
    assert!(disc > 0);
    let root = fx_sqrt(disc);
    let t1 = fx_div(-half_b - root, a);
    let t2 = fx_div(-half_b + root, a);
    assert_eq!(t1, 32768);
    assert_eq!(t2, 98304);
    assert!(0 < t1 && t1 < t2 && t2 < 0x400_0000);

    let rec = sphere.hit(&ray, 0, 0x400_0000).expect("the ray must hit");
    assert_eq!(rec.t, t1);
}

#[test]
fn missing_ray_hits_nothing_in_any_interval() {
    // The perpendicular distance from the center to the ray line is 3,
    // well beyond the radius 1: no interval admits a hit.
    let sphere = Sphere::new(Vec3::new(0, 196608, -131072), 65536, gray_lambertian());
    let ray = Ray::new(&Vec3::new(0, 0, 0), &Vec3::new(0, 0, -65536));
    assert!(sphere.hit(&ray, 0, 0x400_0000).is_none());
    assert!(sphere.hit(&ray, -0x400_0000, 0x400_0000).is_none());
    assert!(sphere.hit(&ray, 66, 655360).is_none());

    let mut world = HittableList::new();
    world.add(sphere);
    assert!(world.hit(&ray, 0, 0x400_0000).is_none());
}

#[test]
fn closest_sphere_wins() {
    // Two spheres on the same line: the nearer one is reported.
    let near = Sphere::new(Vec3::new(0, 0, -131072), 32768, gray_lambertian());
    let far = Sphere::new(Vec3::new(0, 0, -393216), 32768, gray_lambertian());
    let mut world = HittableList::new();
    world.add(far);
    world.add(near);
    let ray = Ray::new(&Vec3::new(0, 0, 0), &Vec3::new(0, 0, -65536));
    let rec = world.hit(&ray, 0, 0x400_0000).expect("the ray must hit");
    assert_eq!(rec.t, 98304);
}
