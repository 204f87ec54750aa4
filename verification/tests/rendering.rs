//! The integrator, the camera and the color quantizer
//! (65536 stands for 1).

use raytracer::camera::{camera_frame_ok, Camera};
use raytracer::hittable::HittableList;
use raytracer::material::{Lambertian, Material};
use raytracer::ray::Ray;
use raytracer::render::{encode_color, ray_color};
use raytracer::rng::new_rng;
use raytracer::sphere::Sphere;
use raytracer::vec::{
    dot, random_in_hemisphere, random_in_unit_disk, random_in_unit_sphere, random_unit_vector,
    Vec3,
};

#[test]
fn zero_depth_is_black() {
    // An exhausted depth budget gathers no light, whatever the scene.
    let mut rng = new_rng();
    let mut world = HittableList::new();
    let ray = Ray::new(&Vec3::new(0, 0, 0), &Vec3::new(0, 0, -65536));
    assert_eq!(ray_color(&ray, &world, 0, &mut rng), Vec3::new(0, 0, 0));
    world.add(Sphere::new(
        Vec3::new(0, 0, -65536),
        32768,
        Material::Lambertian(Lambertian::new(Vec3::new(32768, 32768, 32768))),
    ));
    assert_eq!(ray_color(&ray, &world, 0, &mut rng), Vec3::new(0, 0, 0));
    let ray_up = Ray::new(&Vec3::new(0, 0, 0), &Vec3::new(0, 65536, 0));
    assert_eq!(ray_color(&ray_up, &world, 0, &mut rng), Vec3::new(0, 0, 0));
}

#[test]
fn miss_returns_background_gradient() {
    let mut rng = new_rng();
    let world = HittableList::new();
    // Straight up: the zenith is pure sky blue.
    let up = Ray::new(&Vec3::new(0, 0, 0), &Vec3::new(0, 65536, 0));
    assert_eq!(ray_color(&up, &world, 8, &mut rng), Vec3::new(32768, 45875, 65536));
    // Straight down: the gradient extrapolates to pure white.
    let down = Ray::new(&Vec3::new(0, 0, 0), &Vec3::new(0, -65536, 0));
    assert_eq!(ray_color(&down, &world, 8, &mut rng), Vec3::new(65536, 65536, 65536));
    // Horizontal: the halfway blend.
    let level = Ray::new(&Vec3::new(0, 0, 0), &Vec3::new(65536, 0, 0));
    assert_eq!(ray_color(&level, &world, 8, &mut rng), Vec3::new(49152, 55705, 65536));
}

#[test]
fn traced_colors_stay_in_range() {
    let mut rng = new_rng();
    let mut world = HittableList::new();
    world.add(Sphere::new(
        Vec3::new(0, 0, -65536),
        32768,
        Material::Lambertian(Lambertian::new(Vec3::new(32768, 32768, 32768))),
    ));
    for _ in 0..32 {
        let ray = Ray::new(&Vec3::new(0, 0, 0), &Vec3::new(0, 0, -65536));
        let c = ray_color(&ray, &world, 16, &mut rng);
        assert!(0 <= c.x && c.x <= 65536);
        assert!(0 <= c.y && c.y <= 65536);
        assert!(0 <= c.z && c.z <= 65536);
    }
}

#[test]
fn pinhole_camera_is_deterministic() {
    // With aperture 0 the lens jitter is nullified: the same (s, t)
    // always yields the same ray.
    let cam = Camera::new(
        65536,
        116508,
        0,
        524288,
        Vec3::new(0, 0, 0),
        Vec3::new(0, 0, -65536),
        Vec3::new(0, 65536, 0),
    );
    let mut rng = new_rng();
    let r1 = cam.get_ray(32768, 32768, &mut rng);
    let r2 = cam.get_ray(32768, 32768, &mut rng);
    assert_eq!(r1, r2);
    let r3 = cam.get_ray(0, 65536, &mut rng);
    let r4 = cam.get_ray(0, 65536, &mut rng);
    assert_eq!(r3, r4);
    assert_eq!(r1.orig, Vec3::new(0, 0, 0));
}

#[test]
fn degenerate_camera_frames_are_rejected() {
    let origin = Vec3::new(0, 0, 0);
    let target = Vec3::new(0, 0, -65536);
    let vup = Vec3::new(0, 65536, 0);
    assert!(camera_frame_ok(&origin, &target, &vup));
    // Coincident look-from and look-at.
    assert!(!camera_frame_ok(&origin, &origin, &vup));
    // Up vector parallel to the view direction.
    let up_along_view = Vec3::new(0, 0, 65536);
    assert!(!camera_frame_ok(&origin, &target, &up_along_view));
}

#[test]
fn encode_color_quantizes_channels() {
    // 0.25 averages to itself over one sample; sqrt(0.25) = 0.5 scales
    // to byte 128. A full channel clamps just below 1 and lands on 255.
    let c = Vec3::new(16384, 65536, 0);
    assert_eq!(encode_color(&c, 1), (128, 255, 0));
    // Averaging over four samples of a full channel: 0.25 again.
    let acc = Vec3::new(262144, 65536, 16384);
    assert_eq!(encode_color(&acc, 4), (255, 128, 64));
}

#[test]
fn samplers_stay_in_their_domains() {
    let mut rng = new_rng();
    for _ in 0..128 {
        let p = random_in_unit_sphere(&mut rng);
        assert!(p.length_sqrd() < 65536);
        let d = random_in_unit_disk(&mut rng);
        assert_eq!(d.z, 0);
        assert!(d.length_sqrd() < 65536);
        let u = random_unit_vector(&mut rng);
        assert!(u.x.abs() <= 98560 && u.y.abs() <= 98560 && u.z.abs() <= 98560);
        // The sampler rejects draws below a quarter squared length, so
        // normalization error keeps the length within 16 of one.
        assert!(65536 - 16 <= u.length() && u.length() <= 65536 + 16);
        let n = Vec3::new(0, 0, 65536);
        let h = random_in_hemisphere(&mut rng, &n);
        assert!(dot(&h, &n) >= 0);
    }
}
