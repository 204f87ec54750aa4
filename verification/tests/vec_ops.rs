//! Vector arithmetic on whole and half units, written against the
//! fixed-point representation (65536 stands for 1).

use raytracer::vec::Vec3;

#[test]
fn test_negate() {
    let vec = Vec3::new(65536, 65536, 65536);
    assert_eq!(Vec3::new(-65536, -65536, -65536), vec.neg());
}

#[test]
fn test_add_assign() {
    let mut vec1 = Vec3::new(65536, 65536, 65536);
    let vec2 = Vec3::new(131072, 131072, 131072);
    vec1 = vec1.add(&vec2);

    let vec3 = Vec3::new(196608, 196608, 196608);
    assert_eq!(vec3, vec1);
}

#[test]
fn test_mul_assign() {
    let mut v1 = Vec3::new(131072, 131072, 131072);
    let v2 = Vec3::new(196608, 196608, 196608);
    v1 = v1.mul(&v2);

    let v3 = Vec3::new(393216, 393216, 393216);
    assert_eq!(v3, v1);
}

#[test]
fn test_div_assign() {
    let mut v1 = Vec3::new(131072, 131072, 131072);
    let v2 = Vec3::new(131072, 131072, 131072);
    v1 = v1.div(&v2);

    let v3 = Vec3::new(65536, 65536, 65536);
    assert_eq!(v3, v1);
}

#[test]
fn test_add() {
    let vec1 = Vec3::new(65536, 65536, 65536);
    let vec2 = Vec3::new(131072, 131072, 131072);

    let vec3 = Vec3::new(196608, 196608, 196608);
    assert_eq!(vec3, vec1.add(&vec2));
}

#[test]
fn test_sub() {
    let vec1 = Vec3::new(65536, 65536, 65536);
    let vec2 = Vec3::new(131072, 131072, 131072);

    let vec3 = Vec3::new(-65536, -65536, -65536);
    assert_eq!(vec3, vec1.sub(&vec2));
}

#[test]
fn test_div_f32() {
    let vec1 = Vec3::new(65536, 65536, 65536);

    let vec3 = Vec3::new(32768, 32768, 32768);
    assert_eq!(vec3, vec1.div_s(131072));
}

#[test]
fn test_mul_f32() {
    let vec1 = Vec3::new(65536, 65536, 65536);

    let vec3 = Vec3::new(196608, 196608, 196608);
    assert_eq!(vec3, vec1.mul_s(196608));
}
