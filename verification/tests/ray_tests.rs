use raytracer::ray::Ray;
use raytracer::scalar::Scalar;
use raytracer::vec3::{Point3, Vec3};

fn s(x: f32) -> Scalar {
    Scalar::from_raw((x as f64 * 4294967296.0) as i64)
}

fn f(x: Scalar) -> f32 {
    (x.raw() as f64 / 4294967296.0) as f32
}

#[test]
fn test_ray_creation_default() {
    let v = Ray::default();
    assert_eq!(f(v.origin.get(0)), 0.0);
    assert_eq!(f(v.origin.get(1)), 0.0);
    assert_eq!(f(v.origin.get(2)), 0.0);
    assert_eq!(f(v.direction.get(0)), 0.0);
    assert_eq!(f(v.direction.get(1)), 0.0);
    assert_eq!(f(v.direction.get(2)), 0.0);
}

#[test]
fn test_ray_creation() {
    let origin = Point3::new(s(1.0), s(2.0), s(3.0));
    let direction = Vec3::new(s(4.0), s(5.0), s(6.0));

    let v = Ray::new(origin, direction);

    assert_eq!(v.origin, origin);
    assert_eq!(v.direction, direction);

    assert_eq!(f(v.origin.get(0)), 1.0);
    assert_eq!(f(v.origin.get(1)), 2.0);
    assert_eq!(f(v.origin.get(2)), 3.0);
    assert_eq!(f(v.direction.get(0)), 4.0);
    assert_eq!(f(v.direction.get(1)), 5.0);
    assert_eq!(f(v.direction.get(2)), 6.0);
}

#[test]
fn test_ray_at() {
    let origin = Point3::new(s(1.0), s(2.0), s(3.0));
    let direction = Vec3::new(s(4.0), s(5.0), s(6.0));

    let v = Ray::new(origin, direction);

    let ans = Vec3::new(s(9.0), s(12.0), s(15.0));

    assert_eq!(v.at(s(2.0)), ans);
}

#[test]
fn ray_getters_return_the_parts() {
    let origin = Point3::new(s(1.0), s(2.0), s(3.0));
    let direction = Vec3::new(s(4.0), s(5.0), s(6.0));
    let v = Ray::new(origin, direction);
    assert_eq!(v.origin(), origin);
    assert_eq!(v.direction(), direction);
    assert_eq!(v.at(s(0.0)), origin);
    assert_eq!(v.at(s(-0.5)), Vec3::new(s(-1.0), s(-0.5), s(0.0)));
}
