use raytracer::color::{encode_channel, Color};
use raytracer::scalar::Scalar;
use raytracer::vec3::Vec3;

fn s(x: f32) -> Scalar {
    Scalar::from_raw((x as f64 * 4294967296.0) as i64)
}

fn f(x: Scalar) -> f32 {
    (x.raw() as f64 / 4294967296.0) as f32
}

#[test]
fn test_color_display() {
    let c = Color::new(s(0.5), s(0.4), s(0.3));
    assert_eq!(c.to_string(), "181 161 140");
}

#[test]
fn test_color_vec3_add() {
    let c = Color::new(s(0.5), s(0.4), s(0.3));
    let v = Vec3::new(s(0.5), s(0.4), s(0.3));
    let result = c + v;
    assert_eq!(f(result.r()), 1.0);
    assert_eq!(f(result.g()), 0.8);
    assert_eq!(f(result.b()), 0.6);
}

#[test]
fn color_channels_are_clamped_before_they_are_scaled() {
    assert_eq!(encode_channel(Scalar::from_int(0)), 0);
    assert_eq!(encode_channel(Scalar::from_int(-3)), 0);
    assert_eq!(encode_channel(Scalar::from_int(1)), 255);
    assert_eq!(encode_channel(Scalar::from_int(400)), 255);
    assert_eq!(encode_channel(Scalar::from_ratio(1, 4)), 128);
    assert_eq!(encode_channel(Scalar::from_ratio(1, 16)), 64);
    let c = Color::new(Scalar::from_int(1), Scalar::from_raw(0), Scalar::from_ratio(1, 4));
    assert_eq!(c.to_bytes(), (255, 0, 128));
    assert_eq!(c.to_string(), "255 0 128");
}

#[test]
fn color_reads_as_the_vector_of_its_components() {
    let c = Color::new(s(0.5), s(0.4), s(0.3));
    assert_eq!(c.x(), c.r());
    assert_eq!(c.y(), c.g());
    assert_eq!(c.z(), c.b());
    assert_eq!(*c, Vec3::new(s(0.5), s(0.4), s(0.3)));
}

#[test]
fn color_arithmetic_works_by_component() {
    let a = Color::new(Scalar::from_int(1), Scalar::from_int(2), Scalar::from_int(3));
    let b = Color::new(Scalar::from_int(4), Scalar::from_int(6), Scalar::from_int(8));
    assert_eq!(a + b, Color::new(Scalar::from_int(5), Scalar::from_int(8), Scalar::from_int(11)));
    assert_eq!(b - a, Color::new(Scalar::from_int(3), Scalar::from_int(4), Scalar::from_int(5)));
    assert_eq!(a * b, Color::new(Scalar::from_int(4), Scalar::from_int(12), Scalar::from_int(24)));
    assert_eq!(b / Scalar::from_int(2), Color::new(Scalar::from_int(2), Scalar::from_int(3), Scalar::from_int(4)));
    assert_eq!(a * Scalar::from_int(2), Scalar::from_int(2) * a);
    assert_eq!(a.dot(&b), Scalar::from_int(40));
    assert_eq!(a.length_squared(), Scalar::from_int(14));
    assert_eq!(
        Color::new(Scalar::from_int(3), Scalar::from_int(4), Scalar::from_int(0)).length(),
        Scalar::from_int(5)
    );
    assert_eq!(
        Color::new(Scalar::from_int(3), Scalar::from_int(4), Scalar::from_int(0)).unit_vector(),
        Color::new(Scalar::from_ratio(3, 5), Scalar::from_ratio(4, 5), Scalar::from_int(0))
    );
    assert_eq!(
        a.cross(&b),
        Color::new(Scalar::from_int(-2), Scalar::from_int(4), Scalar::from_int(-2))
    );
}
