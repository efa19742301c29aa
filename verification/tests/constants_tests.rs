use raytracer::constants::{random_generator, random_generator_range, RandomGenerator};
use raytracer::scalar::Scalar;
use raytracer::vec3::Vec3;

fn f(x: Scalar) -> f32 {
    (x.raw() as f64 / 4294967296.0) as f32
}

#[test]
fn generate_numbers() {
    let mut source = RandomGenerator::new(7);
    let a: f32 = f(random_generator(&mut source));
    assert!(0.0 <= a && a <= 1.0);
}

#[test]
fn random_scalars_stay_in_range_and_vary() {
    let mut source = RandomGenerator::new(1);
    let one = Scalar::from_int(1);
    let zero = Scalar::from_raw(0);
    let first = random_generator(&mut source);
    let mut varied = false;
    for _ in 0..200 {
        let r = random_generator(&mut source);
        assert!(r.ge(&zero) && r.lt(&one));
        if r != first {
            varied = true;
        }
    }
    assert!(varied);
}

#[test]
fn random_scalars_in_a_range_stay_in_it_and_vary() {
    let mut source = RandomGenerator::new(2);
    let low = Scalar::from_int(-3);
    let high = Scalar::from_ratio(5, 2);
    let mut below_zero = false;
    let mut above_zero = false;
    for _ in 0..500 {
        let r = random_generator_range(&mut source, low, high);
        assert!(r.ge(&low) && r.lt(&high));
        if r.raw() < 0 {
            below_zero = true;
        } else {
            above_zero = true;
        }
    }
    assert!(below_zero && above_zero);
    let narrow = random_generator_range(&mut source, Scalar::from_raw(41), Scalar::from_raw(42));
    assert_eq!(narrow.raw(), 41);
}

#[test]
fn equal_seeds_give_equal_streams() {
    let mut a = RandomGenerator::new(99);
    let mut b = RandomGenerator::new(99);
    for _ in 0..50 {
        assert_eq!(random_generator(&mut a), random_generator(&mut b));
    }
}

#[test]
fn random_unit_vectors_have_about_unit_length() {
    let mut source = RandomGenerator::new(3);
    for _ in 0..200 {
        let v = Vec3::random_unit_vector(&mut source);
        let length = f(v.length());
        assert!((length - 1.0).abs() < 1e-4);
    }
}

#[test]
fn random_hemisphere_vectors_lie_on_the_side_of_the_normal() {
    let mut source = RandomGenerator::new(4);
    let normal = Vec3::new(Scalar::from_ratio(3, 5), Scalar::from_raw(0), Scalar::from_ratio(-4, 5));
    for _ in 0..200 {
        let v = Vec3::random_on_hemisphere(&mut source, &normal);
        assert!(v.dot(&normal).raw() >= 0);
        assert!((f(v.length()) - 1.0).abs() < 1e-4);
    }
}

#[test]
fn random_vectors_stay_in_their_cubes() {
    let mut source = RandomGenerator::new(5);
    let low = Scalar::from_int(-1);
    let high = Scalar::from_int(1);
    let zero = Scalar::from_raw(0);
    for _ in 0..100 {
        let v = Vec3::random_range(&mut source, low, high);
        assert!(v.x.ge(&low) && v.x.lt(&high));
        assert!(v.y.ge(&low) && v.y.lt(&high));
        assert!(v.z.ge(&low) && v.z.lt(&high));
        let w = Vec3::random(&mut source);
        assert!(w.x.ge(&zero) && w.x.lt(&high));
        assert!(w.y.ge(&zero) && w.y.lt(&high));
        assert!(w.z.ge(&zero) && w.z.lt(&high));
    }
}
