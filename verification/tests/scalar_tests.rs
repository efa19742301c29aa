use raytracer::constants::{degrees_to_radians, infinity, linear_to_gamma, pi};
use raytracer::interval::Interval;
use raytracer::scalar::{Scalar, MAX_RAW, ONE_RAW};
use raytracer::wide::{integer_root_of, times_wide, wide_magnitude, wide_over, wide_times};

#[test]
fn scalar_product_of_whole_numbers() {
    let a = Scalar::from_int(2);
    let b = Scalar::from_int(3);
    assert_eq!(a * b, Scalar::from_int(6));
    assert_eq!(a + b, Scalar::from_int(5));
    assert_eq!(a - b, Scalar::from_int(-1));
    assert_eq!(-a, Scalar::from_int(-2));
}

#[test]
fn scalar_quotient_rounds_toward_zero() {
    let two = Scalar::from_int(2);
    let three = Scalar::from_int(3);
    assert_eq!((two / three).raw(), 0xaaaa_aaaa);
    assert_eq!((-two / three).raw(), -0xaaaa_aaaa);
    assert_eq!((two / -three).raw(), -0xaaaa_aaaa);
    assert_eq!(Scalar::from_ratio(2, 3).raw(), 0xaaaa_aaaa);
    assert_eq!(Scalar::from_ratio(7, 10).raw(), 3006477107);
    assert_eq!(Scalar::from_raw(3) * Scalar::from_raw(ONE_RAW / 2), Scalar::from_raw(1));
    assert_eq!(Scalar::from_raw(-3) * Scalar::from_raw(ONE_RAW / 2), Scalar::from_raw(-1));
}

#[test]
fn scalar_division_by_zero_saturates() {
    let zero = Scalar::from_raw(0);
    assert_eq!((Scalar::from_int(9) / zero).raw(), MAX_RAW);
    assert_eq!((Scalar::from_int(-9) / zero).raw(), -MAX_RAW);
    assert_eq!((zero / zero).raw(), 0);
}

#[test]
fn scalar_arithmetic_saturates() {
    let big = Scalar::from_raw(MAX_RAW);
    assert_eq!((big + big).raw(), MAX_RAW);
    assert_eq!((-big - big).raw(), -MAX_RAW);
    assert_eq!((big * big).raw(), MAX_RAW);
    assert_eq!((big * -big).raw(), -MAX_RAW);
    assert_eq!((-Scalar::from_raw(i64::MIN)).raw(), MAX_RAW);
    assert_eq!(Scalar::from_int(i32::MIN).raw(), -MAX_RAW);
    assert_eq!((big / Scalar::from_raw(1)).raw(), MAX_RAW);
}

#[test]
fn scalar_square_root_rounds_down() {
    assert_eq!(Scalar::from_int(16).sqrt(), Scalar::from_int(4));
    assert_eq!(Scalar::from_int(2).sqrt().raw(), 6074000999);
    assert_eq!(Scalar::from_int(17).sqrt().raw(), 17708603819);
    assert_eq!(Scalar::from_raw(0).sqrt().raw(), 0);
    assert_eq!(Scalar::from_raw(1).sqrt().raw(), 65536);
    assert_eq!(Scalar::from_int(-4).sqrt().raw(), 0);
    assert_eq!(Scalar::from_raw(MAX_RAW).sqrt().raw(), 199032864766430);
}

#[test]
fn scalar_whole_part_rounds_toward_zero() {
    assert_eq!(Scalar::from_ratio(7, 2).to_int(), 3);
    assert_eq!(Scalar::from_ratio(-7, 2).to_int(), -3);
    assert_eq!(Scalar::from_raw(MAX_RAW).to_int(), i32::MAX);
    assert_eq!(Scalar::from_raw(i64::MIN).to_int(), i32::MIN);
    assert_eq!(Scalar::from_int(-5).to_int(), -5);
}

#[test]
fn scalar_comparisons_follow_the_raw_values() {
    let a = Scalar::from_ratio(1, 3);
    let b = Scalar::from_ratio(1, 2);
    assert!(a.lt(&b) && a.le(&b) && b.gt(&a) && b.ge(&a));
    assert!(a.le(&a) && a.ge(&a) && !a.lt(&a) && !a.gt(&a));
    assert!(a < b && b > a && a <= a && Scalar::from_int(-1) < Scalar::from_raw(0));
    assert_eq!(a.max(b), b);
}

#[test]
fn constants_take_exact_values() {
    assert_eq!(infinity().raw(), MAX_RAW);
    assert_eq!(pi().raw(), 13493034897);
    assert_eq!(degrees_to_radians(Scalar::from_int(180)), pi());
    assert_eq!(degrees_to_radians(Scalar::from_int(90)).raw(), 13493034897 / 2);
    assert_eq!(
        degrees_to_radians(Scalar::from_int(1_800_000_000)).raw(),
        13493034897 * 10_000_000
    );
    assert_eq!(degrees_to_radians(Scalar::from_int(-360)).raw(), -13493034897 * 2);
    assert_eq!(linear_to_gamma(Scalar::from_ratio(1, 4)), Scalar::from_ratio(1, 2));
    assert_eq!(linear_to_gamma(Scalar::from_int(-1)).raw(), 0);
}

#[test]
fn interval_bounds_and_membership() {
    let i = Interval::new(Scalar::from_int(1), Scalar::from_int(3));
    assert_eq!(i.min(), Scalar::from_int(1));
    assert_eq!(i.max(), Scalar::from_int(3));
    assert_eq!(i.size(), Scalar::from_int(2));
    assert!(i.contains(Scalar::from_int(1)));
    assert!(i.contains(Scalar::from_int(3)));
    assert!(!i.contains(Scalar::from_int(4)));
    assert!(!i.surrounds(Scalar::from_int(1)));
    assert!(!i.surrounds(Scalar::from_int(3)));
    assert!(i.surrounds(Scalar::from_int(2)));
    assert_eq!(i.clamp(Scalar::from_int(0)), Scalar::from_int(1));
    assert_eq!(i.clamp(Scalar::from_int(2)), Scalar::from_int(2));
    assert_eq!(i.clamp(Scalar::from_int(9)), Scalar::from_int(3));
}

#[test]
fn interval_empty_universe_and_default() {
    let e = Interval::empty();
    assert_eq!(e.min().raw(), MAX_RAW);
    assert_eq!(e.max().raw(), -MAX_RAW);
    assert!(!e.contains(Scalar::from_raw(0)));
    let u = Interval::universe();
    assert_eq!(u.min().raw(), -MAX_RAW);
    assert_eq!(u.max().raw(), MAX_RAW);
    assert!(u.surrounds(Scalar::from_raw(0)));
    assert!(!u.surrounds(Scalar::from_raw(MAX_RAW)));
    assert_eq!(Interval::default(), u);
    assert_eq!(u.size().raw(), MAX_RAW);
}

#[test]
fn wide_values_are_rounded_and_never_clamped() {
    let big = Scalar::from_int(100_000);
    assert_eq!(times_wide(big, big), 10_000_000_000i128 << 32);
    assert_eq!(times_wide(Scalar::from_raw(-3), Scalar::from_raw(1 << 31)), -1);
    assert_eq!(wide_times(3i128 << 32, -(5i128 << 32)), Some(-(15i128 << 32)));
    assert_eq!(wide_times(1i128 << 64, 1i128 << 63), None);
    assert_eq!(wide_times(1i128 << 63, 1i128 << 63), Some(1i128 << 94));
    assert_eq!(wide_times(0, i128::MIN), Some(0));
    assert_eq!(wide_over(-(7i128 << 32), 2i128 << 32), Some(-(7i128 << 31)));
    assert_eq!(wide_over(1i128 << 32, 3i128 << 32), Some(0x5555_5555));
    assert_eq!(wide_over(1i128 << 32, 0), None);
    assert_eq!(wide_over(1i128 << 95, 1), None);
    assert_eq!(wide_over((1i128 << 95) - 1, 1i128 << 32), Some((1i128 << 95) - 1));
    assert_eq!(integer_root_of(0), 0);
    assert_eq!(integer_root_of(24), 4);
    assert_eq!(integer_root_of(25), 5);
    assert_eq!(integer_root_of(u128::MAX), u64::MAX as u128);
    assert_eq!(wide_magnitude(i128::MIN), 1u128 << 127);
    assert_eq!(wide_magnitude(-5), 5);
}
