use raytracer::constants::infinity;
use raytracer::hittable::{HitRecord, Hittable, HittableList, Sphere, TraceError};
use raytracer::interval::Interval;
use raytracer::ray::Ray;
use raytracer::scalar::Scalar;
use raytracer::vec3::{Point3, Vec3};
use std::sync::Arc;

fn s(x: f32) -> Scalar {
    Scalar::from_raw((x as f64 * 4294967296.0) as i64)
}

fn f(x: Scalar) -> f32 {
    (x.raw() as f64 / 4294967296.0) as f32
}

fn v(x: f32, y: f32, z: f32) -> Vec3 {
    Vec3::new(s(x), s(y), s(z))
}

fn sphere(x: f32, y: f32, z: f32, radius: f32) -> Sphere {
    Sphere::new(v(x, y, z), s(radius)).unwrap()
}

fn blank() -> HitRecord {
    HitRecord {
        p: Point3::new(s(0.0), s(0.0), s(0.0)),
        normal: Vec3::new(s(0.0), s(0.0), s(0.0)),
        t: s(0.0),
        front_face: false,
    }
}

#[test]
fn test_hittable_sphere() {
    let center = Point3::new(s(0.0), s(0.0), s(-1.0));
    let radius = s(0.5);
    let sphere = Sphere::new(center, radius).unwrap();

    let origin = Point3::new(s(0.0), s(0.0), s(0.0));
    let direction = Vec3::new(s(0.0), s(0.0), s(-1.0));
    let ray = Ray::new(origin, direction);

    let ray_t: Interval = Interval::new(s(0.0), infinity());
    let mut rec = HitRecord {
        p: Point3::new(s(0.0), s(0.0), s(0.0)),
        normal: Vec3::new(s(0.0), s(0.0), s(0.0)),
        t: s(0.0),
        front_face: false,
    };

    let hit = sphere.hit(ray, ray_t, &mut rec);

    assert!(hit.is_some());
    let hit_record = hit.unwrap();
    assert!((f(hit_record.t) - 0.5).abs() < 1e-6);
    assert!(f((hit_record.p - Point3::new(s(0.0), s(0.0), s(-0.5))).length()) < 1e-6);
}

#[test]
fn sphere_unit_case_is_exact() {
    let ball = sphere(0.0, 0.0, -1.0, 0.5);
    let ray = Ray::new(v(0.0, 0.0, 0.0), v(0.0, 0.0, -1.0));
    let mut rec = blank();
    let hit = ball.hit(ray, Interval::new(s(0.0), infinity()), &mut rec).unwrap();
    assert_eq!(hit.t(), s(0.5));
    assert_eq!(hit.p(), v(0.0, 0.0, -0.5));
    assert_eq!(hit.normal(), v(0.0, 0.0, 1.0));
    assert!(hit.front_face());
    assert_eq!(rec, hit);
}

#[test]
fn sphere_miss_leaves_the_record_alone() {
    let ball = sphere(0.0, 0.0, -1.0, 0.5);
    let ray = Ray::new(v(0.0, 0.0, 0.0), v(0.0, 1.0, 0.0));
    let mut rec = blank();
    rec.t = s(7.0);
    assert!(ball.hit(ray, Interval::new(s(0.0), infinity()), &mut rec).is_none());
    assert_eq!(rec.t, s(7.0));
}

#[test]
fn sphere_of_radius_zero_is_refused() {
    assert_eq!(Sphere::new(v(0.0, 0.0, -1.0), s(0.0)).err(), Some(TraceError::InvalidGeometry));
    assert!(Sphere::new(v(0.0, 0.0, -1.0), s(-0.5)).is_ok());
    assert!(Sphere::new(v(0.0, 0.0, -1.0), Scalar::from_raw(1)).is_ok());
}

#[test]
fn sphere_with_negative_radius_turns_the_normal() {
    let ball = sphere(0.0, 0.0, -1.0, -0.5);
    let ray = Ray::new(v(0.0, 0.0, 0.0), v(0.0, 0.0, -1.0));
    let mut rec = blank();
    let hit = ball.hit(ray, Interval::new(s(0.0), infinity()), &mut rec).unwrap();
    assert_eq!(hit.t(), s(0.5));
    assert_eq!(hit.normal(), v(0.0, 0.0, 1.0));
    assert!(!hit.front_face());
}

#[test]
fn sphere_ray_without_direction_hits_nothing() {
    let ball = sphere(0.0, 0.0, -1.0, 0.5);
    let inside = Ray::new(v(0.0, 0.0, -1.0), v(0.0, 0.0, 0.0));
    let mut rec = blank();
    assert!(ball.hit(inside, Interval::universe(), &mut rec).is_none());
}

#[test]
fn sphere_accepts_only_the_nearer_crossing() {
    let ball = sphere(0.0, 0.0, -1.0, 0.5);
    let from_inside = Ray::new(v(0.0, 0.0, -1.0), v(0.0, 0.0, -1.0));
    let mut rec = blank();
    assert!(ball.hit(from_inside, Interval::new(s(0.0), infinity()), &mut rec).is_none());
    let hit = ball.hit(from_inside, Interval::universe(), &mut rec).unwrap();
    assert_eq!(hit.t(), s(-0.5));
    let outside = Ray::new(v(0.0, 0.0, 0.0), v(0.0, 0.0, -1.0));
    assert!(ball.hit(outside, Interval::new(s(0.5), infinity()), &mut rec).is_none());
    assert!(ball.hit(outside, Interval::new(s(0.0), s(0.5)), &mut rec).is_none());
    assert!(ball.hit(outside, Interval::new(s(0.25), s(0.75)), &mut rec).is_some());
}

#[test]
fn sphere_hit_points_lie_on_the_surface() {
    let ball = sphere(0.25, -0.5, -3.0, 1.5);
    let mut hits = 0;
    for i in -8..=8 {
        for j in -8..=8 {
            let direction = v(i as f32 / 16.0, j as f32 / 16.0, -1.0);
            let ray = Ray::new(v(0.0, 0.0, 0.0), direction);
            let mut rec = blank();
            if let Some(hit) = ball.hit(ray, Interval::new(s(0.0), infinity()), &mut rec) {
                hits += 1;
                let distance = f((hit.p() - v(0.25, -0.5, -3.0)).length());
                assert!((distance - 1.5).abs() < 1e-5);
                assert!(ray.direction().dot(&hit.normal()).raw() <= 0);
                assert_eq!(hit.p(), ray.at(hit.t()));
            }
        }
    }
    assert!(hits > 50);
}

#[test]
fn hit_normal_opposes_the_ray_from_inside_too() {
    let ball = sphere(0.0, 0.0, 0.0, 2.0);
    let ray = Ray::new(v(0.0, 0.0, 5.0), v(0.1, 0.2, -1.0));
    let mut rec = blank();
    let near = ball.hit(ray, Interval::new(s(0.0), infinity()), &mut rec).unwrap();
    assert!(near.front_face());
    assert!(ray.direction().dot(&near.normal()).raw() <= 0);
    let inverted = sphere(0.0, 0.0, 0.0, -2.0);
    let turned = inverted.hit(ray, Interval::new(s(0.0), infinity()), &mut rec).unwrap();
    assert!(!turned.front_face());
    assert!(ray.direction().dot(&turned.normal()).raw() <= 0);
    assert_eq!(turned.normal(), near.normal());
}

#[test]
fn set_face_normal_turns_the_normal_against_the_ray() {
    let ray = Ray::new(v(0.0, 0.0, 0.0), v(0.0, 0.0, -1.0));
    let mut rec = blank();
    rec.set_face_normal(&ray, v(0.0, 0.0, 1.0));
    assert!(rec.front_face());
    assert_eq!(rec.normal(), v(0.0, 0.0, 1.0));
    rec.set_face_normal(&ray, v(0.0, 0.0, -1.0));
    assert!(!rec.front_face());
    assert_eq!(rec.normal(), v(0.0, 0.0, 1.0));
    rec.set_face_normal(&ray, v(1.0, 0.0, 0.0));
    assert!(!rec.front_face());
    assert_eq!(rec.normal(), v(-1.0, 0.0, 0.0));
    assert_eq!(rec.p(), v(0.0, 0.0, 0.0));
    assert_eq!(HitRecord::default(), blank());
}

#[test]
fn empty_list_has_no_hit() {
    let world: HittableList<Sphere> = HittableList::new();
    let ray = Ray::new(v(0.0, 0.0, 0.0), v(0.0, 0.0, -1.0));
    let mut rec = blank();
    assert!(world.hit(ray, Interval::universe(), &mut rec).is_none());
    assert!(world.objects().is_empty());
    let other: HittableList<Sphere> = HittableList::default();
    assert!(other.objects().is_empty());
}

#[test]
fn list_returns_the_nearest_hit_in_either_order() {
    let near = Arc::new(sphere(0.0, 0.0, -1.0, 0.5));
    let far = Arc::new(sphere(0.0, 0.0, -3.0, 0.5));
    let ray = Ray::new(v(0.0, 0.0, 0.0), v(0.0, 0.0, -1.0));
    let whole = Interval::new(s(0.0), infinity());
    let mut rec = blank();
    let near_alone = near.hit(ray, whole, &mut rec).unwrap();
    let far_alone = far.hit(ray, whole, &mut rec).unwrap();
    assert_eq!(near_alone.t(), s(0.5));
    assert_eq!(far_alone.t(), s(2.5));

    let mut world = HittableList::new();
    world.add(near.clone());
    world.add(far.clone());
    let mut rec = blank();
    let found = world.hit(ray, whole, &mut rec).unwrap();
    assert_eq!(found, near_alone);
    assert_eq!(rec, near_alone);

    let mut turned = HittableList::new();
    turned.add(far);
    turned.add(near);
    assert_eq!(turned.hit(ray, whole, &mut rec).unwrap(), near_alone);

    let beyond = Interval::new(s(1.0), infinity());
    assert_eq!(world.hit(ray, beyond, &mut rec).unwrap(), far_alone);
    assert!(world.hit(ray, Interval::new(s(0.75), s(2.0)), &mut rec).is_none());
}

#[test]
fn list_keeps_the_first_of_two_equally_near_hits() {
    let first = Arc::new(sphere(0.0, 0.0, -1.0, 0.5));
    let second = Arc::new(sphere(0.375, 0.0, -1.0, 0.625));
    let ray = Ray::new(v(0.0, 0.0, 0.0), v(0.0, 0.0, -1.0));
    let whole = Interval::new(s(0.0), infinity());
    let mut rec = blank();
    let first_alone = first.hit(ray, whole, &mut rec).unwrap();
    let second_alone = second.hit(ray, whole, &mut rec).unwrap();
    assert_eq!(first_alone.t(), second_alone.t());
    assert_eq!(
        second_alone.normal(),
        Vec3::new(Scalar::from_ratio(-3, 5), s(0.0), Scalar::from_ratio(4, 5))
    );

    let mut world = HittableList::new();
    world.add(first.clone());
    world.add(second.clone());
    assert_eq!(world.hit(ray, whole, &mut rec).unwrap(), first_alone);

    let mut turned = HittableList::new();
    turned.add(second);
    turned.add(first);
    assert_eq!(turned.hit(ray, whole, &mut rec).unwrap(), second_alone);
}

#[test]
fn hit_twice_gives_the_same_record() {
    let mut world = HittableList::new();
    world.add(Arc::new(sphere(0.0, 0.0, -1.0, 0.5)));
    world.add(Arc::new(sphere(0.0, -100.5, -1.0, 100.0)));
    let ray = Ray::new(v(0.0, 0.0, 0.0), v(0.3, -0.4, -1.0));
    let whole = Interval::new(s(0.001), infinity());
    let mut first_rec = blank();
    let mut second_rec = blank();
    let first = world.hit(ray, whole, &mut first_rec);
    let second = world.hit(ray, whole, &mut second_rec);
    assert!(first.is_some());
    assert_eq!(first, second);
    assert_eq!(first_rec, second_rec);
    let ball = sphere(0.0, 0.0, -1.0, 0.5);
    assert_eq!(ball.hit(ray, whole, &mut first_rec), ball.hit(ray, whole, &mut second_rec));
}

#[test]
fn list_add_and_clear_change_the_objects() {
    let mut world = HittableList::new();
    let first = Arc::new(sphere(0.0, 0.0, -1.0, 0.5));
    let second = Arc::new(sphere(0.0, 0.0, -3.0, 0.5));
    world.add(first.clone());
    world.add(second.clone());
    assert_eq!(world.objects().len(), 2);
    assert!(Arc::ptr_eq(&world.objects()[0], &first));
    assert!(Arc::ptr_eq(&world.objects()[1], &second));
    world.clear();
    assert!(world.objects().is_empty());
    let ray = Ray::new(v(0.0, 0.0, 0.0), v(0.0, 0.0, -1.0));
    let mut rec = blank();
    assert!(world.hit(ray, Interval::universe(), &mut rec).is_none());
}

#[test]
fn lists_nest() {
    let mut inner = HittableList::new();
    inner.add(Arc::new(sphere(0.0, 0.0, -3.0, 0.5)));
    inner.add(Arc::new(sphere(0.0, 0.0, -1.0, 0.5)));
    let mut outer = HittableList::new();
    outer.add(Arc::new(inner));
    let ray = Ray::new(v(0.0, 0.0, 0.0), v(0.0, 0.0, -1.0));
    let mut rec = blank();
    let hit = outer.hit(ray, Interval::new(s(0.0), infinity()), &mut rec).unwrap();
    assert_eq!(hit.t(), s(0.5));
}

#[test]
fn hit_point_gap_stays_within_the_rounding_tolerance() {
    let center = v(0.25, -0.5, -3.0);
    let radius = s(1.5);
    let ball = Sphere::new(center, radius).unwrap();
    let one: i128 = 1 << 32;
    let mut hits = 0;
    for i in -8..=8 {
        for j in -8..=8 {
            let ray = Ray::new(v(0.0, 0.0, 0.0), v(i as f32 / 16.0, j as f32 / 16.0, -1.0));
            let mut rec = blank();
            if let Some(hit) = ball.hit(ray, Interval::new(s(0.0), infinity()), &mut rec) {
                hits += 1;
                let x = (hit.p().x.raw() - center.x.raw()) as i128;
                let y = (hit.p().y.raw() - center.y.raw()) as i128;
                let z = (hit.p().z.raw() - center.z.raw()) as i128;
                let r = radius.raw() as i128;
                let gap = x * x + y * y + z * z - r * r;
                let a = ray.direction().length_squared().raw() as i128;
                let t = hit.t().raw() as i128;
                let oc = ray.origin() - center;
                let h = ray.direction().dot(&oc);
                let c = oc.length_squared() - radius * radius;
                let root = (h * h - a_scalar(a) * c).sqrt().raw() as i128;
                let reach = x.abs() + y.abs() + z.abs();
                let tolerance = one * one * (2 * one + 2 * root) + 2 * root * a * one + a * a
                    + a * (one * (2 * reach + 3) + 3 * one * one + 6 * one * t.abs() + 3 * t * t);
                assert!(a * one * gap.abs() <= tolerance);
                assert!(gap.abs() < 100 * one);
            }
        }
    }
    assert!(hits > 50);
}

fn a_scalar(raw: i128) -> Scalar {
    Scalar::from_raw(raw as i64)
}

#[test]
fn far_spheres_are_hit_on_their_surface() {
    let ray = Ray::new(v(0.0, 0.0, 0.0), v(0.0, 0.0, -1.0));
    let whole = Interval::new(s(0.0), infinity());
    let mut rec = blank();

    let far = Sphere::new(
        Vec3::new(Scalar::from_int(0), Scalar::from_int(0), Scalar::from_int(-50000)),
        Scalar::from_int(49999),
    )
    .unwrap();
    let hit = far.hit(ray, whole, &mut rec).unwrap();
    assert_eq!(hit.t(), Scalar::from_int(1));
    assert_eq!(hit.p(), v(0.0, 0.0, -1.0));
    assert_eq!(hit.normal(), v(0.0, 0.0, 1.0));

    let center = Vec3::new(Scalar::from_int(100), Scalar::from_int(0), Scalar::from_int(-100000));
    let off_axis = Sphere::new(center, Scalar::from_int(200)).unwrap();
    let hit = off_axis.hit(ray, whole, &mut rec).unwrap();
    let x = (hit.p().x.raw() - center.x.raw()) as i128;
    let y = (hit.p().y.raw() - center.y.raw()) as i128;
    let z = (hit.p().z.raw() - center.z.raw()) as i128;
    let r = Scalar::from_int(200).raw() as i128;
    let gap = x * x + y * y + z * z - r * r;
    let one: i128 = 1 << 32;
    assert!(gap.abs() < 1000 * one);
    assert!((f(hit.t()) - (100000.0 - 30000.0_f32.sqrt())).abs() < 0.01);

    let huge = Sphere::new(
        Vec3::new(Scalar::from_int(0), Scalar::from_int(0), Scalar::from_int(-1_000_000_000)),
        Scalar::from_int(999_999_000),
    )
    .unwrap();
    let hit = huge.hit(ray, whole, &mut rec).unwrap();
    assert_eq!(hit.t(), Scalar::from_int(1000));
    assert_eq!(hit.p(), v(0.0, 0.0, -1000.0));
}

#[test]
fn crossing_beyond_what_the_arithmetic_carries_is_no_hit() {
    let mut rec = blank();
    rec.t = s(7.0);
    let out_of_range = Sphere::new(
        Vec3::new(Scalar::from_raw(i64::MAX), Scalar::from_int(0), Scalar::from_int(0)),
        Scalar::from_int(1),
    )
    .unwrap();
    let from_far = Ray::new(
        Vec3::new(Scalar::from_raw(-i64::MAX), Scalar::from_int(0), Scalar::from_int(0)),
        v(1.0, 0.0, 0.0),
    );
    assert!(out_of_range.hit(from_far, Interval::universe(), &mut rec).is_none());
    assert_eq!(rec.t, s(7.0));

    let ball = sphere(0.0, 0.0, -1000.0, 0.5);
    let slow = Ray::new(
        v(0.0, 0.0, 0.0),
        Vec3::new(Scalar::from_raw(0), Scalar::from_raw(0), Scalar::from_raw(-1)),
    );
    assert!(ball.hit(slow, Interval::universe(), &mut rec).is_none());
    assert_eq!(rec.t, s(7.0));
}

#[test]
fn long_and_short_directions_hit_as_unit_directions_do() {
    let whole = Interval::universe();
    let mut rec = blank();
    let far = Sphere::new(
        Vec3::new(Scalar::from_int(0), Scalar::from_int(0), Scalar::from_int(-1_000_000_000)),
        Scalar::from_int(1),
    )
    .unwrap();
    let steep = Ray::new(
        v(0.0, 0.0, 0.0),
        Vec3::new(Scalar::from_int(0), Scalar::from_int(0), Scalar::from_int(-1_000_000)),
    );
    let hit = far.hit(steep, whole, &mut rec).unwrap();
    assert_eq!(hit.t(), Scalar::from_ratio(999_999_999, 1_000_000));
    assert_eq!(hit.p(), steep.at(hit.t()));
    assert!((f(hit.normal().z) - 1.0).abs() < 1e-3);

    let ball = sphere(0.0, 0.0, -1.0, 0.5);
    let short = Ray::new(
        v(0.0, 0.0, 0.0),
        Vec3::new(Scalar::from_raw(0), Scalar::from_raw(0), Scalar::from_raw(-3)),
    );
    let hit = ball.hit(short, whole, &mut rec).unwrap();
    assert_eq!(hit.t().raw(), i64::MAX / 3);
    assert_eq!(hit.p(), short.at(hit.t()));
    assert!((f(hit.p().z) + 0.5).abs() < 1e-6);
    assert!(hit.front_face());

    let small = Ray::new(
        v(0.0, 0.0, 0.0),
        Vec3::new(Scalar::from_raw(0), Scalar::from_raw(1 << 12), Scalar::from_raw(-(1 << 12))),
    );
    let beside = sphere(0.0, 2.0, -2.0, 1.0);
    let hit = beside.hit(small, whole, &mut rec).unwrap();
    let off = hit.p() - v(0.0, 2.0, -2.0);
    assert!((f(off.length()) - 1.0).abs() < 1e-5);

    let unit = Ray::new(v(0.0, 0.0, 0.0), v(0.0, 1.0, -1.0));
    let same = beside.hit(unit, whole, &mut rec).unwrap();
    assert!(f((same.p() - hit.p()).length()) < 1e-5);
}

#[test]
fn large_sphere_within_range_is_hit_on_its_surface() {
    let center = Vec3::new(Scalar::from_int(0), Scalar::from_int(0), Scalar::from_int(-40000));
    let ball = Sphere::new(center, Scalar::from_int(39999)).unwrap();
    let ray = Ray::new(v(0.0, 0.0, 0.0), v(0.0, 0.0, -1.0));
    let mut rec = blank();
    let hit = ball.hit(ray, Interval::new(s(0.0), infinity()), &mut rec).unwrap();
    assert_eq!(hit.t(), Scalar::from_int(1));
    assert_eq!(hit.p(), v(0.0, 0.0, -1.0));
    assert_eq!(hit.normal(), v(0.0, 0.0, 1.0));
}
