//! What a ray can hit: the hit record, the `Hittable` capability, spheres
//! and lists of primitives.

use crate::interval::Interval;
use crate::ray::Ray;
use crate::rounding::{
    lemma_moved_gap, lemma_quadratic_residual, lemma_step_moved, lemma_surface_gap,
};
use crate::scalar::{
    integer_root, lemma_integer_root_exists, lemma_integer_root_is, lemma_magnitude_of_product,
    lemma_times_near, lemma_truncated_quotient_remainder, magnitude, Scalar, MAX_RAW, ONE_RAW,
};
use crate::wide::{
    integer_root_of, product_in_reach, times_wide, wide_over, wide_product, wide_quotient,
    wide_times, REACH,
};
use crate::vec3::{Point3, Vec3};
use core::ops::Neg;
use std::sync::Arc;
use vstd::prelude::*;

verus! {

/// Why a primitive could not be made.
#[derive(Clone, Copy, Debug, PartialEq, Eq, Structural)]
pub enum TraceError {
    /// The primitive is degenerate: a sphere of radius zero.
    InvalidGeometry,
}

/// Where a ray met a surface.
#[derive(Clone, Copy, Debug, PartialEq, Eq, Structural)]
pub struct HitRecord {
    /// The point of intersection.
    pub p: Point3,
    /// The surface normal, turned against the ray.
    pub normal: Vec3,
    /// The distance parameter of the point along the ray.
    pub t: Scalar,
    /// Whether the ray came from outside the surface.
    pub front_face: bool,
}

impl HitRecord {
    /// The record of a hit at `p` and `t` on a surface whose outward normal
    /// there is `outward`: the ray meets the front face when it runs against
    /// the outward normal, and the stored normal is the outward one on the
    /// front face and its negation otherwise.
    pub open spec fn facing(r: Ray, p: Point3, t: Scalar, outward: Vec3) -> HitRecord {
        let front_face = r.direction.dot_product(outward)@ < 0;
        HitRecord {
            p,
            normal: if front_face {
                outward
            } else {
                outward.negated()
            },
            t,
            front_face,
        }
    }

    /// The normal of a record made from a symmetric outward normal never
    /// points along the ray: its dot product with the direction is at most zero.
    pub proof fn lemma_facing_opposes_ray(r: Ray, p: Point3, t: Scalar, outward: Vec3)
        requires
            outward.symmetric(),
        ensures
            r.direction.dot_product(HitRecord::facing(r, p, t, outward).normal)@ <= 0,
    {
        r.direction.lemma_dot_negated(outward);
    }

    /// The point of intersection.
    pub fn p(&self) -> (r: Point3)
        ensures
            r == self.p,
    {
        self.p
    }

    /// The surface normal.
    pub fn normal(&self) -> (r: Vec3)
        ensures
            r == self.normal,
    {
        self.normal
    }

    /// The distance parameter along the ray.
    pub fn t(&self) -> (r: Scalar)
        ensures
            r == self.t,
    {
        self.t
    }

    /// Whether the front face was hit.
    pub fn front_face(&self) -> (r: bool)
        ensures
            r == self.front_face,
    {
        self.front_face
    }

    /// Sets the face flag and the normal from the outward normal, which has a
    /// negation in each component, so that the stored normal opposes the ray.
    pub fn set_face_normal(&mut self, r: &Ray, outward_normal: Vec3)
        requires
            outward_normal.symmetric(),
        ensures
            *final(self) == HitRecord::facing(*r, old(self).p, old(self).t, outward_normal),
            r.direction.dot_product(final(self).normal)@ <= 0,
    {
        proof {
            HitRecord::lemma_facing_opposes_ray(*r, self.p, self.t, outward_normal);
        }
        let truth = r.direction().dot(&outward_normal);
        self.front_face = truth.raw() < 0;
        self.normal = if self.front_face {
            outward_normal
        } else {
            outward_normal.neg()
        };
    }
}

impl Default for HitRecord {
    fn default() -> (rec: HitRecord)
        ensures
            rec == (HitRecord {
                p: Vec3::zero(),
                normal: Vec3::zero(),
                t: Scalar { raw: 0 },
                front_face: false,
            }),
    {
        HitRecord {
            p: Point3::default(),
            normal: Vec3::default(),
            t: Scalar::from_raw(0),
            front_face: false,
        }
    }
}

/// `found` kept only if its distance lies strictly below `limit`.
pub open spec fn narrowed(found: Option<HitRecord>, limit: Scalar) -> Option<HitRecord> {
    match found {
        Some(rec) => if rec.t@ < limit@ {
            found
        } else {
            None
        },
        None => None,
    }
}

/// Something a ray can hit.
pub trait Hittable {
    /// The nearest intersection of the ray with the object whose distance
    /// lies strictly inside `ray_t`, if there is one.
    spec fn hit_spec(&self, r: Ray, ray_t: Interval) -> Option<HitRecord>;

    /// An accepted hit lies strictly inside the search interval.
    proof fn lemma_hit_inside(&self, r: Ray, ray_t: Interval)
        ensures
            self.hit_spec(r, ray_t) matches Some(rec) ==> ray_t.encloses(rec.t),
    ;

    /// Lowering the upper bound of the search interval keeps the hit if it
    /// is still inside and loses it otherwise: it never brings another one.
    proof fn lemma_hit_narrowed(&self, r: Ray, ray_t: Interval, limit: Scalar)
        requires
            limit@ <= ray_t.max@,
        ensures
            self.hit_spec(r, ray_t.up_to(limit)) == narrowed(self.hit_spec(r, ray_t), limit),
    ;

    /// The normal of a hit never points along the ray: its dot product with
    /// the direction of the ray is at most zero.
    proof fn lemma_hit_opposes_ray(&self, r: Ray, ray_t: Interval)
        ensures
            self.hit_spec(r, ray_t) matches Some(rec) ==> r.direction.dot_product(rec.normal)@
                <= 0,
    ;

    /// Tests the ray against the object. The result is a function of the
    /// object, the ray and the interval alone. A hit is also stored in
    /// `rec`; a miss leaves `rec` as it was.
    fn hit(&self, r: Ray, ray_t: Interval, rec: &mut HitRecord) -> (found: Option<HitRecord>)
        ensures
            found == self.hit_spec(r, ray_t),
            found matches Some(h) ==> ray_t.encloses(h.t) && r.direction.dot_product(h.normal)@
                <= 0,
            *final(rec) == (match found {
                Some(h) => h,
                None => *old(rec),
            }),
    ;
}

/// Testing one object twice with the same ray and the same interval gives
/// the same result, whatever the records handed in hold.
pub proof fn lemma_hit_repeats<T: Hittable>(
    object: &T,
    r: Ray,
    ray_t: Interval,
    first_rec: &mut HitRecord,
    second_rec: &mut HitRecord,
    first: Option<HitRecord>,
    second: Option<HitRecord>,
)
    requires
        call_ensures(T::hit, (object, r, ray_t, first_rec), first),
        call_ensures(T::hit, (object, r, ray_t, second_rec), second),
    ensures
        first == second,
{
}

/// The bound below which a discriminant can be widened for its root.
pub const DISCRIMINANT_LIMIT: i128 = 0x8000_0000_0000_0000_0000_0000;

/// A sphere. Its radius is never zero; a negative radius turns the outward
/// normal inward.
pub struct Sphere {
    center: Point3,
    radius: Scalar,
}

impl Sphere {
    /// What every sphere meets: its radius is not zero.
    #[verifier::type_invariant]
    spec fn well_formed(self) -> bool {
        self.radius@ != 0
    }

    /// The center of the sphere.
    pub closed spec fn center(self) -> Point3 {
        self.center
    }

    /// The radius of the sphere.
    pub closed spec fn radius(self) -> Scalar {
        self.radius
    }

    /// The offset of the ray's origin from the center.
    pub open spec fn offset(self, r: Ray) -> Vec3 {
        r.origin.minus(self.center())
    }

    /// The coefficients `a`, `h` and `c` of the quadratic
    /// `a t^2 + 2 h t + c = 0`, which says that the point at `t` along the
    /// leveled direction `D` lies on the sphere: `a = |D|^2`,
    /// `h = D . (O - C)` and `c = |O - C|^2 - r^2`. They are wide values:
    /// rounded, never clamped. The direction is leveled so that neither a
    /// short nor a long one is lost to rounding.
    pub open spec fn coefficients(self, r: Ray) -> (int, int, int) {
        let oc = self.offset(r);
        let d = r.direction.leveled();
        (d.wide_dot(d), d.wide_dot(oc), oc.wide_dot(oc) - wide_product(
            self.radius()@,
            self.radius()@,
        ))
    }

    /// The discriminant `h^2 - a c` of the quadratic, a wide value.
    pub open spec fn discriminant(self, r: Ray) -> int {
        let (a, h, c) = self.coefficients(r);
        wide_product(h, h) - wide_product(a, c)
    }

    /// The square root of the discriminant, rounded down.
    pub open spec fn discriminant_root(self, r: Ray) -> int {
        integer_root(self.discriminant(r) * ONE_RAW)
    }

    /// The smaller root `(-h - sqrt(h^2 - a c)) / a` of the quadratic: the
    /// distance along the leveled direction, a wide value.
    pub open spec fn leveled_distance(self, r: Ray) -> int {
        let (a, h, c) = self.coefficients(r);
        wide_quotient(-h - self.discriminant_root(r), a)
    }

    /// The distance along the direction of the ray itself: the leveled
    /// distance divided by the greatest magnitude in the direction.
    pub open spec fn distance(self, r: Ray) -> int {
        wide_quotient(self.leveled_distance(r), r.direction.largest()@)
    }

    /// Whether the line of the ray crosses the sphere within what the
    /// arithmetic can carry: the direction is not zero, the discriminant is
    /// positive, it and the two products it is made of are within the reach
    /// of the wide values, and the offset of the origin, the distance, the
    /// step along the ray and the point reached are scalars that were not
    /// clamped.
    pub open spec fn steady_for(self, r: Ray) -> bool {
        let (a, h, c) = self.coefficients(r);
        let t = Scalar { raw: self.distance(r) as i64 };
        &&& self.offset(r).inside()
        &&& r.direction.largest()@ != 0
        &&& product_in_reach(h, h)
        &&& product_in_reach(a, c)
        &&& 0 < self.discriminant(r) < DISCRIMINANT_LIMIT
        &&& -MAX_RAW < self.distance(r) < MAX_RAW
        &&& r.direction.scaled(t).inside()
        &&& r.point_at(t).inside()
    }

    /// The distance parameter at which the line of the ray first crosses the
    /// sphere: the smaller root of the quadratic, where there is one within
    /// what the arithmetic can carry.
    pub open spec fn crossing(self, r: Ray) -> Option<Scalar> {
        if self.steady_for(r) {
            Some(Scalar { raw: self.distance(r) as i64 })
        } else {
            None
        }
    }

    /// The squares of three offsets from the center less the squared
    /// radius, without rounding, in units of the square of `1 / ONE_RAW`.
    pub open spec fn gap_of(self, x: int, y: int, z: int) -> int {
        x * x + y * y + z * z - self.radius()@ * self.radius()@
    }

    /// The squared distance of `p` from the center less the squared radius,
    /// without rounding, in units of the square of `1 / ONE_RAW`. It is zero
    /// exactly on the surface.
    pub open spec fn surface_gap(self, p: Point3) -> int {
        self.gap_of(
            p.x@ - self.center().x@,
            p.y@ - self.center().y@,
            p.z@ - self.center().z@,
        )
    }

    /// The offsets from the center of the point at the leveled distance
    /// along the leveled direction.
    pub open spec fn leveled_reach(self, r: Ray) -> (int, int, int) {
        let oc = self.offset(r);
        let d = r.direction.leveled();
        let t = self.leveled_distance(r);
        (
            oc.x@ + wide_product(d.x@, t),
            oc.y@ + wide_product(d.y@, t),
            oc.z@ + wide_product(d.z@, t),
        )
    }

    /// How far, at most, a coordinate of the point along the ray lies from
    /// that of the point along the leveled ray, in units of `1 / ONE_RAW`.
    pub open spec fn moved_by(self, r: Ray) -> int {
        (magnitude(self.leveled_distance(r)) + r.direction.largest()@ + 1) / (ONE_RAW as int) + 2
    }

    /// The bound on `a * ONE_RAW * |surface_gap|` at the point where the
    /// ray crosses, with `a` in units of `1 / ONE_RAW`. Divided by
    /// `a * ONE_RAW^3` it bounds the gap in units of one by `2^-32` times
    /// `(2 + 2 s) / a + 2 s + 2 R (3 + |t| + m) + 3 + 6 |t| + 3 t^2`
    /// and terms that are smaller still by a factor of `2^-32`. There `s`
    /// is the square root of the discriminant, `t` the distance along the
    /// leveled direction, `m` the greatest magnitude of a component of the
    /// direction, and `R` the sum of the magnitudes of the three offsets
    /// from the center of the point along the leveled direction, each in
    /// units of one.
    pub open spec fn surface_tolerance(self, r: Ray) -> int {
        let a = self.coefficients(r).0;
        let root = self.discriminant_root(r);
        let t = self.leveled_distance(r);
        let q = self.leveled_reach(r);
        let reach = magnitude(q.0) + magnitude(q.1) + magnitude(q.2);
        let moved = self.moved_by(r);
        let one = ONE_RAW as int;
        one * one * (2 * one + 2 * root) + 2 * root * a * one + a * a + a * (one * (2 * reach + 3)
            + 3 * one * one + 6 * one * magnitude(t) + 3 * t * t) + a * one * (2 * moved * reach
            + 3 * moved * moved)
    }

    /// The point of a hit lies on the sphere up to rounding: its squared
    /// distance from the center differs from the squared radius by no more
    /// than the tolerance.
    pub proof fn lemma_hit_point_near_surface(self, r: Ray, ray_t: Interval)
        requires
            self.hit_spec(r, ray_t) is Some,
        ensures
            self.hit_spec(r, ray_t)->0.p == r.point_at(self.hit_spec(r, ray_t)->0.t),
            self.coefficients(r).0 >= ONE_RAW,
            self.coefficients(r).0 * ONE_RAW * magnitude(
                self.surface_gap(self.hit_spec(r, ray_t)->0.p),
            ) <= self.surface_tolerance(r),
    {
        let one = ONE_RAW as int;
        let oc = self.offset(r);
        let d = r.direction;
        let l = d.leveled();
        let m = d.largest()@;
        let (a, h, c) = self.coefficients(r);
        let disc = self.discriminant(r);
        let root = self.discriminant_root(r);
        let tl = self.leveled_distance(r);
        let t = Scalar { raw: self.distance(r) as i64 };
        let p = r.point_at(t);
        assert(self.crossing(r) == Some(t));
        assert(self.hit_spec(r, ray_t)->0.p == p);
        d.lemma_leveled_wide();
        l.lemma_wide_dot_near(l);
        l.lemma_wide_dot_near(oc);
        oc.lemma_wide_dot_near(oc);
        let rr = self.radius()@ * self.radius()@;
        assert(rr >= 0 && h * h >= 0) by (nonlinear_arith)
            requires
                rr == self.radius()@ * self.radius()@,
        ;
        lemma_truncated_quotient_remainder(rr, one);
        lemma_truncated_quotient_remainder(h * h, one);
        lemma_truncated_quotient_remainder(a * c, one);
        lemma_integer_root_exists(disc * one);
        lemma_truncated_quotient_remainder((-h - root) * one, a);
        lemma_truncated_quotient_remainder(l.x@ * tl, one);
        lemma_truncated_quotient_remainder(l.y@ * tl, one);
        lemma_truncated_quotient_remainder(l.z@ * tl, one);
        assert(oc.x@ * l.x@ == l.x@ * oc.x@ && oc.y@ * l.y@ == l.y@ * oc.y@ && oc.z@ * l.z@
            == l.z@ * oc.z@) by (nonlinear_arith);
        let hh = wide_product(h, h);
        let ac = wide_product(a, c);
        let uu = oc.wide_dot(oc);
        let folded = wide_product(self.radius()@, self.radius()@);
        assert((uu - folded) * one == uu * one - folded * one) by (nonlinear_arith);
        let xl = (wide_product(l.x@, tl), wide_product(l.y@, tl), wide_product(l.z@, tl));
        lemma_quadratic_residual(a, h, c, hh, ac, disc, root, tl, one);
        lemma_surface_gap(
            (oc.x@, oc.y@, oc.z@),
            (l.x@, l.y@, l.z@),
            xl,
            tl,
            a,
            h,
            c,
            rr,
            one,
        );
        let q = self.leveled_reach(r);
        let leveled_gap = self.gap_of(q.0, q.1, q.2);
        let residual = a * tl * tl + 2 * h * tl * one + c * one * one;
        let reach = magnitude(q.0) + magnitude(q.1) + magnitude(q.2);
        let slack = one * (2 * reach + 3) + 3 * one * one + 6 * one * magnitude(tl) + 3 * tl
            * tl;
        let bound = one * one * (2 * one + 2 * root) + 2 * root * a * one + a * a;
        assert(-slack <= one * leveled_gap - residual <= slack);
        assert(-bound <= a * residual <= bound);
        lemma_truncated_quotient_remainder(tl * one, m);
        lemma_times_near(d.x, t);
        lemma_times_near(d.y, t);
        lemma_times_near(d.z, t);
        let x = (d.x.times(t)@, d.y.times(t)@, d.z.times(t)@);
        lemma_step_moved(d.x@, l.x@, t@, tl, m, x.0, xl.0, one);
        lemma_step_moved(d.y@, l.y@, t@, tl, m, x.1, xl.1, one);
        lemma_step_moved(d.z@, l.z@, t@, tl, m, x.2, xl.2, one);
        let moved = self.moved_by(r);
        let width = magnitude(tl) + m + 1;
        let apart = (x.0 - xl.0, x.1 - xl.1, x.2 - xl.2);
        assert(-moved <= apart.0 <= moved && -moved <= apart.1 <= moved && -moved <= apart.2
            <= moved) by (nonlinear_arith)
            requires
                moved == width / one + 2,
                width >= 0,
                one > 0,
                -(width + 2 * one) < apart.0 * one < width + 2 * one,
                -(width + 2 * one) < apart.1 * one < width + 2 * one,
                -(width + 2 * one) < apart.2 * one < width + 2 * one,
        ;
        lemma_moved_gap(q, apart, moved);
        let gap = self.surface_gap(p);
        let extra = 2 * moved * reach + 3 * moved * moved;
        assert(-extra <= gap - leveled_gap <= extra);
        assert(a * one * magnitude(gap) <= bound + a * slack + a * one * extra)
            by (nonlinear_arith)
            requires
                a > 0,
                one > 0,
                -slack <= one * leveled_gap - residual <= slack,
                -bound <= a * residual <= bound,
                -extra <= gap - leveled_gap <= extra,
                magnitude(gap) == gap || magnitude(gap) == -gap,
        ;
    }

    /// The outward normal at the surface point `p`.
    pub open spec fn outward_normal(self, p: Point3) -> Vec3 {
        p.minus(self.center()).divided(self.radius())
    }

    /// The record of the ray meeting the sphere at distance parameter `t`.
    pub open spec fn record_at(self, r: Ray, t: Scalar) -> HitRecord {
        let p = r.point_at(t);
        HitRecord::facing(r, p, t, self.outward_normal(p))
    }

    /// A sphere around `center`. A radius of zero is refused.
    pub fn new(center: Point3, radius: Scalar) -> (made: Result<Sphere, TraceError>)
        ensures
            radius@ == 0 <==> made is Err,
            made matches Err(e) ==> e == TraceError::InvalidGeometry,
            made matches Ok(sphere) ==> sphere.center() == center && sphere.radius() == radius,
    {
        if radius.raw() == 0 {
            Err(TraceError::InvalidGeometry)
        } else {
            Ok(Sphere { center, radius })
        }
    }
}

impl Hittable for Sphere {
    open spec fn hit_spec(&self, r: Ray, ray_t: Interval) -> Option<HitRecord> {
        match self.crossing(r) {
            Some(t) => if ray_t.encloses(t) {
                Some(self.record_at(r, t))
            } else {
                None
            },
            None => None,
        }
    }

    proof fn lemma_hit_inside(&self, r: Ray, ray_t: Interval) {
    }

    proof fn lemma_hit_narrowed(&self, r: Ray, ray_t: Interval, limit: Scalar) {
    }

    proof fn lemma_hit_opposes_ray(&self, r: Ray, ray_t: Interval) {
        if let Some(t) = self.crossing(r) {
            let p = r.point_at(t);
            HitRecord::lemma_facing_opposes_ray(r, p, t, self.outward_normal(p));
        }
    }

    /// Only the nearer crossing is ever accepted: when it lies outside the
    /// interval there is no hit, even if the farther one lies inside. The
    /// quadratic is solved along the leveled direction and over wide
    /// values, so that a short or a long direction and a sphere far off
    /// are treated as a direction of unit length and a near sphere are. The
    /// point of a hit lies on the sphere up to rounding.
    fn hit(&self, r: Ray, ray_t: Interval, rec: &mut HitRecord) -> (found: Option<HitRecord>)
        ensures
            found matches Some(h) ==> h.p == r.point_at(h.t) && self.coefficients(r).0 * ONE_RAW
                * magnitude(self.surface_gap(h.p)) <= self.surface_tolerance(r),
    {
        let d = r.direction();
        let oc = r.origin() - self.center;
        let greatest = d.largest_component();
        if !oc.is_inside() || greatest.raw() == 0 {
            return None;
        }
        let leveled = d / greatest;
        proof {
            d.lemma_leveled_wide();
        }
        let a = leveled.dot_wide(&leveled);
        let h = leveled.dot_wide(&oc);
        let c = oc.dot_wide(&oc) - times_wide(self.radius, self.radius);
        let h_squared = wide_times(h, h);
        let a_c = wide_times(a, c);
        if h_squared.is_none() || a_c.is_none() {
            return None;
        }
        let discriminant = h_squared.unwrap() - a_c.unwrap();
        if discriminant <= 0 || discriminant >= DISCRIMINANT_LIMIT {
            return None;
        }
        let root = integer_root_of((discriminant as u128) * 0x1_0000_0000);
        proof {
            lemma_integer_root_is(discriminant * ONE_RAW, root as int);
            assert(magnitude(h as int) < 0x1_0000_0000_0000_0000) by (nonlinear_arith)
                requires
                    magnitude(h as int) * magnitude(h as int) <= REACH,
                    magnitude(h as int) >= 0,
                    REACH == 0x7fff_ffff_ffff_ffff_ffff_ffff_ffff_ffff,
            ;
        }
        let numerator = -h - (root as i128);
        let along_leveled = wide_over(numerator, a).unwrap();
        proof {
            lemma_magnitude_of_product(numerator as int, ONE_RAW as int);
            let n = magnitude(numerator as int);
            assert((n * ONE_RAW) / (a as int) <= n) by (nonlinear_arith)
                requires
                    a >= ONE_RAW,
                    n >= 0,
            ;
        }
        let distance = wide_over(along_leveled, greatest.raw() as i128).unwrap();
        if distance <= -(MAX_RAW as i128) || distance >= MAX_RAW as i128 {
            return None;
        }
        let temp = Scalar::from_raw(distance as i64);
        let step = d * temp;
        let p = r.origin() + step;
        if !step.is_inside() || !p.is_inside() {
            return None;
        }
        assert(self.steady_for(r));
        assert(self.crossing(r) == Some(temp));
        if ray_t.surrounds(temp) {
            let normal = (p - self.center) / self.radius;
            let mut hit_record = HitRecord { p, normal, t: temp, front_face: false };
            hit_record.set_face_normal(&r, normal);
            proof {
                self.lemma_hit_point_near_surface(r, ray_t);
            }
            *rec = hit_record;
            return Some(hit_record);
        }
        None
    }
}

/// The nearest of the hits that the objects have, each over the whole of
/// `ray_t`; of several at the same distance, the first in the sequence.
pub open spec fn closest_hit<T: Hittable>(objects: Seq<Arc<T>>, r: Ray, ray_t: Interval) -> Option<
    HitRecord,
>
    decreases objects.len(),
{
    if objects.len() == 0 {
        None
    } else {
        let before = closest_hit(objects.drop_last(), r, ray_t);
        let limit = match before {
            Some(b) => b.t,
            None => ray_t.max,
        };
        match narrowed(objects.last().hit_spec(r, ray_t), limit) {
            Some(h) => Some(h),
            None => before,
        }
    }
}

/// The nearest hit of a list is the hit of one of its objects, and no
/// object has a hit at a smaller distance; objects placed before it have
/// their hits strictly farther. A list has no hit exactly when none of its
/// objects has one.
pub proof fn lemma_closest_hit_is_minimum<T: Hittable>(
    objects: Seq<Arc<T>>,
    r: Ray,
    ray_t: Interval,
)
    ensures
        closest_hit(objects, r, ray_t) is None <==> forall|i: int|
            0 <= i < objects.len() ==> (#[trigger] objects[i]).hit_spec(r, ray_t) is None,
        closest_hit(objects, r, ray_t) matches Some(h) ==> {
            &&& ray_t.encloses(h.t)
            &&& exists|i: int|
                {
                    &&& 0 <= i < objects.len()
                    &&& (#[trigger] objects[i]).hit_spec(r, ray_t) == Some(h)
                    &&& forall|j: int|
                        0 <= j < i ==> ((#[trigger] objects[j]).hit_spec(r, ray_t) matches Some(
                            other,
                        ) ==> h.t@ < other.t@)
                }
            &&& forall|j: int|
                0 <= j < objects.len() ==> ((#[trigger] objects[j]).hit_spec(r, ray_t) matches Some(
                    other,
                ) ==> h.t@ <= other.t@)
        },
    decreases objects.len(),
{
    if objects.len() > 0 {
        let init = objects.drop_last();
        let last = objects.last();
        lemma_closest_hit_is_minimum(init, r, ray_t);
        last.lemma_hit_inside(r, ray_t);
        assert(forall|i: int| 0 <= i < init.len() ==> init[i] == objects[i]);
        assert(objects[objects.len() - 1] == last);
        let before = closest_hit(init, r, ray_t);
        let limit = match before {
            Some(b) => b.t,
            None => ray_t.max,
        };
        if let Some(h) = closest_hit(objects, r, ray_t) {
            if narrowed(last.hit_spec(r, ray_t), limit) is Some {
                let i = objects.len() - 1;
                assert(objects[i].hit_spec(r, ray_t) == Some(h));
            } else {
                let i = choose|i: int|
                    {
                        &&& 0 <= i < init.len()
                        &&& (#[trigger] init[i]).hit_spec(r, ray_t) == Some(h)
                        &&& forall|j: int|
                            0 <= j < i ==> ((#[trigger] init[j]).hit_spec(r, ray_t) matches Some(
                                other,
                            ) ==> h.t@ < other.t@)
                    };
                assert(objects[i].hit_spec(r, ray_t) == Some(h));
            }
        }
    }
}

/// A list of primitives, tested in the order in which they were added.
pub struct HittableList<T: Hittable> {
    objects: Vec<Arc<T>>,
}

impl<T: Hittable> View for HittableList<T> {
    type V = Seq<Arc<T>>;

    /// The objects of the list, in the order in which they were added.
    closed spec fn view(&self) -> Seq<Arc<T>> {
        self.objects@
    }
}

impl<T: Hittable> HittableList<T> {
    /// The list without objects.
    pub fn new() -> (list: HittableList<T>)
        ensures
            list@ == Seq::<Arc<T>>::empty(),
    {
        HittableList { objects: Vec::new() }
    }

    /// The objects of the list.
    pub fn objects(&self) -> (objects: &Vec<Arc<T>>)
        ensures
            objects@ == self@,
    {
        &self.objects
    }

    /// Adds `object` behind the objects of the list.
    pub fn add(&mut self, object: Arc<T>)
        ensures
            final(self)@ == old(self)@.push(object),
    {
        self.objects.push(object)
    }

    /// Removes every object.
    pub fn clear(&mut self)
        ensures
            final(self)@ == Seq::<Arc<T>>::empty(),
    {
        self.objects.clear()
    }
}

impl<T: Hittable> Default for HittableList<T> {
    fn default() -> (list: HittableList<T>)
        ensures
            list@ == Seq::<Arc<T>>::empty(),
    {
        HittableList::new()
    }
}

impl<T: Hittable> Hittable for HittableList<T> {
    open spec fn hit_spec(&self, r: Ray, ray_t: Interval) -> Option<HitRecord> {
        closest_hit(self@, r, ray_t)
    }

    proof fn lemma_hit_inside(&self, r: Ray, ray_t: Interval) {
        lemma_closest_hit_is_minimum(self@, r, ray_t);
    }

    proof fn lemma_hit_narrowed(&self, r: Ray, ray_t: Interval, limit: Scalar) {
        lemma_closest_hit_narrowed(self@, r, ray_t, limit);
    }

    proof fn lemma_hit_opposes_ray(&self, r: Ray, ray_t: Interval) {
        lemma_closest_hit_is_minimum(self@, r, ray_t);
        if let Some(h) = closest_hit(self@, r, ray_t) {
            let i = choose|i: int|
                0 <= i < self@.len() && (#[trigger] self@[i]).hit_spec(r, ray_t) == Some(h);
            self@[i].lemma_hit_opposes_ray(r, ray_t);
        }
    }

    /// Asks each object in turn for a hit nearer than the nearest found so
    /// far, and returns the last one found.
    fn hit(&self, r: Ray, ray_t: Interval, rec: &mut HitRecord) -> (found: Option<HitRecord>) {
        let mut temp_rec: HitRecord = HitRecord::default();
        let mut best: Option<HitRecord> = None;
        let mut closest_so_far = ray_t.max();
        let mut index: usize = 0;
        while index < self.objects.len()
            invariant
                index <= self.objects.len(),
                self.objects@ == self@,
                best == closest_hit(self@.take(index as int), r, ray_t),
                closest_so_far == (match best {
                    Some(b) => b.t,
                    None => ray_t.max,
                }),
            decreases self.objects.len() - index,
        {
            let interval: Interval = Interval::new(ray_t.min(), closest_so_far);
            proof {
                let seen = self@.take(index as int + 1);
                assert(seen.drop_last() == self@.take(index as int));
                assert(seen.last() == self@[index as int]);
                lemma_closest_hit_is_minimum(self@.take(index as int), r, ray_t);
                self@[index as int].lemma_hit_narrowed(r, ray_t, closest_so_far);
            }
            if let Some(hit) = self.objects[index].hit(r, interval, &mut temp_rec) {
                closest_so_far = hit.t();
                best = Some(hit);
            }
            index = index + 1;
        }
        assert(self@.take(index as int) == self@);
        proof {
            self.lemma_hit_inside(r, ray_t);
            self.lemma_hit_opposes_ray(r, ray_t);
        }
        if let Some(hit) = best {
            *rec = hit;
        }
        best
    }
}

/// Lowering the upper bound keeps the nearest hit of a sequence of objects
/// if it is still inside, and loses it otherwise.
pub proof fn lemma_closest_hit_narrowed<T: Hittable>(
    objects: Seq<Arc<T>>,
    r: Ray,
    ray_t: Interval,
    limit: Scalar,
)
    requires
        limit@ <= ray_t.max@,
    ensures
        closest_hit(objects, r, ray_t.up_to(limit)) == narrowed(
            closest_hit(objects, r, ray_t),
            limit,
        ),
    decreases objects.len(),
{
    if objects.len() > 0 {
        let init = objects.drop_last();
        let last = objects.last();
        lemma_closest_hit_narrowed(init, r, ray_t, limit);
        last.lemma_hit_narrowed(r, ray_t, limit);
        last.lemma_hit_inside(r, ray_t);
        lemma_closest_hit_is_minimum(init, r, ray_t);
    }
}

} // verus!
