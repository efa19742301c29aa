//! Three-component vectors and points over [`Scalar`].

use crate::constants::{random_generator, random_generator_range, RandomGenerator};
use crate::rounding::lemma_rescaled_length;
use crate::scalar::{
    clamp, from_wide, lemma_over_near, lemma_quotient_at_most_one, lemma_root_near,
    lemma_square_of_fraction, lemma_truncated_quotient_remainder, magnitude, Scalar, MAX_RAW,
    ONE_RAW,
};
use crate::wide::{lemma_wide_product_negated, times_wide, wide_product};
use crate::text::{one_decimal, push_one_decimal};
use core::ops::Neg;
use vstd::prelude::*;
use vstd::string::StringExecFns;
use vstd::std_specs::ops::{AddSpecImpl, DivSpecImpl, MulSpecImpl, NegSpecImpl, SubSpecImpl};

verus! {

/// A vector of three scalars.
#[derive(Clone, Copy, Debug, PartialEq, Eq, Structural)]
pub struct Vec3 {
    pub x: Scalar,
    pub y: Scalar,
    pub z: Scalar,
}

/// How many points `random_unit_vector` draws before it gives up.
pub const UNIT_VECTOR_ATTEMPTS: u32 = 64;

/// A position in space.
pub type Point3 = Vec3;

impl Vec3 {
    /// The vector whose three components are zero.
    pub open spec fn zero() -> Vec3 {
        Vec3 { x: Scalar { raw: 0 }, y: Scalar { raw: 0 }, z: Scalar { raw: 0 } }
    }

    /// The component-wise sum.
    pub open spec fn plus(self, other: Vec3) -> Vec3 {
        Vec3 { x: self.x.plus(other.x), y: self.y.plus(other.y), z: self.z.plus(other.z) }
    }

    /// The component-wise difference.
    pub open spec fn minus(self, other: Vec3) -> Vec3 {
        Vec3 { x: self.x.minus(other.x), y: self.y.minus(other.y), z: self.z.minus(other.z) }
    }

    /// The vector with each component negated.
    pub open spec fn negated(self) -> Vec3 {
        Vec3 { x: self.x.negated(), y: self.y.negated(), z: self.z.negated() }
    }

    /// The component-wise product.
    pub open spec fn hadamard(self, other: Vec3) -> Vec3 {
        Vec3 { x: self.x.times(other.x), y: self.y.times(other.y), z: self.z.times(other.z) }
    }

    /// The vector with each component multiplied by `t`.
    pub open spec fn scaled(self, t: Scalar) -> Vec3 {
        Vec3 { x: self.x.times(t), y: self.y.times(t), z: self.z.times(t) }
    }

    /// The vector with each component divided by `t`.
    pub open spec fn divided(self, t: Scalar) -> Vec3 {
        Vec3 { x: self.x.over(t), y: self.y.over(t), z: self.z.over(t) }
    }

    /// The dot product: each product is rounded toward zero, and only the
    /// sum of the three is clamped.
    pub open spec fn dot_product(self, other: Vec3) -> Scalar {
        Scalar::of(self.wide_dot(other))
    }

    /// The cross product: each product is rounded toward zero, and only the
    /// difference of two is clamped.
    pub open spec fn cross_product(self, other: Vec3) -> Vec3 {
        Vec3 {
            x: Scalar::of(wide_product(self.y@, other.z@) - wide_product(self.z@, other.y@)),
            y: Scalar::of(wide_product(self.z@, other.x@) - wide_product(self.x@, other.z@)),
            z: Scalar::of(wide_product(self.x@, other.y@) - wide_product(self.y@, other.x@)),
        }
    }

    /// The dot product of the vector with itself.
    pub open spec fn squared_norm(self) -> Scalar {
        self.dot_product(self)
    }

    /// The square root of the squared norm.
    pub open spec fn norm(self) -> Scalar {
        self.squared_norm().root()
    }

    /// The length: the greatest magnitude of a component times the length of
    /// the leveled vector, so that neither a short nor a long vector loses
    /// its length to rounding. The zero vector has length zero.
    pub open spec fn extent(self) -> Scalar {
        if self.largest()@ == 0 {
            Scalar { raw: 0 }
        } else {
            self.largest().times(self.leveled().norm())
        }
    }

    /// The greatest magnitude of a component, clamped into range.
    pub open spec fn largest(self) -> Scalar {
        let x = self.x.absolute();
        let y = self.y.absolute();
        let z = self.z.absolute();
        if x@ >= y@ && x@ >= z@ {
            x
        } else if y@ >= z@ {
            y
        } else {
            z
        }
    }

    /// The vector divided by its greatest magnitude, so that no component
    /// is above one in magnitude and one of them is one.
    pub open spec fn leveled(self) -> Vec3 {
        self.divided(self.largest())
    }

    /// The vector brought to about unit length: it is leveled first, so
    /// that neither a short nor a long vector loses its direction to
    /// rounding, and the leveled vector is divided by its length. The zero
    /// vector stays as it is.
    pub open spec fn normalized(self) -> Vec3 {
        if self.largest()@ == 0 {
            self
        } else {
            self.leveled().divided(self.leveled().norm())
        }
    }

    /// Whether the squared length, without rounding, differs from one by at
    /// most `12 / 2^32`.
    pub open spec fn near_unit(self) -> bool {
        -12 * ONE_RAW <= self.exact_dot(self) - ONE_RAW * ONE_RAW <= 12 * ONE_RAW
    }

    /// Whether no component is above one in magnitude.
    pub open spec fn within_unit(self) -> bool {
        magnitude(self.x@) <= ONE_RAW && magnitude(self.y@) <= ONE_RAW && magnitude(self.z@)
            <= ONE_RAW
    }

    /// The leveled form of a vector that is not zero has no component above
    /// one in magnitude and one of magnitude one; its squared length lies
    /// between one and three, its length between one and two.
    pub proof fn lemma_leveled(self)
        requires
            self.largest()@ != 0,
        ensures
            self.leveled().within_unit(),
            magnitude(self.leveled().x@) == ONE_RAW || magnitude(self.leveled().y@) == ONE_RAW
                || magnitude(self.leveled().z@) == ONE_RAW,
            ONE_RAW <= self.leveled().squared_norm()@ <= 3 * ONE_RAW,
            ONE_RAW <= self.leveled().norm()@ < 2 * ONE_RAW,
    {
        let m = self.largest()@;
        lemma_quotient_at_most_one(self.x@, m);
        lemma_quotient_at_most_one(self.y@, m);
        lemma_quotient_at_most_one(self.z@, m);
        let l = self.leveled();
        lemma_square_of_fraction(l.x);
        lemma_square_of_fraction(l.y);
        lemma_square_of_fraction(l.z);
        let sq = l.squared_norm();
        lemma_root_near(sq);
        let n = sq.root()@;
        assert(n >= ONE_RAW) by (nonlinear_arith)
            requires
                0 <= n,
                (n + 1) * (n + 1) > sq@ * ONE_RAW,
                sq@ >= ONE_RAW,
        ;
        assert(n < 2 * ONE_RAW) by (nonlinear_arith)
            requires
                0 <= n,
                n * n <= sq@ * ONE_RAW,
                sq@ <= 3 * ONE_RAW,
        ;
    }

    /// A normalized vector that is not zero has about unit length: its
    /// squared length, without rounding, differs from one by at most
    /// `12 / 2^32`.
    pub proof fn lemma_normalized_near_unit(self)
        requires
            self.largest()@ != 0,
        ensures
            self.normalized().near_unit(),
    {
        self.lemma_leveled();
        let l = self.leveled();
        let sq = l.squared_norm();
        let n = l.norm();
        let u = self.normalized();
        lemma_square_of_fraction(l.x);
        lemma_square_of_fraction(l.y);
        lemma_square_of_fraction(l.z);
        l.lemma_dot_near(l);
        lemma_root_near(sq);
        lemma_quotient_at_most_one(l.x@, n@);
        lemma_quotient_at_most_one(l.y@, n@);
        lemma_quotient_at_most_one(l.z@, n@);
        lemma_over_near(l.x, n);
        lemma_over_near(l.y, n);
        lemma_over_near(l.z, n);
        lemma_rescaled_length(
            (l.x@, l.y@, l.z@),
            (u.x@, u.y@, u.z@),
            sq@,
            n@,
            ONE_RAW as int,
        );
    }

    /// The leveled form of a vector that is not zero, times the greatest
    /// magnitude, differs from the vector by less than that magnitude in
    /// each component; its wide squared length lies between one and three.
    pub proof fn lemma_leveled_wide(self)
        requires
            self.largest()@ != 0,
        ensures
            ONE_RAW <= self.leveled().wide_dot(self.leveled()) <= 3 * ONE_RAW,
            -self.largest()@ < self.x@ * ONE_RAW - self.leveled().x@ * self.largest()@
                < self.largest()@,
            -self.largest()@ < self.y@ * ONE_RAW - self.leveled().y@ * self.largest()@
                < self.largest()@,
            -self.largest()@ < self.z@ * ONE_RAW - self.leveled().z@ * self.largest()@
                < self.largest()@,
            magnitude(self.x@) <= self.largest()@ + 1,
            magnitude(self.y@) <= self.largest()@ + 1,
            magnitude(self.z@) <= self.largest()@ + 1,
    {
        self.lemma_leveled();
        let m = self.largest();
        let l = self.leveled();
        lemma_square_of_fraction(l.x);
        lemma_square_of_fraction(l.y);
        lemma_square_of_fraction(l.z);
        lemma_quotient_at_most_one(self.x@, m@);
        lemma_quotient_at_most_one(self.y@, m@);
        lemma_quotient_at_most_one(self.z@, m@);
        lemma_over_near(self.x, m);
        lemma_over_near(self.y, m);
        lemma_over_near(self.z, m);
    }

    /// No component of a normalized vector is above one in magnitude.
    pub proof fn lemma_normalized_within_unit(self)
        ensures
            self.normalized().within_unit(),
    {
        if self.largest()@ != 0 {
            self.lemma_leveled();
            let l = self.leveled();
            let n = l.norm()@;
            lemma_quotient_at_most_one(l.x@, n);
            lemma_quotient_at_most_one(l.y@, n);
            lemma_quotient_at_most_one(l.z@, n);
        }
    }

    /// The component at `i`: 0 for `x`, 1 for `y`, otherwise `z`.
    pub open spec fn component(self, i: int) -> Scalar {
        if i == 0 {
            self.x
        } else if i == 1 {
            self.y
        } else {
            self.z
        }
    }

    /// Whether every component has a negation: none is the least raw value.
    pub open spec fn symmetric(self) -> bool {
        self.x@ >= -MAX_RAW && self.y@ >= -MAX_RAW && self.z@ >= -MAX_RAW
    }

    /// The dot product with the negation of a symmetric vector is the
    /// negation of the dot product.
    pub proof fn lemma_dot_negated(self, other: Vec3)
        requires
            other.symmetric(),
        ensures
            self.dot_product(other.negated())@ == -(self.dot_product(other)@),
    {
        lemma_wide_product_negated(self.x@, other.x@);
        lemma_wide_product_negated(self.y@, other.y@);
        lemma_wide_product_negated(self.z@, other.z@);
    }

    /// The dot product of the negation of a symmetric vector is the negation
    /// of the dot product.
    pub proof fn lemma_negated_dot(self, other: Vec3)
        requires
            self.symmetric(),
        ensures
            self.negated().dot_product(other)@ == -(self.dot_product(other)@),
    {
        lemma_wide_product_negated(other.x@, self.x@);
        lemma_wide_product_negated(other.y@, self.y@);
        lemma_wide_product_negated(other.z@, self.z@);
        assert(self.x@ * other.x@ == other.x@ * self.x@ && self.y@ * other.y@ == other.y@
            * self.y@ && self.z@ * other.z@ == other.z@ * self.z@) by (nonlinear_arith);
        assert((-self.x@) * other.x@ == other.x@ * (-self.x@) && (-self.y@) * other.y@
            == other.y@ * (-self.y@) && (-self.z@) * other.z@ == other.z@ * (-self.z@))
            by (nonlinear_arith);
    }

    /// Whether each component is at least minus one and less than one.
    pub open spec fn in_unit_cube(self) -> bool {
        &&& -ONE_RAW <= self.x@ < ONE_RAW
        &&& -ONE_RAW <= self.y@ < ONE_RAW
        &&& -ONE_RAW <= self.z@ < ONE_RAW
    }

    /// The direction that stands in when no draw gave a usable point.
    pub open spec fn fallback_direction() -> Vec3 {
        Vec3 { x: Scalar { raw: ONE_RAW }, y: Scalar { raw: 0 }, z: Scalar { raw: 0 } }
    }

    /// Whether `self` can come out of `random_unit_vector`: it is a point of
    /// the unit cube whose squared length is positive and at most one,
    /// divided by its length, or else the fallback direction.
    #[verifier::opaque]
    pub open spec fn is_unit_sample(self) -> bool {
        ||| self == Vec3::fallback_direction()
        ||| exists|p: Vec3|
            {
                &&& p.in_unit_cube()
                &&& 0 < p.squared_norm()@ <= ONE_RAW
                &&& self == #[trigger] p.normalized()
            }
    }

    /// `self` on the side of `normal`: itself when its dot product with
    /// `normal` is positive, and its negation otherwise.
    pub open spec fn toward(self, normal: Vec3) -> Vec3 {
        if self.dot_product(normal)@ > 0 {
            self
        } else {
            self.negated()
        }
    }

    /// A unit sample has a negation in each component, none of its
    /// components is above one in magnitude, and it has about unit length.
    pub proof fn lemma_unit_sample_symmetric(self)
        requires
            self.is_unit_sample(),
        ensures
            self.symmetric(),
            self.within_unit(),
            self.near_unit(),
    {
        reveal(Vec3::is_unit_sample);
        if self != Vec3::fallback_direction() {
            let p = choose|p: Vec3|
                {
                    &&& p.in_unit_cube()
                    &&& 0 < p.squared_norm()@ <= ONE_RAW
                    &&& self == #[trigger] p.normalized()
                };
            p.lemma_normalized_within_unit();
            if p.largest()@ == 0 {
                assert(p.x@ == 0 && p.y@ == 0 && p.z@ == 0);
                assert(p.x@ * p.x@ == 0) by (nonlinear_arith)
                    requires
                        p.x@ == 0,
                ;
                assert(p.y@ * p.y@ == 0) by (nonlinear_arith)
                    requires
                        p.y@ == 0,
                ;
                assert(p.z@ * p.z@ == 0) by (nonlinear_arith)
                    requires
                        p.z@ == 0,
                ;
                assert(p.squared_norm()@ == 0);
            }
            p.lemma_normalized_near_unit();
        } else {
            assert(ONE_RAW * ONE_RAW + 0 * 0 + 0 * 0 == ONE_RAW * ONE_RAW) by (nonlinear_arith);
        }
    }

    /// The negation of a symmetric vector has the same squared length.
    pub proof fn lemma_negated_same_length(self)
        requires
            self.symmetric(),
        ensures
            self.negated().exact_dot(self.negated()) == self.exact_dot(self),
    {
        assert((-self.x@) * (-self.x@) == self.x@ * self.x@ && (-self.y@) * (-self.y@) == self.y@
            * self.y@ && (-self.z@) * (-self.z@) == self.z@ * self.z@) by (nonlinear_arith);
    }

    /// A unit sample turned toward a normal never points against it.
    pub proof fn lemma_toward_same_side(self, normal: Vec3)
        requires
            self.symmetric(),
        ensures
            self.toward(normal).dot_product(normal)@ >= 0,
    {
        self.lemma_negated_dot(normal);
    }

    /// A vector whose components are drawn from `min` up to `max`.
    pub fn random_range(source: &mut RandomGenerator, min: Scalar, max: Scalar) -> (v: Vec3)
        requires
            min@ < max@,
        ensures
            min@ <= v.x@ < max@,
            min@ <= v.y@ < max@,
            min@ <= v.z@ < max@,
    {
        let x = random_generator_range(source, min, max);
        let y = random_generator_range(source, min, max);
        let z = random_generator_range(source, min, max);
        Vec3 { x, y, z }
    }

    /// A vector whose components are drawn from zero up to one.
    pub fn random(source: &mut RandomGenerator) -> (v: Vec3)
        ensures
            0 <= v.x@ < ONE_RAW,
            0 <= v.y@ < ONE_RAW,
            0 <= v.z@ < ONE_RAW,
    {
        let x = random_generator(source);
        let y = random_generator(source);
        let z = random_generator(source);
        Vec3 { x, y, z }
    }

    /// A random direction of about unit length: points of the unit cube are
    /// drawn until `unit_vector_of` accepts one, and that one is brought to
    /// unit length. After `UNIT_VECTOR_ATTEMPTS` draws
    /// without such a point the fallback direction is returned.
    pub fn random_unit_vector(source: &mut RandomGenerator) -> (v: Vec3)
        ensures
            v.is_unit_sample(),
            v.near_unit(),
    {
        let mut attempt: u32 = 0;
        while attempt < UNIT_VECTOR_ATTEMPTS
            invariant
                attempt <= UNIT_VECTOR_ATTEMPTS,
            decreases UNIT_VECTOR_ATTEMPTS - attempt,
        {
            let p = Vec3::random_range(source, Scalar::from_int(-1), Scalar::from_int(1));
            if let Some(v) = unit_vector_of(p) {
                proof {
                    reveal(Vec3::is_unit_sample);
                    assert(v.is_unit_sample());
                    v.lemma_unit_sample_symmetric();
                }
                return v;
            }
            attempt = attempt + 1;
        }
        let fallback = Vec3 {
            x: Scalar::from_int(1),
            y: Scalar::from_raw(0),
            z: Scalar::from_raw(0),
        };
        proof {
            reveal(Vec3::is_unit_sample);
            assert(fallback.is_unit_sample());
            fallback.lemma_unit_sample_symmetric();
        }
        fallback
    }

    /// A random direction of about unit length on the side of `normal`.
    pub fn random_on_hemisphere(source: &mut RandomGenerator, normal: &Vec3) -> (v: Vec3)
        ensures
            exists|u: Vec3| u.is_unit_sample() && v == #[trigger] u.toward(*normal),
            v.dot_product(*normal)@ >= 0,
            v.near_unit(),
    {
        let on_unit_sphere = Vec3::random_unit_vector(source);
        proof {
            on_unit_sphere.lemma_unit_sample_symmetric();
            on_unit_sphere.lemma_toward_same_side(*normal);
            on_unit_sphere.lemma_negated_same_length();
        }
        on_unit_sphere.turned_toward(normal)
    }

    /// The vector itself when its dot product with `normal` is positive,
    /// and its negation otherwise.
    pub fn turned_toward(&self, normal: &Vec3) -> (v: Vec3)
        ensures
            v == self.toward(*normal),
    {
        if self.dot(normal).raw() > 0 {
            *self
        } else {
            self.neg()
        }
    }

    /// The three components with one decimal place each and a blank between.
    pub open spec fn text(self) -> Seq<char> {
        one_decimal(self.x@) + seq![' '] + one_decimal(self.y@) + seq![' '] + one_decimal(self.z@)
    }

    /// The text of the vector: its components with one decimal place each.
    pub fn to_string(&self) -> (s: String)
        ensures
            s@ == self.text(),
    {
        let mut s = String::new();
        proof {
            reveal_strlit(" ");
        }
        push_one_decimal(&mut s, self.x.raw());
        s.append(" ");
        push_one_decimal(&mut s, self.y.raw());
        s.append(" ");
        push_one_decimal(&mut s, self.z.raw());
        assert(s@ =~= self.text());
        s
    }

    /// Whether each component lies strictly inside the range of results.
    pub open spec fn inside(self) -> bool {
        self.x.inside() && self.y.inside() && self.z.inside()
    }

    /// The dot product with each product rounded toward zero and nothing
    /// clamped: a wide value in units of `1 / ONE_RAW`.
    pub open spec fn wide_dot(self, other: Vec3) -> int {
        wide_product(self.x@, other.x@) + wide_product(self.y@, other.y@) + wide_product(
            self.z@,
            other.z@,
        )
    }

    /// The wide dot product differs from the exact one by less than three
    /// units; that of a vector with itself is neither negative nor above the
    /// exact one.
    pub proof fn lemma_wide_dot_near(self, other: Vec3)
        ensures
            -3 * ONE_RAW < self.exact_dot(other) - self.wide_dot(other) * ONE_RAW < 3 * ONE_RAW,
            self == other ==> 0 <= self.exact_dot(other) - self.wide_dot(other) * ONE_RAW,
            self == other ==> 0 <= self.wide_dot(other),
    {
        lemma_truncated_quotient_remainder(self.x@ * other.x@, ONE_RAW as int);
        lemma_truncated_quotient_remainder(self.y@ * other.y@, ONE_RAW as int);
        lemma_truncated_quotient_remainder(self.z@ * other.z@, ONE_RAW as int);
        let px = wide_product(self.x@, other.x@);
        let py = wide_product(self.y@, other.y@);
        let pz = wide_product(self.z@, other.z@);
        assert((px + py + pz) * ONE_RAW == px * ONE_RAW + py * ONE_RAW + pz * ONE_RAW)
            by (nonlinear_arith);
        if self == other {
            assert(self.x@ * self.x@ >= 0 && self.y@ * self.y@ >= 0 && self.z@ * self.z@ >= 0)
                by (nonlinear_arith);
        }
    }

    /// The dot product of the raw components, without rounding.
    pub open spec fn exact_dot(self, other: Vec3) -> int {
        self.x@ * other.x@ + self.y@ * other.y@ + self.z@ * other.z@
    }

    /// Whether the dot product is in range, so that it was not clamped.
    pub open spec fn dot_fits(self, other: Vec3) -> bool {
        clamp(self.wide_dot(other)) == self.wide_dot(other)
    }

    /// A dot product that fits differs from the exact one by less than
    /// three units, and the squared norm is neither negative nor above the
    /// exact one.
    pub proof fn lemma_dot_near(self, other: Vec3)
        requires
            self.dot_fits(other),
        ensures
            -3 * ONE_RAW < self.exact_dot(other) - self.dot_product(other)@ * ONE_RAW < 3
                * ONE_RAW,
            self == other ==> 0 <= self.exact_dot(other) - self.dot_product(other)@ * ONE_RAW,
            self == other ==> 0 <= self.dot_product(other)@,
    {
        self.lemma_wide_dot_near(other);
    }

    /// Builds a vector from its components.
    pub fn new(x: Scalar, y: Scalar, z: Scalar) -> (v: Vec3)
        ensures
            v == (Vec3 { x, y, z }),
    {
        Vec3 { x, y, z }
    }

    /// The first component.
    pub fn x(&self) -> (r: Scalar)
        ensures
            r == self.x,
    {
        self.x
    }

    /// The second component.
    pub fn y(&self) -> (r: Scalar)
        ensures
            r == self.y,
    {
        self.y
    }

    /// The third component.
    pub fn z(&self) -> (r: Scalar)
        ensures
            r == self.z,
    {
        self.z
    }

    /// The component at index `i`.
    pub fn get(&self, i: usize) -> (r: Scalar)
        requires
            i < 3,
        ensures
            r == self.component(i as int),
    {
        if i == 0 {
            self.x
        } else if i == 1 {
            self.y
        } else {
            self.z
        }
    }

    /// The squared length.
    pub fn length_squared(&self) -> (r: Scalar)
        ensures
            r == self.squared_norm(),
    {
        from_wide(self.dot_wide(self))
    }

    /// The length.
    pub fn length(&self) -> (r: Scalar)
        ensures
            r == self.extent(),
    {
        let m = self.largest_component();
        if m.raw() == 0 {
            Scalar::from_raw(0)
        } else {
            let leveled = *self / m;
            m * leveled.length_squared().sqrt()
        }
    }

    /// The dot product with `other`.
    pub fn dot(&self, other: &Vec3) -> (r: Scalar)
        ensures
            r == self.dot_product(*other),
    {
        from_wide(self.dot_wide(other))
    }

    /// The cross product with `other`.
    pub fn cross(&self, other: &Vec3) -> (r: Vec3)
        ensures
            r == self.cross_product(*other),
    {
        Vec3 {
            x: from_wide(times_wide(self.y, other.z) - times_wide(self.z, other.y)),
            y: from_wide(times_wide(self.z, other.x) - times_wide(self.x, other.z)),
            z: from_wide(times_wide(self.x, other.y) - times_wide(self.y, other.x)),
        }
    }

    /// Whether each component lies strictly inside the range of results.
    pub fn is_inside(&self) -> (b: bool)
        ensures
            b == self.inside(),
    {
        self.x.is_inside() && self.y.is_inside() && self.z.is_inside()
    }

    /// Whether every component has a negation.
    pub fn is_symmetric(&self) -> (b: bool)
        ensures
            b == self.symmetric(),
    {
        self.x.raw() >= -MAX_RAW && self.y.raw() >= -MAX_RAW && self.z.raw() >= -MAX_RAW
    }

    /// The dot product with `other` as a wide value: each product is
    /// rounded toward zero, and nothing is clamped.
    pub fn dot_wide(&self, other: &Vec3) -> (r: i128)
        ensures
            r == self.wide_dot(*other),
            magnitude(r as int) <= 3 * 0x4000_0000_0000_0000_0000_0000,
    {
        times_wide(self.x, other.x) + times_wide(self.y, other.y) + times_wide(self.z, other.z)
    }

    /// The greatest magnitude of a component.
    pub fn largest_component(&self) -> (m: Scalar)
        ensures
            m == self.largest(),
    {
        let x = self.x.abs();
        let y = self.y.abs();
        let z = self.z.abs();
        if x.ge(&y) && x.ge(&z) {
            x
        } else if y.ge(&z) {
            y
        } else {
            z
        }
    }

    /// The vector brought to about unit length; the zero vector stays as it
    /// is. No component of the result is above one in magnitude, and where
    /// the vector is not zero, the squared length of the result differs from
    /// one by at most `12 / 2^32`.
    pub fn unit_vector(&self) -> (r: Vec3)
        ensures
            r == self.normalized(),
            r.within_unit(),
            self.largest()@ != 0 ==> r.near_unit(),
    {
        proof {
            self.lemma_normalized_within_unit();
            if self.largest()@ != 0 {
                self.lemma_normalized_near_unit();
            }
        }
        let m = self.largest_component();
        if m.raw() == 0 {
            *self
        } else {
            let leveled = *self / m;
            leveled / leveled.length_squared().sqrt()
        }
    }

    /// Adds `v` to the vector in place.
    pub fn add_assign(&mut self, v: Vec3)
        ensures
            *final(self) == old(self).plus(v),
    {
        self.x = self.x + v.x;
        self.y = self.y + v.y;
        self.z = self.z + v.z;
    }

    /// Multiplies the vector by `t` in place.
    pub fn mul_assign(&mut self, t: Scalar)
        ensures
            *final(self) == old(self).scaled(t),
    {
        self.x = self.x * t;
        self.y = self.y * t;
        self.z = self.z * t;
    }

    /// Multiplies the vector in place by the reciprocal of `t`.
    pub fn div_assign(&mut self, t: Scalar)
        ensures
            *final(self) == old(self).scaled(Scalar::of(ONE_RAW as int).over(t)),
    {
        let one = Scalar::from_int(1);
        self.mul_assign(one / t);
    }
}

/// The point brought to about unit length, where its squared length is
/// above zero and at most one: where it lies in the unit ball, away from
/// the center.
pub fn unit_vector_of(p: Vec3) -> (v: Option<Vec3>)
    ensures
        v == (if 0 < p.squared_norm()@ <= ONE_RAW {
            Some(p.normalized())
        } else {
            None
        }),
{
    let lensq = p.length_squared();
    if lensq.raw() > 0 && lensq.raw() <= ONE_RAW {
        Some(p.unit_vector())
    } else {
        None
    }
}

impl Default for Vec3 {
    fn default() -> (v: Vec3)
        ensures
            v == Vec3::zero(),
    {
        Vec3 { x: Scalar::from_raw(0), y: Scalar::from_raw(0), z: Scalar::from_raw(0) }
    }
}

impl core::ops::AddAssign for Vec3 {
    /// `v += w` adds `w` to `v` in place.
    fn add_assign(&mut self, v: Vec3)
        ensures
            *final(self) == old(self).plus(v),
    {
        Vec3::add_assign(self, v)
    }
}

impl core::ops::MulAssign<Scalar> for Vec3 {
    /// `v *= t` multiplies `v` by `t` in place.
    fn mul_assign(&mut self, t: Scalar)
        ensures
            *final(self) == old(self).scaled(t),
    {
        Vec3::mul_assign(self, t)
    }
}

impl core::ops::DivAssign<Scalar> for Vec3 {
    /// `v /= t` multiplies `v` in place by the reciprocal of `t`.
    fn div_assign(&mut self, t: Scalar)
        ensures
            *final(self) == old(self).scaled(Scalar::of(ONE_RAW as int).over(t)),
    {
        Vec3::div_assign(self, t)
    }
}

impl core::ops::Neg for Vec3 {
    type Output = Vec3;

    /// `-v` is `v.negated()`.
    fn neg(self) -> (r: Vec3) {
        Vec3 { x: self.x.neg(), y: self.y.neg(), z: self.z.neg() }
    }
}

impl NegSpecImpl for Vec3 {
    open spec fn obeys_neg_spec() -> bool {
        true
    }

    open spec fn neg_req(self) -> bool {
        true
    }

    open spec fn neg_spec(self) -> Vec3 {
        self.negated()
    }
}

impl core::ops::Add for Vec3 {
    type Output = Vec3;

    /// `v + w` is `v.plus(w)`.
    fn add(self, other: Vec3) -> (r: Vec3) {
        Vec3 { x: self.x + other.x, y: self.y + other.y, z: self.z + other.z }
    }
}

impl AddSpecImpl for Vec3 {
    open spec fn obeys_add_spec() -> bool {
        true
    }

    open spec fn add_req(self, other: Vec3) -> bool {
        true
    }

    open spec fn add_spec(self, other: Vec3) -> Vec3 {
        self.plus(other)
    }
}

impl core::ops::Sub for Vec3 {
    type Output = Vec3;

    /// `v - w` is `v.minus(w)`.
    fn sub(self, other: Vec3) -> (r: Vec3) {
        Vec3 { x: self.x - other.x, y: self.y - other.y, z: self.z - other.z }
    }
}

impl SubSpecImpl for Vec3 {
    open spec fn obeys_sub_spec() -> bool {
        true
    }

    open spec fn sub_req(self, other: Vec3) -> bool {
        true
    }

    open spec fn sub_spec(self, other: Vec3) -> Vec3 {
        self.minus(other)
    }
}

impl core::ops::Mul for Vec3 {
    type Output = Vec3;

    /// `v * w` is `v.hadamard(w)`, the product by component.
    fn mul(self, other: Vec3) -> (r: Vec3) {
        Vec3 { x: self.x * other.x, y: self.y * other.y, z: self.z * other.z }
    }
}

impl MulSpecImpl for Vec3 {
    open spec fn obeys_mul_spec() -> bool {
        true
    }

    open spec fn mul_req(self, other: Vec3) -> bool {
        true
    }

    open spec fn mul_spec(self, other: Vec3) -> Vec3 {
        self.hadamard(other)
    }
}

impl core::ops::Mul<Scalar> for Vec3 {
    type Output = Vec3;

    /// `v * t` is `v.scaled(t)`.
    fn mul(self, t: Scalar) -> (r: Vec3) {
        Vec3 { x: self.x * t, y: self.y * t, z: self.z * t }
    }
}

impl MulSpecImpl<Scalar> for Vec3 {
    open spec fn obeys_mul_spec() -> bool {
        true
    }

    open spec fn mul_req(self, t: Scalar) -> bool {
        true
    }

    open spec fn mul_spec(self, t: Scalar) -> Vec3 {
        self.scaled(t)
    }
}

impl core::ops::Mul<Vec3> for Scalar {
    type Output = Vec3;

    /// `t * v` is `v.scaled(t)`.
    fn mul(self, v: Vec3) -> (r: Vec3) {
        Vec3 { x: v.x * self, y: v.y * self, z: v.z * self }
    }
}

impl MulSpecImpl<Vec3> for Scalar {
    open spec fn obeys_mul_spec() -> bool {
        true
    }

    open spec fn mul_req(self, v: Vec3) -> bool {
        true
    }

    open spec fn mul_spec(self, v: Vec3) -> Vec3 {
        v.scaled(self)
    }
}

impl core::ops::Div<Scalar> for Vec3 {
    type Output = Vec3;

    /// `v / t` is `v.divided(t)`.
    fn div(self, t: Scalar) -> (r: Vec3) {
        Vec3 { x: self.x / t, y: self.y / t, z: self.z / t }
    }
}

impl DivSpecImpl<Scalar> for Vec3 {
    open spec fn obeys_div_spec() -> bool {
        true
    }

    open spec fn div_req(self, t: Scalar) -> bool {
        true
    }

    open spec fn div_spec(self, t: Scalar) -> Vec3 {
        self.divided(t)
    }
}

} // verus!
