//! Colours: three linear components, and their encoding as pixel bytes.

use crate::constants::linear_to_gamma;
use crate::interval::Interval;
use crate::scalar::{lemma_times_whole, truncated_quotient, Scalar, ONE_RAW};
use crate::text::{
    decimal, lemma_decimal_on_one_line, lemma_line_feeds_joined, lemma_line_feeds_single,
    line_feeds, push_decimal,
};
use crate::vec3::Vec3;
use vstd::prelude::*;
use vstd::std_specs::ops::{AddSpecImpl, DivSpecImpl, MulSpecImpl, SubSpecImpl};
use vstd::string::StringExecFns;

verus! {

/// The raw value of 0.999, the greatest intensity that is written out.
pub const INTENSITY_MAX_RAW: i64 = 4290672328;

/// A colour: the vector of its red, green and blue components.
#[derive(Clone, Copy, Debug, PartialEq, Eq, Structural)]
pub struct Color(pub Vec3);

/// The byte of a linear component: its square root, brought into the range
/// from 0 to 0.999, times 256, rounded toward zero.
pub open spec fn encoded_channel(linear: Scalar) -> int {
    let intensity = Interval { min: Scalar { raw: 0 }, max: Scalar { raw: INTENSITY_MAX_RAW } };
    truncated_quotient(
        intensity.nearest(linear.root()).times(Scalar::from_int_spec(256))@,
        ONE_RAW as int,
    )
}

/// The byte of a linear component.
pub fn encode_channel(linear: Scalar) -> (byte: u8)
    ensures
        byte == encoded_channel(linear),
{
    let intensity = Interval::new(Scalar::from_raw(0), Scalar::from_raw(INTENSITY_MAX_RAW));
    let level = intensity.clamp(linear_to_gamma(linear));
    let scaled = level * Scalar::from_int(256);
    proof {
        lemma_times_whole(level, 256);
    }
    scaled.to_int() as u8
}

impl Color {
    /// The component-wise sum.
    pub open spec fn plus(self, other: Color) -> Color {
        Color(self.0.plus(other.0))
    }

    /// The colour with each component multiplied by `t`.
    pub open spec fn scaled(self, t: Scalar) -> Color {
        Color(self.0.scaled(t))
    }

    /// Whether each component lies between zero and one.
    pub open spec fn in_unit_range(self) -> bool {
        &&& 0 <= self.0.x@ <= ONE_RAW
        &&& 0 <= self.0.y@ <= ONE_RAW
        &&& 0 <= self.0.z@ <= ONE_RAW
    }

    /// Whether each component lies between zero and `limit`.
    pub open spec fn at_most(self, limit: int) -> bool {
        &&& 0 <= self.0.x@ <= limit
        &&& 0 <= self.0.y@ <= limit
        &&& 0 <= self.0.z@ <= limit
    }

    /// Whether each component is at least `limit`.
    pub open spec fn at_least(self, limit: int) -> bool {
        self.0.x@ >= limit && self.0.y@ >= limit && self.0.z@ >= limit
    }

    /// The colour without light.
    pub open spec fn black() -> Color {
        Color(Vec3::zero())
    }

    /// The three bytes of the colour as decimal numbers with a blank between.
    pub open spec fn text(self) -> Seq<char> {
        decimal(encoded_channel(self.0.x) as nat) + seq![' '] + decimal(
            encoded_channel(self.0.y) as nat,
        ) + seq![' '] + decimal(encoded_channel(self.0.z) as nat)
    }

    /// The text of a colour holds no line feed.
    pub proof fn lemma_text_on_one_line(self)
        ensures
            line_feeds(self.text()) == 0,
    {
        let r = decimal(encoded_channel(self.0.x) as nat);
        let g = decimal(encoded_channel(self.0.y) as nat);
        let b = decimal(encoded_channel(self.0.z) as nat);
        lemma_decimal_on_one_line(encoded_channel(self.0.x) as nat);
        lemma_decimal_on_one_line(encoded_channel(self.0.y) as nat);
        lemma_decimal_on_one_line(encoded_channel(self.0.z) as nat);
        lemma_line_feeds_single(' ');
        lemma_line_feeds_joined(r, seq![' ']);
        lemma_line_feeds_joined(r + seq![' '], g);
        lemma_line_feeds_joined(r + seq![' '] + g, seq![' ']);
        lemma_line_feeds_joined(r + seq![' '] + g + seq![' '], b);
    }

    /// The colour of the three components.
    pub fn new(r: Scalar, g: Scalar, b: Scalar) -> (c: Color)
        ensures
            c == Color(Vec3 { x: r, y: g, z: b }),
    {
        Color(Vec3::new(r, g, b))
    }

    /// The red component.
    pub fn r(&self) -> (r: Scalar)
        ensures
            r == self.0.x,
    {
        self.0.x
    }

    /// The green component.
    pub fn g(&self) -> (r: Scalar)
        ensures
            r == self.0.y,
    {
        self.0.y
    }

    /// The blue component.
    pub fn b(&self) -> (r: Scalar)
        ensures
            r == self.0.z,
    {
        self.0.z
    }

    /// The squared length of the colour as a vector.
    pub fn length_squared(&self) -> (r: Scalar)
        ensures
            r == self.0.squared_norm(),
    {
        self.0.length_squared()
    }

    /// The length of the colour as a vector.
    pub fn length(&self) -> (r: Scalar)
        ensures
            r == self.0.extent(),
    {
        self.0.length()
    }

    /// The dot product with `other`.
    pub fn dot(&self, other: &Color) -> (r: Scalar)
        ensures
            r == self.0.dot_product(other.0),
    {
        self.0.dot(&other.0)
    }

    /// The cross product with `other`.
    pub fn cross(&self, other: &Color) -> (r: Color)
        ensures
            r == Color(self.0.cross_product(other.0)),
    {
        Color(self.0.cross(&other.0))
    }

    /// The colour divided by its length.
    pub fn unit_vector(&self) -> (r: Color)
        ensures
            r == Color(self.0.normalized()),
    {
        Color(self.0.unit_vector())
    }

    /// The three bytes of the colour: red, green, blue.
    pub fn to_bytes(&self) -> (bytes: (u8, u8, u8))
        ensures
            bytes.0 == encoded_channel(self.0.x),
            bytes.1 == encoded_channel(self.0.y),
            bytes.2 == encoded_channel(self.0.z),
    {
        (encode_channel(self.0.x), encode_channel(self.0.y), encode_channel(self.0.z))
    }

    /// Appends the text of the colour to `text`.
    pub fn push_text(&self, text: &mut String)
        ensures
            final(text)@ == old(text)@ + self.text(),
    {
        let (r, g, b) = self.to_bytes();
        proof {
            reveal_strlit(" ");
        }
        push_decimal(text, r as u32);
        text.append(" ");
        push_decimal(text, g as u32);
        text.append(" ");
        push_decimal(text, b as u32);
        assert(final(text)@ =~= old(text)@ + self.text());
    }

    /// The text of the colour: its three bytes as decimal numbers.
    pub fn to_string(&self) -> (s: String)
        ensures
            s@ == self.text(),
    {
        let mut s = String::new();
        self.push_text(&mut s);
        assert(s@ =~= self.text());
        s
    }
}

impl core::ops::Deref for Color {
    type Target = Vec3;

    /// The colour as the vector of its components.
    fn deref(&self) -> (v: &Vec3)
        ensures
            *v == self.0,
    {
        &self.0
    }
}

impl core::ops::Add for Color {
    type Output = Color;

    /// `c + d` is `c.plus(d)`.
    fn add(self, other: Color) -> (r: Color) {
        Color(self.0 + other.0)
    }
}

impl AddSpecImpl for Color {
    open spec fn obeys_add_spec() -> bool {
        true
    }

    open spec fn add_req(self, other: Color) -> bool {
        true
    }

    open spec fn add_spec(self, other: Color) -> Color {
        self.plus(other)
    }
}

impl core::ops::Add<Vec3> for Color {
    type Output = Color;

    /// `c + v` adds the vector to the components.
    fn add(self, other: Vec3) -> (r: Color) {
        Color(self.0 + other)
    }
}

impl AddSpecImpl<Vec3> for Color {
    open spec fn obeys_add_spec() -> bool {
        true
    }

    open spec fn add_req(self, other: Vec3) -> bool {
        true
    }

    open spec fn add_spec(self, other: Vec3) -> Color {
        Color(self.0.plus(other))
    }
}

impl core::ops::Sub for Color {
    type Output = Color;

    /// `c - d` is the difference by component.
    fn sub(self, other: Color) -> (r: Color) {
        Color(self.0 - other.0)
    }
}

impl SubSpecImpl for Color {
    open spec fn obeys_sub_spec() -> bool {
        true
    }

    open spec fn sub_req(self, other: Color) -> bool {
        true
    }

    open spec fn sub_spec(self, other: Color) -> Color {
        Color(self.0.minus(other.0))
    }
}

impl core::ops::Div<Scalar> for Color {
    type Output = Color;

    /// `c / t` divides each component by `t`.
    fn div(self, t: Scalar) -> (r: Color) {
        Color(self.0 / t)
    }
}

impl DivSpecImpl<Scalar> for Color {
    open spec fn obeys_div_spec() -> bool {
        true
    }

    open spec fn div_req(self, t: Scalar) -> bool {
        true
    }

    open spec fn div_spec(self, t: Scalar) -> Color {
        Color(self.0.divided(t))
    }
}

impl core::ops::Mul for Color {
    type Output = Color;

    /// `c * d` is the product by component.
    fn mul(self, other: Color) -> (r: Color) {
        Color(self.0 * other.0)
    }
}

impl MulSpecImpl for Color {
    open spec fn obeys_mul_spec() -> bool {
        true
    }

    open spec fn mul_req(self, other: Color) -> bool {
        true
    }

    open spec fn mul_spec(self, other: Color) -> Color {
        Color(self.0.hadamard(other.0))
    }
}

impl core::ops::Mul<Scalar> for Color {
    type Output = Color;

    /// `c * t` is `c.scaled(t)`.
    fn mul(self, t: Scalar) -> (r: Color) {
        Color(self.0 * t)
    }
}

impl MulSpecImpl<Scalar> for Color {
    open spec fn obeys_mul_spec() -> bool {
        true
    }

    open spec fn mul_req(self, t: Scalar) -> bool {
        true
    }

    open spec fn mul_spec(self, t: Scalar) -> Color {
        self.scaled(t)
    }
}

impl core::ops::Mul<Color> for Scalar {
    type Output = Color;

    /// `t * c` is `c.scaled(t)`.
    fn mul(self, v: Color) -> (r: Color) {
        Color(v.0 * self)
    }
}

impl MulSpecImpl<Color> for Scalar {
    open spec fn obeys_mul_spec() -> bool {
        true
    }

    open spec fn mul_req(self, v: Color) -> bool {
        true
    }

    open spec fn mul_spec(self, v: Color) -> Color {
        v.scaled(self)
    }
}

} // verus!
