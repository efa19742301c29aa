//! Saturating signed fixed-point numbers with 32 fractional bits.

use vstd::arithmetic::div_mod::{lemma_fundamental_div_mod, lemma_mod_bound};
use vstd::prelude::*;
use vstd::std_specs::ops::{AddSpecImpl, DivSpecImpl, MulSpecImpl, NegSpecImpl, SubSpecImpl};

verus! {

/// The raw representation of the number one.
pub const ONE_RAW: i64 = 0x1_0000_0000;

/// The largest raw value; results of arithmetic lie within `-MAX_RAW..=MAX_RAW`.
pub const MAX_RAW: i64 = 0x7fff_ffff_ffff_ffff;

/// A fixed-point number: `raw` counts units of `1 / ONE_RAW`. Scalars are
/// ordered as their raw values are.
#[derive(Clone, Copy, Debug, PartialEq, Eq, PartialOrd, Ord, Hash, Structural)]
pub struct Scalar {
    pub raw: i64,
}

impl View for Scalar {
    type V = int;

    /// The raw value as a mathematical integer.
    open spec fn view(&self) -> int {
        self.raw as int
    }
}

/// `v` brought into the symmetric range `-MAX_RAW..=MAX_RAW`.
pub open spec fn clamp(v: int) -> int {
    if v < -(MAX_RAW as int) {
        -(MAX_RAW as int)
    } else if v > MAX_RAW as int {
        MAX_RAW as int
    } else {
        v
    }
}

/// The absolute value of `v`.
pub open spec fn magnitude(v: int) -> int {
    if v < 0 {
        -v
    } else {
        v
    }
}

/// The quotient of `n` by `d` rounded toward zero (`d` is not zero).
pub open spec fn truncated_quotient(n: int, d: int) -> int
    recommends
        d != 0,
{
    if (n < 0) == (d < 0) {
        magnitude(n) / magnitude(d)
    } else {
        -(magnitude(n) / magnitude(d))
    }
}

/// `r` is the integer square root of `n`: the largest natural number whose
/// square does not exceed `n`.
pub open spec fn is_integer_root(n: int, r: int) -> bool {
    0 <= r && r * r <= n && n < (r + 1) * (r + 1)
}

/// The integer square root of `n`, and zero for a negative `n`.
pub open spec fn integer_root(n: int) -> int {
    if n < 0 {
        0
    } else {
        choose|r: int| is_integer_root(n, r)
    }
}

/// Two integer square roots of one number are equal.
pub proof fn lemma_integer_root_unique(n: int, r1: int, r2: int)
    requires
        is_integer_root(n, r1),
        is_integer_root(n, r2),
    ensures
        r1 == r2,
{
    if r1 < r2 {
        assert((r1 + 1) * (r1 + 1) <= r2 * r2) by (nonlinear_arith)
            requires
                0 <= r1,
                r1 + 1 <= r2,
        ;
    } else if r2 < r1 {
        assert((r2 + 1) * (r2 + 1) <= r1 * r1) by (nonlinear_arith)
            requires
                0 <= r2,
                r2 + 1 <= r1,
        ;
    }
}

/// A number with the root property is the integer square root.
pub proof fn lemma_integer_root_is(n: int, r: int)
    requires
        is_integer_root(n, r),
    ensures
        integer_root(n) == r,
{
    assert(0 <= r * r) by (nonlinear_arith);
    let c = choose|c: int| is_integer_root(n, c);
    lemma_integer_root_unique(n, r, c);
}

impl Scalar {
    /// The scalar whose raw value is `v` clamped into range.
    pub open spec fn of(v: int) -> Scalar {
        Scalar { raw: clamp(v) as i64 }
    }

    /// The sign of the scalar: -1, 0 or 1.
    pub open spec fn signum(self) -> int {
        if self@ < 0 {
            -1
        } else if self@ > 0 {
            1
        } else {
            0
        }
    }

    /// The saturated sum.
    pub open spec fn plus(self, rhs: Scalar) -> Scalar {
        Scalar::of(self@ + rhs@)
    }

    /// The saturated difference.
    pub open spec fn minus(self, rhs: Scalar) -> Scalar {
        Scalar::of(self@ - rhs@)
    }

    /// The saturated negation.
    pub open spec fn negated(self) -> Scalar {
        Scalar::of(-self@)
    }

    /// The saturated product.
    pub open spec fn times(self, rhs: Scalar) -> Scalar {
        Scalar::of(truncated_quotient(self@ * rhs@, ONE_RAW as int))
    }

    /// The saturated quotient. A zero divisor gives the bound of the
    /// dividend's sign, and zero for a zero dividend.
    pub open spec fn over(self, rhs: Scalar) -> Scalar {
        if rhs@ == 0 {
            Scalar::of(self.signum() * MAX_RAW)
        } else {
            Scalar::of(truncated_quotient(self@ * ONE_RAW, rhs@))
        }
    }

    /// The square root rounded down, and zero for a negative scalar.
    pub open spec fn root(self) -> Scalar {
        Scalar::of(integer_root(self@ * ONE_RAW))
    }

    /// The magnitude, clamped into range.
    pub open spec fn absolute(self) -> Scalar {
        Scalar::of(magnitude(self@))
    }

    /// Whether the scalar lies strictly between the least and the greatest
    /// result of arithmetic. A result that does was not clamped.
    pub open spec fn inside(self) -> bool {
        -MAX_RAW < self@ < MAX_RAW
    }

    /// Whether the product with `rhs` is in range, so that multiplying
    /// loses only what rounding leaves out.
    pub open spec fn product_fits(self, rhs: Scalar) -> bool {
        let product = truncated_quotient(self@ * rhs@, ONE_RAW as int);
        clamp(product) == product
    }

    /// Whether `rhs` is not zero and the quotient by it is in range.
    pub open spec fn quotient_fits(self, rhs: Scalar) -> bool {
        let quotient = truncated_quotient(self@ * ONE_RAW, rhs@);
        rhs@ != 0 && clamp(quotient) == quotient
    }

    /// Builds a scalar from its raw value.
    pub fn from_raw(raw: i64) -> (s: Scalar)
        ensures
            s.raw == raw,
    {
        Scalar { raw }
    }

    /// The raw value.
    pub fn raw(&self) -> (r: i64)
        ensures
            r == self.raw,
    {
        self.raw
    }
}

/// The magnitude of a raw value, widened so that it always fits.
pub(crate) fn raw_magnitude(raw: i64) -> (m: u128)
    ensures
        m == magnitude(raw as int),
        m <= 0x8000_0000_0000_0000,
{
    if raw < 0 {
        let wide: i128 = raw as i128;
        (-wide) as u128
    } else {
        raw as u128
    }
}

/// The scalar of a sign and a magnitude, saturated.
fn from_sign_magnitude(negative: bool, m: u128) -> (s: Scalar)
    ensures
        s == Scalar::of(if negative { -(m as int) } else { m as int }),
{
    if m >= MAX_RAW as u128 {
        if negative {
            Scalar { raw: -MAX_RAW }
        } else {
            Scalar { raw: MAX_RAW }
        }
    } else {
        let r: i64 = m as i64;
        if negative {
            Scalar { raw: -r }
        } else {
            Scalar { raw: r }
        }
    }
}

impl Scalar {
    /// The whole number `n`.
    pub fn from_int(n: i32) -> (s: Scalar)
        ensures
            s == Scalar::from_int_spec(n as int),
    {
        let wide: i128 = (n as i128) * 0x1_0000_0000;
        from_wide(wide)
    }

    /// The whole part of the scalar, rounded toward zero.
    pub fn to_int(&self) -> (n: i32)
        ensures
            n == truncated_quotient(self@, ONE_RAW as int),
    {
        let m: u128 = raw_magnitude(self.raw) / 0x1_0000_0000;
        if self.raw < 0 {
            let w: i64 = m as i64;
            (-w) as i32
        } else {
            m as i32
        }
    }

    /// The ratio of two whole numbers, rounded toward zero.
    pub fn from_ratio(numerator: i32, denominator: i32) -> (s: Scalar)
        ensures
            s == Scalar::from_int_spec(numerator as int).over(
                Scalar::from_int_spec(denominator as int),
            ),
    {
        Scalar::from_int(numerator) / Scalar::from_int(denominator)
    }

    /// The scalar that stands for the whole number `n`.
    pub open spec fn from_int_spec(n: int) -> Scalar {
        Scalar::of(n * ONE_RAW)
    }

    /// The magnitude of the scalar, and the greatest scalar for the least
    /// raw value.
    pub fn abs(&self) -> (r: Scalar)
        ensures
            r == self.absolute(),
    {
        if self.raw < 0 {
            if self.raw <= -MAX_RAW {
                Scalar { raw: MAX_RAW }
            } else {
                Scalar { raw: -self.raw }
            }
        } else {
            Scalar { raw: self.raw }
        }
    }

    /// Whether the scalar lies strictly inside the range of results.
    pub fn is_inside(&self) -> (b: bool)
        ensures
            b == self.inside(),
    {
        -MAX_RAW < self.raw && self.raw < MAX_RAW
    }

    /// Whether the scalar is less than `other`.
    pub fn lt(&self, other: &Scalar) -> (b: bool)
        ensures
            b == (self@ < other@),
    {
        self.raw < other.raw
    }

    /// Whether the scalar is at most `other`.
    pub fn le(&self, other: &Scalar) -> (b: bool)
        ensures
            b == (self@ <= other@),
    {
        self.raw <= other.raw
    }

    /// Whether the scalar is greater than `other`.
    pub fn gt(&self, other: &Scalar) -> (b: bool)
        ensures
            b == (self@ > other@),
    {
        self.raw > other.raw
    }

    /// Whether the scalar is at least `other`.
    pub fn ge(&self, other: &Scalar) -> (b: bool)
        ensures
            b == (self@ >= other@),
    {
        self.raw >= other.raw
    }

    /// The square root rounded down, and zero for a negative scalar.
    pub fn sqrt(&self) -> (r: Scalar)
        ensures
            r == self.root(),
    {
        if self.raw <= 0 {
            proof {
                if self.raw == 0 {
                    lemma_integer_root_is(0, 0);
                }
            }
            return Scalar { raw: 0 };
        }
        let n: u128 = (self.raw as u128) * (ONE_RAW as u128);
        let mut low: u128 = 0;
        let mut high: u128 = 0x1_0000_0000_0000;
        assert(n < high * high) by (nonlinear_arith)
            requires
                n < 0x8000_0000_0000_0000 * 0x1_0000_0000,
                high == 0x1_0000_0000_0000,
        ;
        while high - low > 1
            invariant
                low < high <= 0x1_0000_0000_0000,
                low * low <= n < high * high,
            decreases high - low,
        {
            let middle: u128 = low + (high - low) / 2;
            assert(middle * middle <= 0x1_0000_0000_0000 * 0x1_0000_0000_0000) by (nonlinear_arith)
                requires
                    middle <= 0x1_0000_0000_0000,
            ;
            if middle * middle <= n {
                low = middle;
            } else {
                high = middle;
            }
        }
        proof {
            lemma_integer_root_is(n as int, low as int);
        }
        Scalar { raw: low as i64 }
    }
}

impl core::ops::Neg for Scalar {
    type Output = Scalar;

    /// `-a` is `a.negated()`: the negation, and the greatest scalar for the least raw value.
    fn neg(self) -> (r: Scalar) {
        if self.raw <= -MAX_RAW {
            Scalar { raw: MAX_RAW }
        } else {
            Scalar { raw: -self.raw }
        }
    }
}

impl NegSpecImpl for Scalar {
    open spec fn obeys_neg_spec() -> bool {
        true
    }

    open spec fn neg_req(self) -> bool {
        true
    }

    open spec fn neg_spec(self) -> Scalar {
        self.negated()
    }
}

impl core::ops::Add for Scalar {
    type Output = Scalar;

    /// `a + b` is `a.plus(b)`: the sum, clamped into range.
    fn add(self, rhs: Scalar) -> (r: Scalar) {
        let wide: i128 = self.raw as i128 + rhs.raw as i128;
        from_wide(wide)
    }
}

impl AddSpecImpl for Scalar {
    open spec fn obeys_add_spec() -> bool {
        true
    }

    open spec fn add_req(self, rhs: Scalar) -> bool {
        true
    }

    open spec fn add_spec(self, rhs: Scalar) -> Scalar {
        self.plus(rhs)
    }
}

impl core::ops::Sub for Scalar {
    type Output = Scalar;

    /// `a - b` is `a.minus(b)`: the difference, clamped into range.
    fn sub(self, rhs: Scalar) -> (r: Scalar) {
        let wide: i128 = self.raw as i128 - rhs.raw as i128;
        from_wide(wide)
    }
}

impl SubSpecImpl for Scalar {
    open spec fn obeys_sub_spec() -> bool {
        true
    }

    open spec fn sub_req(self, rhs: Scalar) -> bool {
        true
    }

    open spec fn sub_spec(self, rhs: Scalar) -> Scalar {
        self.minus(rhs)
    }
}

impl core::ops::Mul for Scalar {
    type Output = Scalar;

    /// `a * b` is `a.times(b)`: the product rounded toward zero, clamped into range.
    fn mul(self, rhs: Scalar) -> (r: Scalar) {
        let a: u128 = raw_magnitude(self.raw);
        let b: u128 = raw_magnitude(rhs.raw);
        assert(a * b <= 0x8000_0000_0000_0000 * 0x8000_0000_0000_0000) by (nonlinear_arith)
            requires
                a <= 0x8000_0000_0000_0000,
                b <= 0x8000_0000_0000_0000,
        ;
        proof {
            lemma_magnitude_of_product(self@, rhs@);
        }
        let q: u128 = (a * b) / (ONE_RAW as u128);
        from_sign_magnitude((self.raw < 0) != (rhs.raw < 0), q)
    }
}

impl MulSpecImpl for Scalar {
    open spec fn obeys_mul_spec() -> bool {
        true
    }

    open spec fn mul_req(self, rhs: Scalar) -> bool {
        true
    }

    open spec fn mul_spec(self, rhs: Scalar) -> Scalar {
        self.times(rhs)
    }
}

impl core::ops::Div for Scalar {
    type Output = Scalar;

    /// `a / b` is `a.over(b)`: the quotient rounded toward zero, clamped into range.
    fn div(self, rhs: Scalar) -> (r: Scalar) {
        if rhs.raw == 0 {
            if self.raw > 0 {
                Scalar { raw: MAX_RAW }
            } else if self.raw < 0 {
                Scalar { raw: -MAX_RAW }
            } else {
                Scalar { raw: 0 }
            }
        } else {
            let a: u128 = raw_magnitude(self.raw);
            let b: u128 = raw_magnitude(rhs.raw);
            proof {
                lemma_magnitude_of_product(self@, ONE_RAW as int);
            }
            let q: u128 = (a * (ONE_RAW as u128)) / b;
            from_sign_magnitude((self.raw < 0) != (rhs.raw < 0), q)
        }
    }
}

impl DivSpecImpl for Scalar {
    open spec fn obeys_div_spec() -> bool {
        true
    }

    open spec fn div_req(self, rhs: Scalar) -> bool {
        true
    }

    open spec fn div_spec(self, rhs: Scalar) -> Scalar {
        self.over(rhs)
    }
}

/// The scalar of a wide raw value, clamped into range.
pub fn from_wide(wide: i128) -> (s: Scalar)
    ensures
        s == Scalar::of(wide as int),
{
    if wide < -(MAX_RAW as i128) {
        Scalar { raw: -MAX_RAW }
    } else if wide > MAX_RAW as i128 {
        Scalar { raw: MAX_RAW }
    } else {
        Scalar { raw: wide as i64 }
    }
}

/// The magnitude of a product is the product of the magnitudes, and the
/// product is negative exactly when it is not zero and the signs differ.
pub proof fn lemma_magnitude_of_product(a: int, b: int)
    ensures
        magnitude(a * b) == magnitude(a) * magnitude(b),
        a * b < 0 <==> (a != 0 && b != 0 && ((a < 0) != (b < 0))),
{
    assert(magnitude(a * b) == magnitude(a) * magnitude(b) && (a * b < 0 <==> (a != 0 && b != 0
        && ((a < 0) != (b < 0))))) by (nonlinear_arith)
        requires
            magnitude(a) == if a < 0 { -a } else { a },
            magnitude(b) == if b < 0 { -b } else { b },
            magnitude(a * b) == if a * b < 0 { -(a * b) } else { a * b },
    ;
}

/// Rounding toward zero commutes with negation.
pub proof fn lemma_truncated_quotient_negated(n: int, d: int)
    requires
        d != 0,
    ensures
        truncated_quotient(-n, d) == -truncated_quotient(n, d),
{
    if n == 0 {
        assert(0int / magnitude(d) == 0) by (nonlinear_arith)
            requires
                magnitude(d) > 0,
        ;
    }
}

/// A multiple of the divisor divides without remainder.
pub proof fn lemma_truncated_quotient_of_multiple(m: int, d: int)
    requires
        d > 0,
    ensures
        truncated_quotient(m * d, d) == m,
{
    lemma_magnitude_of_product(m, d);
    assert((magnitude(m) * d) / d == magnitude(m)) by (nonlinear_arith)
        requires
            d > 0,
            magnitude(m) >= 0,
    ;
}

/// The product of a scalar and a whole number is the clamped multiple.
pub proof fn lemma_times_whole(a: Scalar, n: int)
    requires
        -0x7fff_ffff <= n <= 0x7fff_ffff,
    ensures
        a.times(Scalar::from_int_spec(n))@ == clamp(a@ * n),
{
    assert(a@ * (n * ONE_RAW) == (a@ * n) * ONE_RAW) by (nonlinear_arith);
    lemma_truncated_quotient_of_multiple(a@ * n, ONE_RAW as int);
}

/// What rounding toward zero leaves out is less than the divisor in
/// magnitude and has the sign of the dividend.
pub proof fn lemma_truncated_quotient_remainder(n: int, d: int)
    requires
        d > 0,
    ensures
        n >= 0 ==> 0 <= n - truncated_quotient(n, d) * d < d,
        n <= 0 ==> -d < n - truncated_quotient(n, d) * d <= 0,
{
    let m = magnitude(n);
    lemma_fundamental_div_mod(m, d);
    lemma_mod_bound(m, d);
    assert(d * (m / d) == (m / d) * d) by (nonlinear_arith);
    assert((-(m / d)) * d == -((m / d) * d)) by (nonlinear_arith);
}

/// A product that fits differs from the exact product by less than one
/// unit, and is not above it when the exact product is not negative.
pub proof fn lemma_times_near(x: Scalar, y: Scalar)
    requires
        x.product_fits(y),
    ensures
        -ONE_RAW < x@ * y@ - x.times(y)@ * ONE_RAW < ONE_RAW,
        x@ * y@ >= 0 ==> 0 <= x@ * y@ - x.times(y)@ * ONE_RAW,
{
    lemma_truncated_quotient_remainder(x@ * y@, ONE_RAW as int);
}

/// A quotient by a positive scalar that fits, times the divisor, differs
/// from the dividend by less than the divisor.
pub proof fn lemma_over_near(x: Scalar, y: Scalar)
    requires
        y@ > 0,
        x.quotient_fits(y),
    ensures
        -y@ < x@ * ONE_RAW - x.over(y)@ * y@ < y@,
{
    lemma_truncated_quotient_remainder(x@ * ONE_RAW, y@);
}

/// The square root of a scalar that is not negative is never clamped: it
/// is the integer square root of the raw value times the raw one.
pub proof fn lemma_root_near(x: Scalar)
    requires
        x@ >= 0,
    ensures
        is_integer_root(x@ * ONE_RAW, x.root()@),
{
    let n = x@ * ONE_RAW;
    lemma_integer_root_exists(n);
    let r = integer_root(n);
    if r > MAX_RAW {
        assert(r * r > n) by (nonlinear_arith)
            requires
                r > 0x7fff_ffff_ffff_ffff,
                n <= 0x7fff_ffff_ffff_ffff * 0x1_0000_0000,
        ;
    }
}

/// Every number that is not negative has an integer square root.
pub proof fn lemma_integer_root_exists(n: int)
    requires
        n >= 0,
    ensures
        is_integer_root(n, integer_root(n)),
    decreases n,
{
    if n == 0 {
        assert(is_integer_root(0, 0));
    } else {
        lemma_integer_root_exists(n - 1);
        let r = integer_root(n - 1);
        if n < (r + 1) * (r + 1) {
            assert(is_integer_root(n, r));
        } else {
            assert((r + 2) * (r + 2) > (r + 1) * (r + 1)) by (nonlinear_arith)
                requires
                    r >= 0,
            ;
            assert(is_integer_root(n, r + 1));
        }
    }
}

/// A quotient whose dividend is no greater in magnitude than its divisor is
/// at most one in magnitude. So is one whose dividend is greater by a
/// single unit, where the divisor is above one.
pub proof fn lemma_quotient_at_most_one(n: int, d: int)
    requires
        d > 0,
        magnitude(n) <= d || (magnitude(n) <= d + 1 && d > ONE_RAW),
    ensures
        magnitude(truncated_quotient(n * ONE_RAW, d)) <= ONE_RAW,
        magnitude(n) >= d ==> magnitude(truncated_quotient(n * ONE_RAW, d)) == ONE_RAW,
{
    lemma_magnitude_of_product(n, ONE_RAW as int);
    let m = magnitude(n);
    assert((m * ONE_RAW) / d <= ONE_RAW) by (nonlinear_arith)
        requires
            d > 0,
            0 <= m,
            m <= d || (m <= d + 1 && d > ONE_RAW),
    ;
    assert((m * ONE_RAW) / d >= 0) by (nonlinear_arith)
        requires
            d > 0,
            0 <= m,
    ;
    if m >= d {
        assert((m * ONE_RAW) / d >= ONE_RAW) by (nonlinear_arith)
            requires
                d > 0,
                m >= d,
        ;
    }
}

/// The square of a scalar of at most one in magnitude lies between zero and
/// one, and is one where the magnitude is one.
pub proof fn lemma_square_of_fraction(x: Scalar)
    requires
        magnitude(x@) <= ONE_RAW,
    ensures
        0 <= x.times(x)@ <= ONE_RAW,
        magnitude(x@) == ONE_RAW ==> x.times(x)@ == ONE_RAW,
{
    lemma_magnitude_of_product(x@, x@);
    let m = magnitude(x@);
    assert(0 <= (m * m) / (ONE_RAW as int) <= ONE_RAW) by (nonlinear_arith)
        requires
            0 <= m <= ONE_RAW,
    ;
    assert(x@ * x@ >= 0) by (nonlinear_arith);
    if m == ONE_RAW {
        assert((m * m) / (ONE_RAW as int) == ONE_RAW) by (nonlinear_arith)
            requires
                m == ONE_RAW,
        ;
    }
}

/// The product of two scalars between zero and one lies between zero and
/// each of the two. Where the second is at least one half, the product
/// falls short of the first by at most one half.
pub proof fn lemma_times_of_fractions(x: Scalar, k: Scalar)
    requires
        0 <= x@ <= ONE_RAW,
        0 <= k@ <= ONE_RAW,
    ensures
        0 <= x.times(k)@ <= x@,
        x.times(k)@ <= k@,
        2 * k@ >= ONE_RAW ==> 2 * x.times(k)@ >= 2 * x@ - ONE_RAW,
{
    let one = ONE_RAW as int;
    let p = x@ * k@;
    assert(0 <= p && p <= x@ * one && p <= k@ * one) by (nonlinear_arith)
        requires
            p == x@ * k@,
            0 <= x@ <= one,
            0 <= k@ <= one,
    ;
    assert(0 <= p / one <= x@ && p / one <= k@) by (nonlinear_arith)
        requires
            0 <= p,
            p <= x@ * one,
            p <= k@ * one,
            one > 0,
    ;
    if 2 * k@ >= one {
        assert(2 * p >= (2 * x@ - one) * one) by (nonlinear_arith)
            requires
                p == x@ * k@,
                0 <= x@ <= one,
                2 * k@ >= one,
        ;
        assert(2 * (p / one) >= 2 * x@ - one) by (nonlinear_arith)
            requires
                2 * p >= (2 * x@ - one) * one,
                one == 0x1_0000_0000,
                0 <= p,
        ;
    }
}

} // verus!
