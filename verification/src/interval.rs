//! Ranges of scalars that bound the distances accepted along a ray.

use crate::scalar::{Scalar, MAX_RAW};
use vstd::prelude::*;

verus! {

/// The range between `min` and `max`.
#[derive(Clone, Copy, Debug, PartialEq, Eq, Structural)]
pub struct Interval {
    pub min: Scalar,
    pub max: Scalar,
}

impl Interval {
    /// Whether `x` lies in the range, bounds included.
    pub open spec fn holds(self, x: Scalar) -> bool {
        self.min@ <= x@ <= self.max@
    }

    /// Whether `x` lies strictly between the bounds.
    pub open spec fn encloses(self, x: Scalar) -> bool {
        self.min@ < x@ < self.max@
    }

    /// The value of the range nearest to `x`; the lower bound wins when the
    /// bounds are crossed.
    pub open spec fn nearest(self, x: Scalar) -> Scalar {
        if x@ < self.min@ {
            self.min
        } else if x@ > self.max@ {
            self.max
        } else {
            x
        }
    }

    /// The same range with its upper bound replaced by `max`.
    pub open spec fn up_to(self, max: Scalar) -> Interval {
        Interval { min: self.min, max }
    }

    /// The range from `min` to `max`.
    pub fn new(min: Scalar, max: Scalar) -> (i: Interval)
        ensures
            i == (Interval { min, max }),
    {
        Interval { min, max }
    }

    /// The range that holds nothing: from the greatest scalar down to the least.
    pub fn empty() -> (i: Interval)
        ensures
            i.min@ == MAX_RAW,
            i.max@ == -MAX_RAW,
    {
        Interval { min: Scalar::from_raw(MAX_RAW), max: Scalar::from_raw(-MAX_RAW) }
    }

    /// The range from the least scalar to the greatest.
    pub fn universe() -> (i: Interval)
        ensures
            i.min@ == -MAX_RAW,
            i.max@ == MAX_RAW,
    {
        Interval { min: Scalar::from_raw(-MAX_RAW), max: Scalar::from_raw(MAX_RAW) }
    }

    /// The lower bound.
    pub fn min(&self) -> (r: Scalar)
        ensures
            r == self.min,
    {
        self.min
    }

    /// The upper bound.
    pub fn max(&self) -> (r: Scalar)
        ensures
            r == self.max,
    {
        self.max
    }

    /// The upper bound less the lower bound.
    pub fn size(&self) -> (r: Scalar)
        ensures
            r == self.max.minus(self.min),
    {
        self.max - self.min
    }

    /// Whether `x` lies in the range, bounds included.
    pub fn contains(&self, x: Scalar) -> (b: bool)
        ensures
            b == self.holds(x),
    {
        self.min.le(&x) && x.le(&self.max)
    }

    /// Whether `x` lies strictly between the bounds.
    pub fn surrounds(&self, x: Scalar) -> (b: bool)
        ensures
            b == self.encloses(x),
    {
        self.min.lt(&x) && x.lt(&self.max)
    }

    /// The value of the range nearest to `x`.
    pub fn clamp(&self, x: Scalar) -> (r: Scalar)
        ensures
            r == self.nearest(x),
    {
        if x.lt(&self.min) {
            self.min
        } else if x.gt(&self.max) {
            self.max
        } else {
            x
        }
    }
}

impl Default for Interval {
    fn default() -> (i: Interval)
        ensures
            i.min@ == -MAX_RAW,
            i.max@ == MAX_RAW,
    {
        Interval::universe()
    }
}

} // verus!
