//! Closed intervals of reals, possibly empty or unbounded.
use vstd::prelude::*;
use crate::fixed::{Fixed, HALF, INF, NEG_INF, fadd, fsub, fmul, fmin, fmax,
    spec_fadd, spec_fsub, spec_fmul, spec_fmin, spec_fmax};

verus! {

/// The interval `[min, max]`. It is empty when `min > max`.
#[derive(Clone, Copy, Debug, PartialEq, Eq, Structural)]
pub struct Interval {
    pub min: Fixed,
    pub max: Fixed,
}

impl Interval {
    /// The interval that holds nothing: `[INF, NEG_INF]`.
    pub open spec fn spec_empty() -> Interval {
        Interval { min: INF, max: NEG_INF }
    }

    /// The interval that holds nothing: `[INF, NEG_INF]`.
    #[verifier::when_used_as_spec(spec_empty)]
    pub fn empty() -> (i: Interval)
        ensures
            i == Self::spec_empty(),
    {
        Interval { min: INF, max: NEG_INF }
    }

    /// The interval that holds every value arithmetic produces:
    /// `[NEG_INF, INF]`.
    pub open spec fn spec_universe() -> Interval {
        Interval { min: NEG_INF, max: INF }
    }

    /// The interval that holds every value arithmetic produces:
    /// `[NEG_INF, INF]`.
    #[verifier::when_used_as_spec(spec_universe)]
    pub fn universe() -> (i: Interval)
        ensures
            i == Self::spec_universe(),
    {
        Interval { min: NEG_INF, max: INF }
    }

    /// The interval `[min, max]`.
    pub open spec fn spec_new(min: i64, max: i64) -> Interval {
        Interval { min, max }
    }

    /// The interval `[min, max]`.
    #[verifier::when_used_as_spec(spec_new)]
    pub fn new(min: Fixed, max: Fixed) -> (i: Interval)
        ensures
            i == Self::spec_new(min, max),
    {
        Interval { min, max }
    }

    /// The smallest interval that covers both `a` and `b`.
    pub open spec fn spec_new_from_intervals(a: &Interval, b: &Interval) -> Interval {
        Interval { min: fmin(a.min, b.min), max: fmax(a.max, b.max) }
    }

    /// The smallest interval that covers both `a` and `b`.
    #[verifier::when_used_as_spec(spec_new_from_intervals)]
    pub fn new_from_intervals(a: &Interval, b: &Interval) -> (i: Interval)
        ensures
            i == Self::spec_new_from_intervals(a, b),
    {
        Interval { min: fmin(a.min, b.min), max: fmax(a.max, b.max) }
    }

    /// `max - min`: negative for an empty interval.
    pub open spec fn spec_size(&self) -> i64 {
        fsub(self.max, self.min)
    }

    /// `max - min`: negative for an empty interval.
    #[verifier::when_used_as_spec(spec_size)]
    pub fn size(&self) -> (s: Fixed)
        ensures
            s == self.spec_size(),
    {
        fsub(self.max, self.min)
    }

    /// Whether `min <= t <= max`.
    pub open spec fn spec_contains(&self, t: i64) -> bool {
        t >= self.min && t <= self.max
    }

    /// Whether `min <= t <= max`.
    #[verifier::when_used_as_spec(spec_contains)]
    pub fn contains(&self, t: Fixed) -> (b: bool)
        ensures
            b == self.spec_contains(t),
    {
        t >= self.min && t <= self.max
    }

    /// Whether `min < t < max`.
    pub open spec fn spec_surrounds(&self, t: i64) -> bool {
        t > self.min && t < self.max
    }

    /// Whether `min < t < max`.
    #[verifier::when_used_as_spec(spec_surrounds)]
    pub fn surrounds(&self, t: Fixed) -> (b: bool)
        ensures
            b == self.spec_surrounds(t),
    {
        t > self.min && t < self.max
    }

    /// `x` moved to the nearer bound when it lies outside. The lower bound
    /// is tested first.
    pub open spec fn spec_clamp(&self, x: i64) -> i64 {
        if x < self.min {
            self.min
        } else if x > self.max {
            self.max
        } else {
            x
        }
    }

    /// `x` moved to the nearer bound when it lies outside. The lower bound
    /// is tested first.
    #[verifier::when_used_as_spec(spec_clamp)]
    pub fn clamp(&self, x: Fixed) -> (r: Fixed)
        ensures
            r == self.spec_clamp(x),
    {
        if x < self.min {
            self.min
        } else if x > self.max {
            self.max
        } else {
            x
        }
    }

    /// The interval widened by `delta / 2` on each side.
    pub open spec fn spec_expand(&self, delta: i64) -> Interval {
        Interval { min: fsub(self.min, fmul(delta, HALF)), max: fadd(self.max, fmul(delta, HALF)) }
    }

    /// The interval widened by `delta / 2` on each side.
    #[verifier::when_used_as_spec(spec_expand)]
    pub fn expand(&self, delta: Fixed) -> (i: Interval)
        ensures
            i == self.spec_expand(delta),
    {
        let padding: i64 = fmul(delta, HALF);
        Interval { min: fsub(self.min, padding), max: fadd(self.max, padding) }
    }

    /// The interval moved by `displacement`.
    pub open spec fn spec_add(self, displacement: i64) -> Interval {
        Interval { min: fadd(self.min, displacement), max: fadd(self.max, displacement) }
    }

    /// The interval moved by `displacement`.
    #[verifier::when_used_as_spec(spec_add)]
    pub fn add(self, displacement: Fixed) -> (i: Interval)
        ensures
            i == self.spec_add(displacement),
    {
        Interval { min: fadd(self.min, displacement), max: fadd(self.max, displacement) }
    }
}

/// Whatever lies in `a` or in `b` lies in their union.
pub proof fn lemma_interval_union_contains(a: Interval, b: Interval, t: i64)
    requires
        a.contains(t) || b.contains(t),
    ensures
        Interval::new_from_intervals(&a, &b).contains(t),
{
}
} // verus!
