//! Axis-aligned bounding boxes.
use vstd::prelude::*;
use crate::fixed::{Fixed, HALF, INF, NEG_INF, fadd, fsub, fmul, fdiv, fmin, fmax, sat, mag, with_sign,
    spec_fadd, spec_fsub, spec_fmul, spec_fdiv, spec_fmin, spec_fmax};
use crate::interval::{Interval, lemma_interval_union_contains};
use crate::ray::Ray;
use crate::vec3::Vec3;

verus! {

/// The least thickness of a box along any axis, about 1e-4.
pub const MIN_THICKNESS: i64 = 1678;

/// A box given by one interval per axis.
#[derive(Clone, Copy, Debug, PartialEq, Eq, Structural)]
pub struct aabb {
    pub x: Interval,
    pub y: Interval,
    pub z: Interval,
}

/// Whether an interval is not empty and keeps `MIN_THICKNESS` away from both
/// infinities, so that padding it does not saturate.
pub open spec fn finite_extent(i: Interval) -> bool {
    i.min <= i.max && NEG_INF + MIN_THICKNESS <= i.min && i.max <= INF - MIN_THICKNESS
}

/// An interval narrower than `MIN_THICKNESS` widened by that much; any other
/// interval unchanged.
pub open spec fn spec_pad_interval(i: Interval) -> Interval {
    if i.size() < MIN_THICKNESS {
        i.expand(MIN_THICKNESS)
    } else {
        i
    }
}

/// The interval from the smaller to the larger of two coordinates.
pub open spec fn spec_span(a: i64, b: i64) -> Interval {
    if a < b {
        Interval { min: a, max: b }
    } else {
        Interval { min: b, max: a }
    }
}

/// The part of the parameter interval `t` in which a ray with origin
/// coordinate `o` and direction coordinate `d` lies between the two planes of
/// `ax`.
///
/// A ray that runs parallel to the planes (`d == 0`) is handled apart: it
/// keeps `t` when its origin lies strictly between them and gets the empty
/// interval otherwise.
pub open spec fn spec_slab(ax: Interval, o: i64, d: i64, t: Interval) -> Interval {
    if d == 0 {
        if ax.min < o && o < ax.max {
            t
        } else {
            Interval::empty()
        }
    } else {
        let t0 = fdiv(fsub(ax.min, o), d);
        let t1 = fdiv(fsub(ax.max, o), d);
        let near = fmin(t0, t1);
        let far = fmax(t0, t1);
        Interval { min: fmax(t.min, near), max: fmin(t.max, far) }
    }
}

/// The part of the parameter interval `t` in which a ray with origin
/// coordinate `o` and direction coordinate `d` lies between the two planes of
/// `ax`.
///
/// A ray that runs parallel to the planes (`d == 0`) is handled apart: it
/// keeps `t` when its origin lies strictly between them and gets the empty
/// interval otherwise.
#[verifier::when_used_as_spec(spec_slab)]
pub fn slab(ax: Interval, o: Fixed, d: Fixed, t: Interval) -> (r: Interval)
    ensures
        r == spec_slab(ax, o, d, t),
{
    if d == 0 {
        if ax.min < o && o < ax.max {
            t
        } else {
            Interval::empty()
        }
    } else {
        let t0: i64 = fdiv(fsub(ax.min, o), d);
        let t1: i64 = fdiv(fsub(ax.max, o), d);
        let mut out = t;
        if t0 < t1 {
            if t0 > out.min {
                out.min = t0;
            }
            if t1 < out.max {
                out.max = t1;
            }
        } else {
            if t1 > out.min {
                out.min = t1;
            }
            if t0 < out.max {
                out.max = t0;
            }
        }
        out
    }
}

impl aabb {
    /// The box that holds nothing.
    pub open spec fn spec_empty() -> aabb {
        aabb { x: Interval::empty(), y: Interval::empty(), z: Interval::empty() }
    }

    /// The box that holds nothing.
    #[verifier::when_used_as_spec(spec_empty)]
    pub fn empty() -> (b: aabb)
        ensures
            b == Self::spec_empty(),
    {
        aabb { x: Interval::empty(), y: Interval::empty(), z: Interval::empty() }
    }

    /// The box that holds everything.
    pub open spec fn spec_universe() -> aabb {
        aabb { x: Interval::universe(), y: Interval::universe(), z: Interval::universe() }
    }

    /// The box that holds everything.
    #[verifier::when_used_as_spec(spec_universe)]
    pub fn universe() -> (b: aabb)
        ensures
            b == Self::spec_universe(),
    {
        aabb { x: Interval::universe(), y: Interval::universe(), z: Interval::universe() }
    }

    /// Whether the point `p` lies in the box.
    pub open spec fn contains(&self, p: Vec3) -> bool {
        self.x.contains(p.x) && self.y.contains(p.y) && self.z.contains(p.z)
    }

    /// Whether no upper bound of the box is the one value below `NEG_INF`.
    /// Every box that a constructor makes is bounded in this way.
    pub open spec fn bounded_above(&self) -> bool {
        self.x.max >= NEG_INF && self.y.max >= NEG_INF && self.z.max >= NEG_INF
    }

    /// Whether every axis is at least `MIN_THICKNESS` thick.
    pub open spec fn padded(&self) -> bool {
        self.x.size() >= MIN_THICKNESS && self.y.size() >= MIN_THICKNESS && self.z.size() >= MIN_THICKNESS
    }

    /// The box with every axis narrower than `MIN_THICKNESS` widened.
    pub open spec fn spec_pad(&self) -> aabb {
        aabb { x: spec_pad_interval(self.x), y: spec_pad_interval(self.y), z: spec_pad_interval(self.z) }
    }

    /// The box of three intervals, padded.
    pub open spec fn spec_new(x: Interval, y: Interval, z: Interval) -> aabb {
        (aabb { x, y, z }).spec_pad()
    }

    /// The box of three intervals, padded. The result is at least
    /// `MIN_THICKNESS` thick on every axis whose interval is a finite extent.
    #[verifier::when_used_as_spec(spec_new)]
    pub fn new(x: Interval, y: Interval, z: Interval) -> (b: aabb)
        ensures
            b == Self::spec_new(x, y, z),
            finite_extent(x) && finite_extent(y) && finite_extent(z) ==> b.padded(),
            b.bounded_above(),
            x.size() >= MIN_THICKNESS ==> b.x == x,
            y.size() >= MIN_THICKNESS ==> b.y == y,
            z.size() >= MIN_THICKNESS ==> b.z == z,
            b.x.max >= x.max && b.y.max >= y.max && b.z.max >= z.max,
            x.min >= NEG_INF ==> b.x.min <= x.min,
            y.min >= NEG_INF ==> b.y.min <= y.min,
            z.min >= NEG_INF ==> b.z.min <= z.min,
    {
        let mut tmp = aabb { x, y, z };
        tmp.pad_to_minimums();
        proof {
            lemma_pad_widens(x);
            lemma_pad_widens(y);
            lemma_pad_widens(z);
            if finite_extent(x) && finite_extent(y) && finite_extent(z) {
                lemma_pad_interval(x);
                lemma_pad_interval(y);
                lemma_pad_interval(z);
            }
        }
        tmp
    }

    /// The box with the opposite corners `p0` and `p1`, padded.
    pub open spec fn spec_new_from_points(p0: Vec3, p1: Vec3) -> aabb {
        (aabb { x: spec_span(p0.x, p1.x), y: spec_span(p0.y, p1.y), z: spec_span(p0.z, p1.z) }).spec_pad()
    }

    /// The box with corners `p0` and `p1`, padded. The result is at least
    /// `MIN_THICKNESS` thick on every axis if no coordinate is within
    /// `MIN_THICKNESS` of an infinity.
    #[verifier::when_used_as_spec(spec_new_from_points)]
    pub fn new_from_points(p0: Vec3, p1: Vec3) -> (b: aabb)
        ensures
            b == Self::spec_new_from_points(p0, p1),
            finite_extent(spec_span(p0.x, p1.x)) && finite_extent(spec_span(p0.y, p1.y)) && finite_extent(
                spec_span(p0.z, p1.z),
            ) ==> b.padded(),
            b.bounded_above(),
            p0.x >= NEG_INF && p0.y >= NEG_INF && p0.z >= NEG_INF && p1.x >= NEG_INF && p1.y >= NEG_INF && p1.z
                >= NEG_INF ==> b.contains(p0) && b.contains(p1),
    {
        let x = if p0.x < p1.x {
            Interval::new(p0.x, p1.x)
        } else {
            Interval::new(p1.x, p0.x)
        };
        let y = if p0.y < p1.y {
            Interval::new(p0.y, p1.y)
        } else {
            Interval::new(p1.y, p0.y)
        };
        let z = if p0.z < p1.z {
            Interval::new(p0.z, p1.z)
        } else {
            Interval::new(p1.z, p0.z)
        };
        let mut tmp = aabb { x, y, z };
        tmp.pad_to_minimums();
        proof {
            lemma_pad_widens(x);
            lemma_pad_widens(y);
            lemma_pad_widens(z);
            if finite_extent(x) && finite_extent(y) && finite_extent(z) {
                lemma_pad_interval(x);
                lemma_pad_interval(y);
                lemma_pad_interval(z);
            }
        }
        tmp
    }

    /// Widens every axis that is narrower than `MIN_THICKNESS`.
    pub fn pad_to_minimums(&mut self)
        ensures
            *final(self) == old(self).spec_pad(),
    {
        let delta: i64 = MIN_THICKNESS;
        if self.x.size() < delta {
            self.x = self.x.expand(delta);
        }
        if self.y.size() < delta {
            self.y = self.y.expand(delta);
        }
        if self.z.size() < delta {
            self.z = self.z.expand(delta);
        }
    }

    /// The smallest box that covers both boxes, before it is padded.
    pub open spec fn spec_join(box0: &aabb, box1: &aabb) -> aabb {
        aabb {
            x: Interval::new_from_intervals(&box0.x, &box1.x),
            y: Interval::new_from_intervals(&box0.y, &box1.y),
            z: Interval::new_from_intervals(&box0.z, &box1.z),
        }
    }

    /// The smallest box that covers both boxes, padded.
    #[verifier::opaque]
    pub open spec fn spec_new_from_aabbs(box0: &aabb, box1: &aabb) -> aabb {
        Self::spec_join(box0, box1).spec_pad()
    }

    /// The union of two boxes, padded. It holds every point of either box.
    /// It is at least `MIN_THICKNESS` thick on every axis if the smallest
    /// box that covers both is a finite extent on every axis, and also if
    /// one of the two boxes is that thick; in the second case nothing is
    /// padded.
    #[verifier::when_used_as_spec(spec_new_from_aabbs)]
    pub fn new_from_aabbs(box0: &aabb, box1: &aabb) -> (b: aabb)
        ensures
            b == Self::spec_new_from_aabbs(box0, box1),
            forall|p: Vec3|
                (box0.contains(p) || box1.contains(p)) && p.x >= NEG_INF && p.y >= NEG_INF && p.z >= NEG_INF
                    ==> #[trigger] b.contains(p),
            finite_extent(Self::spec_join(box0, box1).x) && finite_extent(Self::spec_join(box0, box1).y)
                && finite_extent(Self::spec_join(box0, box1).z) ==> b.padded(),
            box0.padded() || box1.padded() ==> b.padded() && b == Self::spec_join(box0, box1),
            b.bounded_above(),
    {
        let x = Interval::new_from_intervals(&box0.x, &box1.x);
        let y = Interval::new_from_intervals(&box0.y, &box1.y);
        let z = Interval::new_from_intervals(&box0.z, &box1.z);
        let mut tmp = aabb { x, y, z };
        tmp.pad_to_minimums();
        proof {
            reveal(aabb::spec_new_from_aabbs);
            lemma_pad_widens(x);
            lemma_pad_widens(y);
            lemma_pad_widens(z);
            if finite_extent(x) && finite_extent(y) && finite_extent(z) {
                lemma_pad_interval(x);
                lemma_pad_interval(y);
                lemma_pad_interval(z);
            }
        }
        tmp
    }

    /// The interval of axis `n`: y for 1, z for 2, x for anything else.
    pub open spec fn spec_axis_interval(&self, n: usize) -> Interval {
        if n == 1 {
            self.y
        } else if n == 2 {
            self.z
        } else {
            self.x
        }
    }

    /// The interval of axis `n`: y for 1, z for 2, x for anything else.
    #[verifier::when_used_as_spec(spec_axis_interval)]
    pub fn axis_interval(&self, n: usize) -> (i: Interval)
        ensures
            i == self.spec_axis_interval(n),
    {
        if n == 1 {
            self.y
        } else if n == 2 {
            self.z
        } else {
            self.x
        }
    }

    /// The axis along which the box is longest. Ties are broken in a fixed
    /// order: x wins only if it is strictly longer than both y and z; if x
    /// is strictly longer than y but not than z, the answer is z; otherwise
    /// y wins only if it is strictly longer than z, and z is the answer in
    /// every remaining case.
    pub open spec fn spec_longest_axis(&self) -> usize {
        if self.x.size() > self.y.size() {
            if self.x.size() > self.z.size() {
                0
            } else {
                2
            }
        } else {
            if self.y.size() > self.z.size() {
                1
            } else {
                2
            }
        }
    }

    /// The axis along which the box is longest. Ties are broken in a fixed
    /// order: x wins only if it is strictly longer than both y and z; if x
    /// is strictly longer than y but not than z, the answer is z; otherwise
    /// y wins only if it is strictly longer than z, and z is the answer in
    /// every remaining case.
    #[verifier::when_used_as_spec(spec_longest_axis)]
    pub fn longest_axis(&self) -> (axis: usize)
        ensures
            axis == self.spec_longest_axis(),
            axis < 3,
    {
        if self.x.size() > self.y.size() {
            if self.x.size() > self.z.size() {
                0
            } else {
                2
            }
        } else {
            if self.y.size() > self.z.size() {
                1
            } else {
                2
            }
        }
    }

    /// The parameter interval left of `t` after the three slabs of the box.
    pub open spec fn spec_clip(&self, r: &Ray, t: Interval) -> Interval {
        let tx = slab(self.x, r.orig.x, r.dir.x, t);
        let ty = slab(self.y, r.orig.y, r.dir.y, tx);
        slab(self.z, r.orig.z, r.dir.z, ty)
    }

    /// Whether the ray passes through the box for some parameter in `t`:
    /// the three slabs leave an interval with `min < max`.
    #[verifier::opaque]
    pub open spec fn spec_hit(&self, r: &Ray, t: Interval) -> bool {
        self.spec_clip(r, t).min < self.spec_clip(r, t).max
    }

    /// Whether the ray passes through the box for some parameter in `t`:
    /// the three slabs leave an interval with `min < max`.
    #[verifier::when_used_as_spec(spec_hit)]
    pub fn hit(&self, r: &Ray, t: Interval) -> (b: bool)
        ensures
            b == self.spec_hit(r, t),
    {
        proof {
            reveal(aabb::spec_hit);
        }
        let ray_orig = r.origin();
        let ray_dir = r.direction();
        let mut clip = t;
        let mut axis: usize = 0;
        while axis < 3
            invariant
                axis <= 3,
                ray_orig == r.orig,
                ray_dir == r.dir,
                axis == 0 ==> clip == t,
                axis == 1 ==> clip == slab(self.x, r.orig.x, r.dir.x, t),
                axis == 2 ==> clip == slab(self.y, r.orig.y, r.dir.y, slab(self.x, r.orig.x, r.dir.x, t)),
                axis == 3 ==> clip == self.spec_clip(r, t),
            decreases 3 - axis,
        {
            let ax = self.axis_interval(axis);
            clip = slab(ax, ray_orig.get(axis), ray_dir.get(axis), clip);
            axis += 1;
        }
        if clip.min >= clip.max {
            return false;
        }
        true
    }

    /// The box moved by `offset`.
    pub open spec fn spec_add(self, offset: Vec3) -> aabb {
        aabb { x: self.x.add(offset.x), y: self.y.add(offset.y), z: self.z.add(offset.z) }
    }

    /// The box moved by `offset`.
    #[verifier::when_used_as_spec(spec_add)]
    pub fn add(self, offset: Vec3) -> (b: aabb)
        ensures
            b == self.spec_add(offset),
            b.bounded_above(),
    {
        aabb { x: self.x.add(offset.x), y: self.y.add(offset.y), z: self.z.add(offset.z) }
    }
}

/// Padding a finite extent gives an interval at least `MIN_THICKNESS` wide.
pub proof fn lemma_pad_interval(i: Interval)
    requires
        finite_extent(i),
    ensures
        spec_pad_interval(i).size() >= MIN_THICKNESS,
{
    lemma_half_thickness();
}

/// The value of half the least thickness.
pub proof fn lemma_half_thickness()
    ensures
        fmul(MIN_THICKNESS, HALF) == 839,
{
    let p = mag(MIN_THICKNESS as int) * mag(HALF as int);
    assert(p == 14076084224) by (nonlinear_arith)
        requires
            p == mag(MIN_THICKNESS as int) * mag(HALF as int),
            mag(MIN_THICKNESS as int) == 1678,
            mag(HALF as int) == 0x80_0000,
    ;
    assert(p / 0x100_0000 == 839);
}

/// Padding takes nothing away from an interval but the one value below
/// `NEG_INF`, and leaves an upper bound that is not below `NEG_INF`.
pub proof fn lemma_pad_widens(i: Interval)
    ensures
        spec_pad_interval(i).max >= i.max,
        spec_pad_interval(i).max >= NEG_INF,
        spec_pad_interval(i).min <= i.min || spec_pad_interval(i).min == NEG_INF,
{
    lemma_half_thickness();
}

/// Whatever lies in one of two boxes lies in their union. The one value
/// below `NEG_INF`, which no arithmetic gives, is left out: padding a thin
/// interval that starts there moves its start to `NEG_INF`.
pub proof fn lemma_union_contains(a: aabb, b: aabb, p: Vec3)
    requires
        a.contains(p) || b.contains(p),
        p.x >= NEG_INF,
        p.y >= NEG_INF,
        p.z >= NEG_INF,
    ensures
        aabb::new_from_aabbs(&a, &b).contains(p),
{
    reveal(aabb::spec_new_from_aabbs);
    lemma_interval_union_contains(a.x, b.x, p.x);
    lemma_interval_union_contains(a.y, b.y, p.y);
    lemma_interval_union_contains(a.z, b.z, p.z);
    lemma_pad_widens(aabb::spec_join(&a, &b).x);
    lemma_pad_widens(aabb::spec_join(&a, &b).y);
    lemma_pad_widens(aabb::spec_join(&a, &b).z);
}

/// The union of two boxes of which one is at least `MIN_THICKNESS` thick is
/// the smallest box that covers both: nothing is padded.
pub proof fn lemma_union_of_thick(a: aabb, b: aabb)
    requires
        a.padded() || b.padded(),
    ensures
        aabb::new_from_aabbs(&a, &b) == aabb::spec_join(&a, &b),
        aabb::new_from_aabbs(&a, &b).padded(),
{
    reveal(aabb::spec_new_from_aabbs);
}

/// The union of two boxes is bounded above.
pub proof fn lemma_union_bounded(a: aabb, b: aabb)
    ensures
        aabb::new_from_aabbs(&a, &b).bounded_above(),
{
    reveal(aabb::spec_new_from_aabbs);
    lemma_pad_widens(aabb::spec_join(&a, &b).x);
    lemma_pad_widens(aabb::spec_join(&a, &b).y);
    lemma_pad_widens(aabb::spec_join(&a, &b).z);
}

/// The union of two boxes does not depend on their order.
pub proof fn lemma_union_commutative(a: aabb, b: aabb)
    ensures
        aabb::new_from_aabbs(&a, &b) == aabb::new_from_aabbs(&b, &a),
{
    reveal(aabb::spec_new_from_aabbs);
}

/// The union of three boxes does not depend on the grouping, if padding
/// does not come between: the middle box, or both outer boxes, are at least
/// `MIN_THICKNESS` thick.
pub proof fn lemma_union_associative(a: aabb, b: aabb, c: aabb)
    requires
        b.padded() || (a.padded() && c.padded()),
    ensures
        aabb::new_from_aabbs(&aabb::new_from_aabbs(&a, &b), &c) == aabb::new_from_aabbs(
            &a,
            &aabb::new_from_aabbs(&b, &c),
        ),
{
    lemma_union_of_thick(a, b);
    lemma_union_of_thick(b, c);
    lemma_union_of_thick(aabb::new_from_aabbs(&a, &b), c);
    lemma_union_of_thick(a, aabb::new_from_aabbs(&b, &c));
}

/// The union of a box with itself is that box, padded; it is the box itself
/// if the box is at least `MIN_THICKNESS` thick.
pub proof fn lemma_union_idempotent(a: aabb)
    ensures
        aabb::new_from_aabbs(&a, &a) == a.spec_pad(),
        a.padded() ==> aabb::new_from_aabbs(&a, &a) == a,
{
    reveal(aabb::spec_new_from_aabbs);
}

} // verus!
