//! Three-component vectors: points, directions and colours.
use vstd::prelude::*;
use crate::fixed::{Fixed, ONE, TWO, lemma_fmul_zero, fadd, fsub, fmul, fdiv, fneg, fabs, fmin, fsqrt,
    spec_fadd, spec_fsub, spec_fmul, spec_fdiv, spec_fneg, spec_fabs, spec_fmin, spec_fsqrt};
use crate::raytracer::{Sampler, random_double, range_point, spec_range_point};

verus! {

/// Components whose magnitude is below this count as zero in `near_zero`.
pub const NEAR_ZERO: i64 = 1;

/// How often the rejection samplers draw before they fall back.
pub const MAX_TRIES: usize = 64;

#[derive(Clone, Copy, Debug, PartialEq, Eq, Structural)]
pub struct Vec3 {
    pub x: Fixed,
    pub y: Fixed,
    pub z: Fixed,
}

impl Vec3 {
    /// The vector with the components `x`, `y` and `z`.
    pub open spec fn spec_new(x: i64, y: i64, z: i64) -> Vec3 {
        Vec3 { x, y, z }
    }

    /// The vector with the components `x`, `y` and `z`.
    #[verifier::when_used_as_spec(spec_new)]
    pub fn new(x: Fixed, y: Fixed, z: Fixed) -> (v: Vec3)
        ensures
            v == Self::spec_new(x, y, z),
    {
        Vec3 { x, y, z }
    }

    /// The zero vector.
    pub open spec fn spec_zero() -> Vec3 {
        Vec3 { x: 0, y: 0, z: 0 }
    }

    /// The zero vector.
    #[verifier::when_used_as_spec(spec_zero)]
    pub fn zero() -> (v: Vec3)
        ensures
            v == Self::spec_zero(),
    {
        Vec3 { x: 0, y: 0, z: 0 }
    }

    /// The component on `axis`: 0 is x, 1 is y, 2 is z.
    pub open spec fn spec_get(self, axis: usize) -> i64 {
        if axis == 0 {
            self.x
        } else if axis == 1 {
            self.y
        } else {
            self.z
        }
    }

    /// The component on `axis`: 0 is x, 1 is y, 2 is z.
    #[verifier::when_used_as_spec(spec_get)]
    pub fn get(self, axis: usize) -> (c: Fixed)
        requires
            axis < 3,
        ensures
            c == self.spec_get(axis),
    {
        if axis == 0 {
            self.x
        } else if axis == 1 {
            self.y
        } else {
            self.z
        }
    }

    /// The vector with the components `a[0]`, `a[1]` and `a[2]`.
    pub open spec fn spec_from_array(a: [i64; 3]) -> Vec3 {
        Vec3 { x: a[0], y: a[1], z: a[2] }
    }

    /// The vector with the components `a[0]`, `a[1]` and `a[2]`.
    #[verifier::when_used_as_spec(spec_from_array)]
    pub fn from_array(a: [Fixed; 3]) -> (v: Vec3)
        ensures
            v == Self::spec_from_array(a),
    {
        Vec3 { x: a[0], y: a[1], z: a[2] }
    }

    /// The vector with every component negated.
    pub open spec fn spec_negated(self) -> Vec3 {
        Vec3 { x: fneg(self.x), y: fneg(self.y), z: fneg(self.z) }
    }

    /// The vector with every component negated.
    #[verifier::when_used_as_spec(spec_negated)]
    pub fn negated(self) -> (v: Vec3)
        ensures
            v == self.spec_negated(),
    {
        Vec3 { x: fneg(self.x), y: fneg(self.y), z: fneg(self.z) }
    }

    /// The sum of two vectors.
    pub open spec fn spec_plus(self, o: Vec3) -> Vec3 {
        Vec3 { x: fadd(self.x, o.x), y: fadd(self.y, o.y), z: fadd(self.z, o.z) }
    }

    /// The sum of two vectors.
    #[verifier::when_used_as_spec(spec_plus)]
    pub fn plus(self, o: Vec3) -> (v: Vec3)
        ensures
            v == self.spec_plus(o),
    {
        Vec3 { x: fadd(self.x, o.x), y: fadd(self.y, o.y), z: fadd(self.z, o.z) }
    }

    /// The difference of two vectors.
    pub open spec fn spec_minus(self, o: Vec3) -> Vec3 {
        Vec3 { x: fsub(self.x, o.x), y: fsub(self.y, o.y), z: fsub(self.z, o.z) }
    }

    /// The difference of two vectors.
    #[verifier::when_used_as_spec(spec_minus)]
    pub fn minus(self, o: Vec3) -> (v: Vec3)
        ensures
            v == self.spec_minus(o),
    {
        Vec3 { x: fsub(self.x, o.x), y: fsub(self.y, o.y), z: fsub(self.z, o.z) }
    }

    /// The component-wise product.
    pub open spec fn spec_times(self, o: Vec3) -> Vec3 {
        Vec3 { x: fmul(self.x, o.x), y: fmul(self.y, o.y), z: fmul(self.z, o.z) }
    }

    /// The component-wise product.
    #[verifier::when_used_as_spec(spec_times)]
    pub fn times(self, o: Vec3) -> (v: Vec3)
        ensures
            v == self.spec_times(o),
    {
        Vec3 { x: fmul(self.x, o.x), y: fmul(self.y, o.y), z: fmul(self.z, o.z) }
    }

    /// The vector with every component multiplied by `t`.
    pub open spec fn spec_scale(self, t: i64) -> Vec3 {
        Vec3 { x: fmul(self.x, t), y: fmul(self.y, t), z: fmul(self.z, t) }
    }

    /// The vector with every component multiplied by `t`.
    #[verifier::when_used_as_spec(spec_scale)]
    pub fn scale(self, t: Fixed) -> (v: Vec3)
        ensures
            v == self.spec_scale(t),
    {
        Vec3 { x: fmul(self.x, t), y: fmul(self.y, t), z: fmul(self.z, t) }
    }

    /// The vector with every component divided by `t`.
    pub open spec fn spec_over(self, t: i64) -> Vec3 {
        Vec3 { x: fdiv(self.x, t), y: fdiv(self.y, t), z: fdiv(self.z, t) }
    }

    /// Each component divided by `t`.
    #[verifier::when_used_as_spec(spec_over)]
    pub fn over(self, t: Fixed) -> (v: Vec3)
        ensures
            v == self.spec_over(t),
    {
        Vec3 { x: fdiv(self.x, t), y: fdiv(self.y, t), z: fdiv(self.z, t) }
    }

    /// The dot product: the sum of the products of the components.
    pub open spec fn spec_dot(self, o: Vec3) -> i64 {
        fadd(fadd(fmul(self.x, o.x), fmul(self.y, o.y)), fmul(self.z, o.z))
    }

    /// The dot product: the sum of the products of the components.
    #[verifier::when_used_as_spec(spec_dot)]
    pub fn dot(self, o: Vec3) -> (d: Fixed)
        ensures
            d == self.spec_dot(o),
    {
        fadd(fadd(fmul(self.x, o.x), fmul(self.y, o.y)), fmul(self.z, o.z))
    }

    /// The cross product `u x v`.
    pub open spec fn spec_cross(u: Vec3, v: Vec3) -> Vec3 {
        Vec3 {
            x: fsub(fmul(u.y, v.z), fmul(u.z, v.y)),
            y: fsub(fmul(u.z, v.x), fmul(u.x, v.z)),
            z: fsub(fmul(u.x, v.y), fmul(u.y, v.x)),
        }
    }

    /// The cross product `u x v`.
    #[verifier::when_used_as_spec(spec_cross)]
    pub fn cross(u: Vec3, v: Vec3) -> (w: Vec3)
        ensures
            w == Self::spec_cross(u, v),
    {
        Vec3 {
            x: fsub(fmul(u.y, v.z), fmul(u.z, v.y)),
            y: fsub(fmul(u.z, v.x), fmul(u.x, v.z)),
            z: fsub(fmul(u.x, v.y), fmul(u.y, v.x)),
        }
    }

    /// The dot product of the vector with itself.
    pub open spec fn spec_length_squared(self) -> i64 {
        self.spec_dot(self)
    }

    /// The dot product of the vector with itself.
    #[verifier::when_used_as_spec(spec_length_squared)]
    pub fn length_squared(self) -> (d: Fixed)
        ensures
            d == self.spec_length_squared(),
    {
        self.dot(self)
    }

    /// The square root of `length_squared`.
    pub open spec fn spec_length(self) -> i64 {
        fsqrt(self.spec_length_squared())
    }

    /// The square root of `length_squared`.
    #[verifier::when_used_as_spec(spec_length)]
    pub fn length(self) -> (d: Fixed)
        ensures
            d == self.spec_length(),
    {
        fsqrt(self.length_squared())
    }

    /// The vector divided by its length. The zero vector stays zero.
    pub open spec fn spec_normalize(self) -> Vec3 {
        self.spec_over(self.spec_length())
    }

    /// The vector divided by its length. The zero vector stays zero.
    #[verifier::when_used_as_spec(spec_normalize)]
    pub fn normalize(self) -> (v: Vec3)
        ensures
            v == self.spec_normalize(),
    {
        self.over(self.length())
    }

    /// Whether every component is below `NEAR_ZERO` in magnitude.
    pub open spec fn spec_near_zero(self) -> bool {
        fabs(self.x) < NEAR_ZERO && fabs(self.y) < NEAR_ZERO && fabs(self.z) < NEAR_ZERO
    }

    /// Whether every component is below `NEAR_ZERO` in magnitude.
    #[verifier::when_used_as_spec(spec_near_zero)]
    pub fn near_zero(self) -> (b: bool)
        ensures
            b == self.spec_near_zero(),
    {
        fabs(self.x) < NEAR_ZERO && fabs(self.y) < NEAR_ZERO && fabs(self.z) < NEAR_ZERO
    }

    /// The mirror image of `self` at the plane with normal `n`:
    /// `v - 2 * dot(v, n) * n`.
    pub open spec fn spec_reflect(self, n: Vec3) -> Vec3 {
        self.spec_minus(n.spec_scale(fmul(TWO, self.spec_dot(n))))
    }

    /// The mirror image of `self` at the plane with normal `n`:
    /// `v - 2 * dot(v, n) * n`.
    #[verifier::when_used_as_spec(spec_reflect)]
    pub fn reflect(self, n: Vec3) -> (v: Vec3)
        ensures
            v == self.spec_reflect(n),
    {
        self.minus(n.scale(fmul(TWO, self.dot(n))))
    }

    /// The direction of the unit vector `uv` after it crosses a surface with
    /// normal `n` and relative refraction index `ratio` (Snell's law):
    /// the part perpendicular to `n` is `ratio * (uv + cos * n)` with
    /// `cos = min(dot(-uv, n), 1)`, the parallel part is
    /// `-sqrt(|1 - perp^2|) * n`.
    pub open spec fn spec_refract(uv: Vec3, n: Vec3, ratio: i64) -> Vec3 {
        let cos_theta = fmin(uv.spec_negated().spec_dot(n), ONE);
        let perp = uv.spec_plus(n.spec_scale(cos_theta)).spec_scale(ratio);
        let parallel = n.spec_scale(fneg(fsqrt(fabs(fsub(ONE, perp.spec_length_squared())))));
        perp.spec_plus(parallel)
    }

    /// The direction of the unit vector `uv` after it crosses a surface with
    /// normal `n` and relative refraction index `ratio` (Snell's law):
    /// the part perpendicular to `n` is `ratio * (uv + cos * n)` with
    /// `cos = min(dot(-uv, n), 1)`, the parallel part is
    /// `-sqrt(|1 - perp^2|) * n`.
    #[verifier::when_used_as_spec(spec_refract)]
    pub fn refract(uv: Vec3, n: Vec3, ratio: Fixed) -> (v: Vec3)
        ensures
            v == Self::spec_refract(uv, n, ratio),
    {
        let cos_theta: i64 = fmin(uv.negated().dot(n), ONE);
        let perp = uv.plus(n.scale(cos_theta)).scale(ratio);
        let parallel = n.scale(fneg(fsqrt(fabs(fsub(ONE, perp.length_squared())))));
        perp.plus(parallel)
    }

    /// The point that three unit samples select in the cube `[min, max)^3`.
    pub open spec fn spec_in_cube(min: i64, max: i64, sx: i64, sy: i64, sz: i64) -> Vec3 {
        Vec3 { x: range_point(min, max, sx), y: range_point(min, max, sy), z: range_point(min, max, sz) }
    }

    /// The point that three unit samples select in the cube `[min, max)^3`.
    #[verifier::when_used_as_spec(spec_in_cube)]
    pub fn in_cube(min: Fixed, max: Fixed, sx: Fixed, sy: Fixed, sz: Fixed) -> (v: Vec3)
        ensures
            v == Self::spec_in_cube(min, max, sx, sy, sz),
    {
        Vec3 { x: range_point(min, max, sx), y: range_point(min, max, sy), z: range_point(min, max, sz) }
    }

    /// A random vector with each component in [0, 1).
    pub fn random(rng: &mut Sampler) -> (v: Vec3)
        ensures
            0 <= v.x < ONE,
            0 <= v.y < ONE,
            0 <= v.z < ONE,
    {
        let x: i64 = random_double(rng);
        let y: i64 = random_double(rng);
        let z: i64 = random_double(rng);
        Vec3 { x, y, z }
    }

    /// A random vector with each component in [min, max): `in_cube` of three
    /// unit samples.
    pub fn random_with_range(min: Fixed, max: Fixed, rng: &mut Sampler) -> (v: Vec3)
        ensures
            exists|sx: i64, sy: i64, sz: i64|
                0 <= sx < ONE && 0 <= sy < ONE && 0 <= sz < ONE && v == Self::in_cube(min, max, sx, sy, sz),
    {
        let sx: i64 = random_double(rng);
        let sy: i64 = random_double(rng);
        let sz: i64 = random_double(rng);
        Self::in_cube(min, max, sx, sy, sz)
    }

    /// The unit vector along `p`, if `p` is a usable candidate: not zero and
    /// not outside the unit ball.
    pub open spec fn spec_unit_from_candidate(p: Vec3) -> Option<Vec3> {
        let lensq = p.spec_length_squared();
        if 0 < lensq && lensq <= ONE {
            Some(p.spec_over(fsqrt(lensq)))
        } else {
            None
        }
    }

    /// The unit vector along `p`, if `p` is a usable candidate: not zero and
    /// not outside the unit ball.
    #[verifier::when_used_as_spec(spec_unit_from_candidate)]
    pub fn unit_from_candidate(p: Vec3) -> (r: Option<Vec3>)
        ensures
            r == Self::spec_unit_from_candidate(p),
    {
        let lensq: i64 = p.length_squared();
        if 0 < lensq && lensq <= ONE {
            Some(p.over(fsqrt(lensq)))
        } else {
            None
        }
    }

    /// Whether `v` can come out of `random_unit_vector`: it is the unit
    /// vector of some candidate, or the x axis.
    pub open spec fn is_unit_sample(v: Vec3) -> bool {
        v == Vec3::new(ONE, 0, 0) || exists|p: Vec3| Self::unit_from_candidate(p) == Some(v)
    }

    /// A random direction of length one. Candidates are drawn from the cube
    /// [-1, 1)^3 until one lies in the unit ball and is not zero; after
    /// `MAX_TRIES` rejections the x axis is returned.
    pub fn random_unit_vector(rng: &mut Sampler) -> (v: Vec3)
        ensures
            Self::is_unit_sample(v),
    {
        let mut tries: usize = 0;
        while tries < MAX_TRIES
            invariant
                tries <= MAX_TRIES,
            decreases MAX_TRIES - tries,
        {
            let p = Self::random_with_range(-ONE, ONE, rng);
            match Self::unit_from_candidate(p) {
                Some(v) => {
                    return v;
                },
                None => {},
            }
            tries += 1;
        }
        Vec3::new(ONE, 0, 0)
    }

    /// Whether `p` lies in the open unit disk of the plane z = 0.
    pub open spec fn spec_in_unit_disk(p: Vec3) -> bool {
        p.z == 0 && p.spec_length_squared() < ONE
    }

    /// Whether `p` lies in the open unit disk of the plane z = 0.
    #[verifier::when_used_as_spec(spec_in_unit_disk)]
    pub fn in_unit_disk(p: Vec3) -> (b: bool)
        ensures
            b == Self::spec_in_unit_disk(p),
    {
        p.z == 0 && p.length_squared() < ONE
    }

    /// A random point of the unit disk in the plane z = 0. Candidates are
    /// drawn from the square [-1, 1)^2; after `MAX_TRIES` rejections the
    /// centre is returned.
    pub fn random_in_unit_disk(rng: &mut Sampler) -> (v: Vec3)
        ensures
            Self::in_unit_disk(v),
    {
        let mut tries: usize = 0;
        while tries < MAX_TRIES
            invariant
                tries <= MAX_TRIES,
            decreases MAX_TRIES - tries,
        {
            let sx: i64 = random_double(rng);
            let sy: i64 = random_double(rng);
            let p = Vec3::new(range_point(-ONE, ONE, sx), range_point(-ONE, ONE, sy), 0);
            if Self::in_unit_disk(p) {
                return p;
            }
            tries += 1;
        }
        proof {
            lemma_fmul_zero(0);
        }
        Vec3::zero()
    }
}
} // verus!
