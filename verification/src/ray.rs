//! Parametric rays.
use vstd::prelude::*;
use crate::fixed::Fixed;
use crate::vec3::Vec3;

verus! {

/// The ray `orig + t * dir`, cast at time `tm` in [0, 1).
#[derive(Clone, Copy, Debug, PartialEq, Eq, Structural)]
pub struct Ray {
    pub orig: Vec3,
    pub dir: Vec3,
    pub tm: Fixed,
}

impl Ray {
    /// A ray cast at time 0.
    pub open spec fn spec_new(orig: Vec3, dir: Vec3) -> Ray {
        Ray { orig, dir, tm: 0 }
    }

    /// A ray cast at time 0.
    #[verifier::when_used_as_spec(spec_new)]
    pub fn new(orig: Vec3, dir: Vec3) -> (r: Ray)
        ensures
            r == Self::spec_new(orig, dir),
    {
        Ray { orig, dir, tm: 0 }
    }

    /// A ray cast at time `tm`.
    pub open spec fn spec_new_with_time(orig: Vec3, dir: Vec3, tm: i64) -> Ray {
        Ray { orig, dir, tm }
    }

    /// A ray cast at time `tm`.
    #[verifier::when_used_as_spec(spec_new_with_time)]
    pub fn new_with_time(orig: Vec3, dir: Vec3, tm: Fixed) -> (r: Ray)
        ensures
            r == Self::spec_new_with_time(orig, dir, tm),
    {
        Ray { orig, dir, tm }
    }

    /// Where the ray starts.
    pub open spec fn spec_origin(&self) -> Vec3 {
        self.orig
    }

    /// Where the ray starts.
    #[verifier::when_used_as_spec(spec_origin)]
    pub fn origin(&self) -> (v: Vec3)
        ensures
            v == self.orig,
    {
        self.orig
    }

    /// Where the ray points. The direction need not have length one.
    pub open spec fn spec_direction(&self) -> Vec3 {
        self.dir
    }

    /// Where the ray points. The direction need not have length one.
    #[verifier::when_used_as_spec(spec_direction)]
    pub fn direction(&self) -> (v: Vec3)
        ensures
            v == self.dir,
    {
        self.dir
    }

    /// When the ray was cast.
    pub open spec fn spec_time(&self) -> i64 {
        self.tm
    }

    /// When the ray was cast.
    #[verifier::when_used_as_spec(spec_time)]
    pub fn time(&self) -> (t: Fixed)
        ensures
            t == self.tm,
    {
        self.tm
    }

    /// The point at parameter `t`: `dir * t + orig`.
    pub open spec fn spec_at(&self, t: i64) -> Vec3 {
        self.dir.scale(t).plus(self.orig)
    }

    /// The point at parameter `t`: `dir * t + orig`.
    #[verifier::when_used_as_spec(spec_at)]
    pub fn at(&self, t: Fixed) -> (p: Vec3)
        ensures
            p == self.spec_at(t),
    {
        self.dir.scale(t).plus(self.orig)
    }
}
} // verus!
