//! Fog of constant density inside a boundary.
use std::sync::Arc;
use vstd::prelude::*;
use crate::aabb::aabb;
use crate::fixed::{Fixed, ONE, INF, fadd, fsub, fmul, fdiv, fneg,
    spec_fadd, spec_fsub, spec_fmul, spec_fdiv, spec_fneg};
use crate::hittable::{hit_record, share, Hittable};
use crate::interval::Interval;
use crate::material::{Material, Isotropic};
use crate::ray::Ray;
use crate::raytracer::{Sampler, random_double};
use crate::texture::texture;
use crate::trig::{fln, spec_fln};
use crate::vec3::Vec3;

verus! {

/// How far behind the entry into the boundary the search for the exit
/// starts, about 1e-4.
pub const EXIT_GAP: i64 = 1678;

/// A fog that fills `boundary`. A ray inside it scatters after a random
/// distance whose mean is the reciprocal of the density.
#[derive(Debug, PartialEq)]
pub struct constant_medium {
    pub boundary: Arc<Hittable>,
    /// `-1 / density`.
    pub neg_inv_density: Fixed,
    pub phase_function: Arc<Material>,
}

/// The part of a boundary crossing `[t_in, t_out]` that lies in `ray_t`,
/// starting no earlier than the ray's origin; nothing if `ray_t` leaves
/// none of the crossing.
pub open spec fn spec_clip_crossing(ray_t: Interval, t_in: i64, t_out: i64) -> Option<(i64, i64)> {
    let lo = if t_in < ray_t.min {
        ray_t.min
    } else {
        t_in
    };
    let hi = if t_out > ray_t.max {
        ray_t.max
    } else {
        t_out
    };
    if lo >= hi {
        None
    } else if lo < 0 {
        Some((0, hi))
    } else {
        Some((lo, hi))
    }
}

/// The part of a boundary crossing `[t_in, t_out]` that lies in `ray_t`,
/// starting no earlier than the ray's origin; nothing if `ray_t` leaves
/// none of the crossing.
#[verifier::when_used_as_spec(spec_clip_crossing)]
pub fn clip_crossing(ray_t: Interval, t_in: Fixed, t_out: Fixed) -> (r: Option<(Fixed, Fixed)>)
    ensures
        r == spec_clip_crossing(ray_t, t_in, t_out),
{
    let mut lo: i64 = t_in;
    let mut hi: i64 = t_out;
    if lo < ray_t.min {
        lo = ray_t.min;
    }
    if hi > ray_t.max {
        hi = ray_t.max;
    }
    if lo >= hi {
        return None;
    }
    if lo < 0 {
        lo = 0;
    }
    Some((lo, hi))
}

impl constant_medium {
    /// Whether everything inside is well formed.
    pub open spec fn wf(&self) -> bool
        decreases self,
    {
        self.boundary.wf() && self.phase_function.wf()
    }

    /// A fog of density `d` inside `b` whose colour comes from the texture
    /// `a`.
    pub fn new(b: Arc<Hittable>, d: Fixed, a: Arc<texture>) -> (m: constant_medium)
        ensures
            m.boundary == b,
            m.neg_inv_density == fdiv((-ONE) as i64, d),
            *m.phase_function == Material::Isotropic(Isotropic::spec_new(a)),
            b.wf() && a.wf() ==> m.wf(),
    {
        constant_medium {
            boundary: b,
            neg_inv_density: fdiv(-ONE, d),
            phase_function: Arc::new(Material::Isotropic(Isotropic::new(a))),
        }
    }

    /// A fog of density `d` inside `b` of the colour `c`.
    pub fn new_from_color(b: Arc<Hittable>, d: Fixed, c: Vec3) -> (m: constant_medium)
        ensures
            m.boundary == b,
            m.neg_inv_density == fdiv((-ONE) as i64, d),
            *m.phase_function == Material::Isotropic(Isotropic::spec_new_from_color(c)),
            b.wf() ==> m.wf(),
    {
        constant_medium {
            boundary: b,
            neg_inv_density: fdiv(-ONE, d),
            phase_function: Arc::new(Material::Isotropic(Isotropic::new_from_color(c))),
        }
    }

    /// The ray parameter at which a ray that is inside the fog from `lo` to
    /// `hi` scatters, for the unit sample `sample`. The free path is
    /// `-(1 / density) * ln(sample)`; the ray passes through when that is
    /// longer than its way inside the boundary, `(hi - lo) * |dir|`, and
    /// scatters at `lo + path / |dir|` otherwise.
    pub open spec fn spec_scatter_point(&self, r: &Ray, lo: i64, hi: i64, sample: i64) -> Option<i64> {
        let ray_length = r.dir.length();
        let distance_inside_boundary = fmul(fsub(hi, lo), ray_length);
        let hit_distance = fmul(self.neg_inv_density, fln(sample));
        if hit_distance > distance_inside_boundary {
            None
        } else {
            Some(fadd(lo, fdiv(hit_distance, ray_length)))
        }
    }

    /// Where the ray scatters between `lo` and `hi` for the unit sample `sample`, if it does.
    pub fn scatter_point(&self, r: &Ray, lo: Fixed, hi: Fixed, sample: Fixed) -> (t: Option<Fixed>)
        ensures
            t == self.spec_scatter_point(r, lo, hi, sample),
    {
        let ray_length: i64 = r.direction().length();
        let distance_inside_boundary: i64 = fmul(fsub(hi, lo), ray_length);
        let hit_distance: i64 = fmul(self.neg_inv_density, fln(sample));
        if hit_distance > distance_inside_boundary {
            return None;
        }
        Some(fadd(lo, fdiv(hit_distance, ray_length)))
    }

    /// The record of a scattering event at ray parameter `t`. The normal and
    /// the face are arbitrary, and the surface coordinates are those found
    /// in `before`.
    pub open spec fn spec_record_at(&self, r: &Ray, t: i64, before: hit_record) -> hit_record {
        hit_record {
            p: r.spec_at(t),
            normal: Vec3 { x: ONE, y: 0, z: 0 },
            mat: self.phase_function,
            t,
            u: before.u,
            v: before.v,
            front_face: true,
        }
    }

    /// What the fog answers for the unit sample `sample` when the ray is
    /// inside it from `lo` to `hi`: the record of the scattering event, or
    /// nothing if the ray passes through.
    pub open spec fn spec_scatter_outcome(&self, r: &Ray, lo: i64, hi: i64, sample: i64, before: hit_record) -> Option<
        hit_record,
    > {
        match self.spec_scatter_point(r, lo, hi, sample) {
            Some(t) => Some(self.spec_record_at(r, t, before)),
            None => None,
        }
    }

    /// Whether the hit test may end with `outcome` once the boundary has
    /// answered `entry` to the search for the way in and `exit` to the
    /// search for the way out. Without both, and without a part of the
    /// crossing inside `ray_t`, the ray passes; otherwise some unit sample
    /// decides.
    pub open spec fn outcome_for_crossing(
        &self,
        r: &Ray,
        ray_t: Interval,
        before: hit_record,
        entry: Option<hit_record>,
        exit: Option<hit_record>,
        outcome: Option<hit_record>,
    ) -> bool {
        match (entry, exit) {
            (Some(e), Some(x)) => match spec_clip_crossing(ray_t, e.t, x.t) {
                Some((lo, hi)) => exists|sample: i64|
                    0 <= sample < ONE && outcome == #[trigger] self.spec_scatter_outcome(r, lo, hi, sample, before),
                None => outcome is None,
            },
            _ => outcome is None,
        }
    }

    /// Whether a hit test that finds `before` in the record may end with
    /// `outcome`, the record of a scattering event or nothing. The
    /// boundary is searched for the way in, anywhere along the ray, and
    /// then for the way out, later than `EXIT_GAP` after the way in.
    pub open spec fn can_hit(&self, r: &Ray, ray_t: Interval, before: hit_record, outcome: Option<hit_record>) -> bool
        decreases self,
    {
        exists|entry: Option<hit_record>, exit: Option<hit_record>|
            #![trigger self.outcome_for_crossing(r, ray_t, before, entry, exit, outcome)]
            {
                &&& self.boundary.can_hit(r, Interval::universe(), hit_record::blank(), entry)
                &&& entry matches Some(e) ==> self.boundary.can_hit(
                    r,
                    Interval { min: fadd(e.t, EXIT_GAP), max: INF },
                    hit_record::blank(),
                    exit,
                )
                &&& self.outcome_for_crossing(r, ray_t, before, entry, exit, outcome)
            }
    }

    /// Decides whether the ray scatters in the fog inside `ray_t`. On a
    /// scattering event `rec` is overwritten with its record, otherwise it
    /// is left as it was.
    pub fn hit(&self, r: &Ray, ray_t: Interval, rec: &mut hit_record, rng: &mut Sampler) -> (hit: bool)
        requires
            self.wf(),
        ensures
            hit ==> *final(rec) == self.spec_record_at(r, final(rec).t, *old(rec)),
            !hit ==> *final(rec) == *old(rec),
            self.can_hit(
                r,
                ray_t,
                *old(rec),
                if hit {
                    Some(*final(rec))
                } else {
                    None
                },
            ),
        decreases self,
    {
        let mut rec1 = hit_record::blank();
        let mut rec2 = hit_record::blank();
        if !self.boundary.hit(r, Interval::universe(), &mut rec1, rng) {
            assert(self.outcome_for_crossing(r, ray_t, *old(rec), None, None, None));
            return false;
        }
        if !self.boundary.hit(r, Interval::new(fadd(rec1.t, EXIT_GAP), INF), &mut rec2, rng) {
            assert(self.outcome_for_crossing(r, ray_t, *old(rec), Some(rec1), None, None));
            return false;
        }
        let (lo, hi) = match clip_crossing(ray_t, rec1.t, rec2.t) {
            None => {
                assert(self.outcome_for_crossing(r, ray_t, *old(rec), Some(rec1), Some(rec2), None));
                return false;
            },
            Some(span) => span,
        };
        let sample: i64 = random_double(rng);
        let t: i64 = match self.scatter_point(r, lo, hi, sample) {
            None => {
                assert(self.spec_scatter_outcome(r, lo, hi, sample, *old(rec)) is None);
                assert(self.outcome_for_crossing(r, ray_t, *old(rec), Some(rec1), Some(rec2), None));
                return false;
            },
            Some(t) => t,
        };
        rec.t = t;
        rec.p = r.at(rec.t);
        rec.normal = Vec3::new(ONE, 0, 0);
        rec.front_face = true;
        rec.mat = share(&self.phase_function);
        assert(self.spec_scatter_outcome(r, lo, hi, sample, *old(rec)) == Some(*rec));
        assert(self.outcome_for_crossing(r, ray_t, *old(rec), Some(rec1), Some(rec2), Some(*rec)));
        true
    }

    /// The box of the boundary.
    pub open spec fn spec_bounding_box(&self) -> aabb
        decreases self,
    {
        self.boundary.spec_bounding_box()
    }

    /// The box of the boundary.
    pub fn bounding_box(&self) -> (b: aabb)
        ensures
            b == self.spec_bounding_box(),
        decreases self,
    {
        self.boundary.bounding_box()
    }
}
} // verus!
