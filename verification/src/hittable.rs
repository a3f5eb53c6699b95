//! What a ray can hit, and what is recorded of a hit.
use std::sync::Arc;
use vstd::prelude::*;
use crate::aabb::aabb;
use crate::bvh::{bvh_node, spec_later};
use crate::con_medium::constant_medium;
use crate::fixed::{Fixed, INF, NEG_INF, fadd, fsub, fmul, fneg, fmin, fmax,
    spec_fadd, spec_fsub, spec_fmul, spec_fneg, spec_fmin, spec_fmax};
use crate::hittable_list::{HittableList, can_reach, lemma_reach_is_scan, lemma_scan_hit_in_interval, scan_state, spec_scan_result};
use crate::interval::Interval;
use crate::material::{Material, lambertian};
use crate::quad::Quad;
use crate::ray::Ray;
use crate::raytracer::{Sampler, degrees_to_radians, spec_degrees_to_radians};
use crate::trig::{fsin, fcos, spec_fsin, spec_fcos};
use crate::sphere::Sphere;
use crate::vec3::Vec3;

verus! {

/// Another handle to a shared value (`Arc::clone`): it points at the value
/// that `a` points at.
#[verifier::external_body]
pub(crate) fn share<T>(a: &Arc<T>) -> (res: Arc<T>)
    ensures
        *res == **a,
{
    a.clone()
}

/// One intersection of a ray with a surface.
#[derive(Debug, PartialEq)]
pub struct hit_record {
    /// Where the ray meets the surface.
    pub p: Vec3,
    /// The surface normal, turned against the ray.
    pub normal: Vec3,
    /// The material of the surface.
    pub mat: Arc<Material>,
    /// The ray parameter of the hit.
    pub t: Fixed,
    /// The surface coordinates of the hit.
    pub u: Fixed,
    pub v: Fixed,
    /// Whether the ray came from outside.
    pub front_face: bool,
}

impl hit_record {
    /// A record at the origin with a black diffuse material, to be
    /// overwritten by a hit.
    pub open spec fn spec_blank() -> hit_record {
        hit_record {
            p: Vec3::zero(),
            normal: Vec3::zero(),
            mat: Arc::new(Material::Lambertian(lambertian::spec_new(Vec3::zero()))),
            t: 0,
            u: 0,
            v: 0,
            front_face: false,
        }
    }

    /// A record at the origin with a black diffuse material, to be
    /// overwritten by a hit.
    #[verifier::when_used_as_spec(spec_blank)]
    pub fn blank() -> (rec: hit_record)
        ensures
            rec == Self::spec_blank(),
            rec.mat.wf(),
    {
        hit_record {
            p: Vec3::zero(),
            normal: Vec3::zero(),
            mat: Arc::new(Material::Lambertian(lambertian::new(Vec3::zero()))),
            t: 0,
            u: 0,
            v: 0,
            front_face: false,
        }
    }

    /// Whether a ray of direction `r.dir` meets a surface with outward
    /// normal `outward_normal` from outside.
    pub open spec fn spec_front_face(r: &Ray, outward_normal: Vec3) -> bool {
        r.dir.dot(outward_normal) < 0
    }

    /// The normal turned against the ray.
    pub open spec fn spec_face_normal(r: &Ray, outward_normal: Vec3) -> Vec3 {
        if Self::spec_front_face(r, outward_normal) {
            outward_normal
        } else {
            outward_normal.negated()
        }
    }

    /// Sets `front_face` and `normal` from the outward normal, so that the
    /// stored normal points against the ray.
    pub fn set_face_normal(&mut self, r: &Ray, outward_normal: Vec3)
        ensures
            final(self).front_face == Self::spec_front_face(r, outward_normal),
            final(self).normal == Self::spec_face_normal(r, outward_normal),
            final(self).p == old(self).p,
            final(self).mat == old(self).mat,
            final(self).t == old(self).t,
            final(self).u == old(self).u,
            final(self).v == old(self).v,
    {
        self.front_face = r.direction().dot(outward_normal) < 0;
        self.normal = if self.front_face {
            outward_normal
        } else {
            outward_normal.negated()
        };
    }
}

/// An object moved by `offset`.
#[derive(Debug, PartialEq)]
pub struct translate {
    pub object: Arc<Hittable>,
    pub offset: Vec3,
    pub bbox: aabb,
}

impl translate {
    /// Whether everything inside is well formed.
    pub open spec fn wf(&self) -> bool
        decreases self,
    {
        self.object.wf()
    }

    /// Whether a hit test draws no random numbers: there is no fog inside.
    pub open spec fn deterministic(&self) -> bool
        decreases self,
    {
        self.object.deterministic()
    }

    /// `object` moved by `offset`.
    pub open spec fn spec_new(object: Arc<Hittable>, offset: Vec3) -> translate {
        translate { object, offset, bbox: object.spec_bounding_box().add(offset) }
    }

    /// `object` moved by `offset`. The box is the object's box, moved.
    #[verifier::when_used_as_spec(spec_new)]
    pub fn new(object: Arc<Hittable>, offset: Vec3) -> (t: translate)
        ensures
            t == Self::spec_new(object, offset),
            t.bbox.bounded_above(),
    {
        let bbox = object.bounding_box().add(offset);
        translate { object, offset, bbox }
    }

    /// The ray as the object sees it: its origin moved back by the offset.
    pub open spec fn spec_object_ray(&self, r: &Ray) -> Ray {
        Ray::new_with_time(r.orig.minus(self.offset), r.dir, r.tm)
    }

    /// What the object answered, with the hit point of a hit moved forward
    /// by the offset.
    pub open spec fn spec_moved(&self, inner: Option<hit_record>) -> Option<hit_record> {
        match inner {
            Some(rec) => Some(hit_record { p: rec.p.plus(self.offset), ..rec }),
            None => None,
        }
    }

    /// The hit of the object by the ray moved back, with the hit point moved
    /// forward again.
    pub open spec fn spec_hit(&self, r: &Ray, ray_t: Interval) -> Option<hit_record>
        decreases self,
    {
        self.spec_moved(self.object.spec_hit(&self.spec_object_ray(r), ray_t))
    }

    /// Whether a hit test that finds `before` in the record may end with
    /// `outcome`, the record of a hit or nothing: it may if the object may
    /// answer the ray moved back with something that, moved forward, is
    /// `outcome`.
    pub open spec fn can_hit(&self, r: &Ray, ray_t: Interval, before: hit_record, outcome: Option<hit_record>) -> bool
        decreases self,
    {
        exists|inner: Option<hit_record>|
            #![trigger self.spec_moved(inner)]
            self.object.can_hit(&self.spec_object_ray(r), ray_t, before, inner) && outcome == self.spec_moved(inner)
    }

    /// Looks for the closest hit of `r` inside `ray_t`. On a hit, `rec` is
    /// overwritten with its record; on a miss it is left as it was. The
    /// outcome is one that `can_hit` allows; without fog that is `spec_hit`.
    pub fn hit(&self, r: &Ray, ray_t: Interval, rec: &mut hit_record, rng: &mut Sampler) -> (hit: bool)
        requires
            self.wf(),
        ensures
            self.deterministic() ==> hit == self.spec_hit(r, ray_t).is_some(),
            self.deterministic() && hit ==> *final(rec) == self.spec_hit(r, ray_t).unwrap(),
            hit ==> final(rec).mat.wf(),
            !hit ==> *final(rec) == *old(rec),
            self.can_hit(
                r,
                ray_t,
                *old(rec),
                if hit {
                    Some(*final(rec))
                } else {
                    None
                },
            ),
        decreases self,
    {
        let offset_r = Ray::new_with_time(r.origin().minus(self.offset), r.direction(), r.time());
        if !self.object.hit(&offset_r, ray_t, rec, rng) {
            assert(self.spec_moved(None) is None);
            return false;
        }
        let ghost inner = *rec;
        rec.p = rec.p.plus(self.offset);
        assert(self.spec_moved(Some(inner)) == Some(*rec));
        true
    }

    /// The box that holds the object.
    pub open spec fn spec_bounding_box(&self) -> aabb {
        self.bbox
    }

    /// The box that holds the object.
    #[verifier::when_used_as_spec(spec_bounding_box)]
    pub fn bounding_box(&self) -> (b: aabb)
        ensures
            b == self.bbox,
    {
        self.bbox
    }
}

/// An object turned about the y axis.
#[derive(Debug, PartialEq)]
pub struct rotate_y {
    pub object: Arc<Hittable>,
    pub sin_theta: Fixed,
    pub cos_theta: Fixed,
    pub bbox: aabb,
}

/// The vector `v` turned about the y axis from object space to world space:
/// `(cos x + sin z, y, -sin x + cos z)`.
pub open spec fn spec_to_world(sin_theta: i64, cos_theta: i64, v: Vec3) -> Vec3 {
    Vec3 {
        x: fadd(fmul(cos_theta, v.x), fmul(sin_theta, v.z)),
        y: v.y,
        z: fadd(fmul(fneg(sin_theta), v.x), fmul(cos_theta, v.z)),
    }
}

/// The vector `v` turned about the y axis from object space to world space:
/// `(cos x + sin z, y, -sin x + cos z)`.
#[verifier::when_used_as_spec(spec_to_world)]
pub fn to_world(sin_theta: Fixed, cos_theta: Fixed, v: Vec3) -> (w: Vec3)
    ensures
        w == spec_to_world(sin_theta, cos_theta, v),
{
    Vec3 {
        x: fadd(fmul(cos_theta, v.x), fmul(sin_theta, v.z)),
        y: v.y,
        z: fadd(fmul(fneg(sin_theta), v.x), fmul(cos_theta, v.z)),
    }
}

/// The vector `v` turned about the y axis from world space to object space:
/// `(cos x - sin z, y, sin x + cos z)`.
pub open spec fn spec_to_object(sin_theta: i64, cos_theta: i64, v: Vec3) -> Vec3 {
    Vec3 {
        x: fsub(fmul(cos_theta, v.x), fmul(sin_theta, v.z)),
        y: v.y,
        z: fadd(fmul(sin_theta, v.x), fmul(cos_theta, v.z)),
    }
}

/// The vector `v` turned about the y axis from world space to object space:
/// `(cos x - sin z, y, sin x + cos z)`.
#[verifier::when_used_as_spec(spec_to_object)]
pub fn to_object(sin_theta: Fixed, cos_theta: Fixed, v: Vec3) -> (w: Vec3)
    ensures
        w == spec_to_object(sin_theta, cos_theta, v),
{
    Vec3 {
        x: fsub(fmul(cos_theta, v.x), fmul(sin_theta, v.z)),
        y: v.y,
        z: fadd(fmul(sin_theta, v.x), fmul(cos_theta, v.z)),
    }
}

/// Corner `n` of a box, for `n` in `0..8`: bit 2 of `n` picks the upper end
/// along x, bit 1 along y, bit 0 along z.
pub open spec fn spec_corner(b: aabb, n: int) -> Vec3 {
    Vec3 {
        x: if n / 4 == 1 {
            b.x.max
        } else {
            b.x.min
        },
        y: if (n / 2) % 2 == 1 {
            b.y.max
        } else {
            b.y.min
        },
        z: if n % 2 == 1 {
            b.z.max
        } else {
            b.z.min
        },
    }
}

/// Corner `n` of the box `b`.
pub fn corner(b: aabb, n: usize) -> (c: Vec3)
    requires
        n < 8,
    ensures
        c == spec_corner(b, n as int),
{
    Vec3 {
        x: if n / 4 == 1 {
            b.x.max
        } else {
            b.x.min
        },
        y: if (n / 2) % 2 == 1 {
            b.y.max
        } else {
            b.y.min
        },
        z: if n % 2 == 1 {
            b.z.max
        } else {
            b.z.min
        },
    }
}

/// The componentwise least and greatest coordinates of the first `n`
/// corners of `b` after turning them to world space.
pub open spec fn spec_turned_extent(b: aabb, sin_theta: i64, cos_theta: i64, n: int) -> (Vec3, Vec3)
    decreases n,
{
    if n <= 0 {
        (Vec3 { x: INF, y: INF, z: INF }, Vec3 { x: NEG_INF, y: NEG_INF, z: NEG_INF })
    } else {
        let (lo, hi) = spec_turned_extent(b, sin_theta, cos_theta, n - 1);
        let tester = spec_to_world(sin_theta, cos_theta, spec_corner(b, n - 1));
        (
            Vec3 { x: fmin(lo.x, tester.x), y: fmin(lo.y, tester.y), z: fmin(lo.z, tester.z) },
            Vec3 { x: fmax(hi.x, tester.x), y: fmax(hi.y, tester.y), z: fmax(hi.z, tester.z) },
        )
    }
}

impl rotate_y {
    /// Whether everything inside is well formed.
    pub open spec fn wf(&self) -> bool
        decreases self,
    {
        self.object.wf()
    }

    /// Whether a hit test draws no random numbers: there is no fog inside.
    pub open spec fn deterministic(&self) -> bool
        decreases self,
    {
        self.object.deterministic()
    }

    /// The box around the eight turned corners of the object's box.
    pub open spec fn spec_turned_box(b: aabb, sin_theta: i64, cos_theta: i64) -> aabb {
        aabb::new_from_points(
            spec_turned_extent(b, sin_theta, cos_theta, 8).0,
            spec_turned_extent(b, sin_theta, cos_theta, 8).1,
        )
    }

    /// `object` turned by `angle` degrees about the y axis.
    pub open spec fn spec_new(object: Arc<Hittable>, angle: i64) -> rotate_y {
        let sin_theta = fsin(degrees_to_radians(angle));
        let cos_theta = fcos(degrees_to_radians(angle));
        rotate_y {
            object,
            sin_theta,
            cos_theta,
            bbox: Self::spec_turned_box(object.spec_bounding_box(), sin_theta, cos_theta),
        }
    }

    /// `object` turned by `angle` degrees about the y axis. The box is the
    /// one around the eight turned corners of the object's box.
    #[verifier::when_used_as_spec(spec_new)]
    pub fn new(object: Arc<Hittable>, angle: Fixed) -> (t: rotate_y)
        ensures
            t == Self::spec_new(object, angle),
            t.bbox.bounded_above(),
    {
        let bbox = object.bounding_box();
        let radians: i64 = degrees_to_radians(angle);
        let sin_theta: i64 = fsin(radians);
        let cos_theta: i64 = fcos(radians);
        let mut min = Vec3::new(INF, INF, INF);
        let mut max = Vec3::new(NEG_INF, NEG_INF, NEG_INF);
        let mut n: usize = 0;
        while n < 8
            invariant
                n <= 8,
                (min, max) == spec_turned_extent(bbox, sin_theta, cos_theta, n as int),
            decreases 8 - n,
        {
            let tester = to_world(sin_theta, cos_theta, corner(bbox, n));
            min = Vec3::new(fmin(min.x, tester.x), fmin(min.y, tester.y), fmin(min.z, tester.z));
            max = Vec3::new(fmax(max.x, tester.x), fmax(max.y, tester.y), fmax(max.z, tester.z));
            n += 1;
        }
        rotate_y { object, sin_theta, cos_theta, bbox: aabb::new_from_points(min, max) }
    }

    /// The ray as the object sees it: origin and direction turned to object
    /// space.
    pub open spec fn spec_object_ray(&self, r: &Ray) -> Ray {
        Ray::new_with_time(
            spec_to_object(self.sin_theta, self.cos_theta, r.orig),
            spec_to_object(self.sin_theta, self.cos_theta, r.dir),
            r.tm,
        )
    }

    /// What the object answered, with the hit point and the normal of a hit
    /// turned back to world space.
    pub open spec fn spec_turned(&self, inner: Option<hit_record>) -> Option<hit_record> {
        match inner {
            Some(rec) => Some(
                hit_record {
                    p: spec_to_world(self.sin_theta, self.cos_theta, rec.p),
                    normal: spec_to_world(self.sin_theta, self.cos_theta, rec.normal),
                    ..rec
                },
            ),
            None => None,
        }
    }

    /// The hit of the object by the turned ray, with the hit point and the
    /// normal turned back to world space.
    pub open spec fn spec_hit(&self, r: &Ray, ray_t: Interval) -> Option<hit_record>
        decreases self,
    {
        self.spec_turned(self.object.spec_hit(&self.spec_object_ray(r), ray_t))
    }

    /// Whether a hit test that finds `before` in the record may end with
    /// `outcome`, the record of a hit or nothing: it may if the object may
    /// answer the turned ray with something that, turned back, is
    /// `outcome`.
    pub open spec fn can_hit(&self, r: &Ray, ray_t: Interval, before: hit_record, outcome: Option<hit_record>) -> bool
        decreases self,
    {
        exists|inner: Option<hit_record>|
            #![trigger self.spec_turned(inner)]
            self.object.can_hit(&self.spec_object_ray(r), ray_t, before, inner) && outcome == self.spec_turned(inner)
    }

    /// Looks for the closest hit of `r` inside `ray_t`. On a hit, `rec` is
    /// overwritten with its record; on a miss it is left as it was. The
    /// outcome is one that `can_hit` allows; without fog that is `spec_hit`.
    pub fn hit(&self, r: &Ray, ray_t: Interval, rec: &mut hit_record, rng: &mut Sampler) -> (hit: bool)
        requires
            self.wf(),
        ensures
            self.deterministic() ==> hit == self.spec_hit(r, ray_t).is_some(),
            self.deterministic() && hit ==> *final(rec) == self.spec_hit(r, ray_t).unwrap(),
            hit ==> final(rec).mat.wf(),
            !hit ==> *final(rec) == *old(rec),
            self.can_hit(
                r,
                ray_t,
                *old(rec),
                if hit {
                    Some(*final(rec))
                } else {
                    None
                },
            ),
        decreases self,
    {
        let origin = to_object(self.sin_theta, self.cos_theta, r.origin());
        let direction = to_object(self.sin_theta, self.cos_theta, r.direction());
        let rotated_r = Ray::new_with_time(origin, direction, r.time());
        if !self.object.hit(&rotated_r, ray_t, rec, rng) {
            assert(self.spec_turned(None) is None);
            return false;
        }
        let ghost inner = *rec;
        rec.p = to_world(self.sin_theta, self.cos_theta, rec.p);
        rec.normal = to_world(self.sin_theta, self.cos_theta, rec.normal);
        assert(self.spec_turned(Some(inner)) == Some(*rec));
        true
    }

    /// The box that holds the object.
    pub open spec fn spec_bounding_box(&self) -> aabb {
        self.bbox
    }

    /// The box that holds the object.
    #[verifier::when_used_as_spec(spec_bounding_box)]
    pub fn bounding_box(&self) -> (b: aabb)
        ensures
            b == self.bbox,
    {
        self.bbox
    }
}

/// Anything a ray can hit.
#[derive(Debug, PartialEq)]
pub enum Hittable {
    Sphere(Sphere),
    Quad(Quad),
    Medium(constant_medium),
    Translate(translate),
    RotateY(rotate_y),
    List(HittableList),
    Bvh(bvh_node),
}

impl Hittable {
    /// Whether every material, texture and object inside is well formed.
    pub open spec fn wf(&self) -> bool
        decreases self,
    {
        match self {
            Hittable::Sphere(s) => s.wf(),
            Hittable::Quad(q) => q.wf(),
            Hittable::Medium(m) => m.wf(),
            Hittable::Translate(t) => t.wf(),
            Hittable::RotateY(t) => t.wf(),
            Hittable::List(l) => l.wf(),
            Hittable::Bvh(n) => n.wf(),
        }
    }

    /// Tests `wf`.
    pub fn is_well_formed(&self) -> (ok: bool)
        ensures
            ok == self.wf(),
        decreases self,
    {
        match self {
            Hittable::Sphere(s) => s.mat.is_well_formed(),
            Hittable::Quad(q) => q.mat.is_well_formed(),
            Hittable::Medium(m) => m.boundary.is_well_formed() && m.phase_function.is_well_formed(),
            Hittable::Translate(t) => t.object.is_well_formed(),
            Hittable::RotateY(t) => t.object.is_well_formed(),
            Hittable::List(l) => l.is_well_formed(),
            Hittable::Bvh(n) => n.left.is_well_formed() && n.right.is_well_formed(),
        }
    }

    /// Whether a hit test draws no random numbers: there is no fog inside.
    pub open spec fn deterministic(&self) -> bool
        decreases self,
    {
        match self {
            Hittable::Sphere(_) => true,
            Hittable::Quad(_) => true,
            Hittable::Medium(_) => false,
            Hittable::Translate(t) => t.deterministic(),
            Hittable::RotateY(t) => t.deterministic(),
            Hittable::List(l) => l.deterministic(),
            Hittable::Bvh(n) => n.deterministic(),
        }
    }

    /// The closest hit of `r` inside `ray_t`, for an object without fog.
    /// Whether a ray scatters in a fog is a matter of chance, so a fog has
    /// no hit here.
    pub open spec fn spec_hit(&self, r: &Ray, ray_t: Interval) -> Option<hit_record>
        decreases self,
    {
        match self {
            Hittable::Sphere(s) => s.spec_hit(r, ray_t),
            Hittable::Quad(q) => q.spec_hit(r, ray_t),
            Hittable::Medium(_) => None,
            Hittable::Translate(t) => t.spec_hit(r, ray_t),
            Hittable::RotateY(t) => t.spec_hit(r, ray_t),
            Hittable::List(l) => l.spec_hit(r, ray_t),
            Hittable::Bvh(n) => n.spec_hit(r, ray_t),
        }
    }

    /// Whether a hit test on `r` in `ray_t` that finds `before` in the
    /// record may end with `outcome`: the record of a hit, or nothing for
    /// a miss. Without fog there is one outcome, `spec_hit`; with fog
    /// chance has its part in it.
    pub open spec fn can_hit(&self, r: &Ray, ray_t: Interval, before: hit_record, outcome: Option<hit_record>) -> bool
        decreases self,
    {
        match self {
            Hittable::Sphere(s) => outcome == s.spec_hit(r, ray_t),
            Hittable::Quad(q) => outcome == q.spec_hit(r, ray_t),
            Hittable::Medium(m) => m.can_hit(r, ray_t, before, outcome),
            Hittable::Translate(t) => t.can_hit(r, ray_t, before, outcome),
            Hittable::RotateY(t) => t.can_hit(r, ray_t, before, outcome),
            Hittable::List(l) => l.can_hit(r, ray_t, before, outcome),
            Hittable::Bvh(n) => n.can_hit(r, ray_t, before, outcome),
        }
    }

    /// Without fog a hit test has one outcome: the hit that `spec_hit`
    /// gives.
    pub proof fn lemma_one_outcome(&self, r: &Ray, ray_t: Interval, before: hit_record, outcome: Option<hit_record>)
        requires
            self.deterministic(),
            self.can_hit(r, ray_t, before, outcome),
        ensures
            outcome == self.spec_hit(r, ray_t),
        decreases self,
    {
        reveal_with_fuel(Hittable::can_hit, 2);
        reveal_with_fuel(Hittable::spec_hit, 2);
        reveal_with_fuel(translate::can_hit, 2);
        reveal_with_fuel(translate::spec_hit, 2);
        reveal_with_fuel(rotate_y::can_hit, 2);
        reveal_with_fuel(rotate_y::spec_hit, 2);
        reveal_with_fuel(HittableList::can_hit, 2);
        reveal_with_fuel(HittableList::spec_hit, 2);
        reveal_with_fuel(bvh_node::can_hit, 2);
        reveal_with_fuel(bvh_node::spec_hit, 2);
        reveal_with_fuel(Hittable::deterministic, 2);
        reveal_with_fuel(translate::deterministic, 2);
        reveal_with_fuel(rotate_y::deterministic, 2);
        reveal_with_fuel(HittableList::deterministic, 2);
        reveal_with_fuel(bvh_node::deterministic, 2);
        match self {
            Hittable::Sphere(_) => {},
            Hittable::Quad(_) => {},
            Hittable::Medium(_) => {},
            Hittable::Translate(t) => {
                let inner = choose|inner: Option<hit_record>|
                    #![trigger t.spec_moved(inner)]
                    t.object.can_hit(&t.spec_object_ray(r), ray_t, before, inner) && outcome == t.spec_moved(inner);
                t.object.lemma_one_outcome(&t.spec_object_ray(r), ray_t, before, inner);
            },
            Hittable::RotateY(t) => {
                let inner = choose|inner: Option<hit_record>|
                    #![trigger t.spec_turned(inner)]
                    t.object.can_hit(&t.spec_object_ray(r), ray_t, before, inner) && outcome == t.spec_turned(inner);
                t.object.lemma_one_outcome(&t.spec_object_ray(r), ray_t, before, inner);
            },
            Hittable::List(l) => {
                let s = choose|s: scan_state|
                    #![trigger spec_scan_result(s)]
                    can_reach(l.objects@, r, ray_t.min, ray_t.max, l.objects@.len() as int, s) && outcome
                        == spec_scan_result(s);
                assert(can_reach(l.objects@, r, ray_t.min, ray_t.max, l.objects@.len() as int, s));
                lemma_reach_is_scan(l.objects@, r, ray_t.min, ray_t.max, l.objects@.len() as int, s);
            },
            Hittable::Bvh(n) => {
                if n.bbox.hit(r, ray_t) {
                    let (hit_left, hit_right) = choose|hit_left: Option<hit_record>, hit_right: Option<hit_record>|
                        #![trigger spec_later(hit_left, hit_right)]
                        {
                            &&& n.left.can_hit(r, ray_t, before, hit_left)
                            &&& n.right.can_hit(
                                r,
                                Interval {
                                    min: ray_t.min,
                                    max: match hit_left {
                                        Some(x) => x.t,
                                        None => ray_t.max,
                                    },
                                },
                                match hit_left {
                                    Some(x) => x,
                                    None => before,
                                },
                                hit_right,
                            )
                            &&& outcome == spec_later(hit_left, hit_right)
                        };
                    n.left.lemma_one_outcome(r, ray_t, before, hit_left);
                    n.right.lemma_one_outcome(
                        r,
                        Interval {
                            min: ray_t.min,
                            max: match hit_left {
                                Some(x) => x.t,
                                None => ray_t.max,
                            },
                        },
                        match hit_left {
                            Some(x) => x,
                            None => before,
                        },
                        hit_right,
                    );
                }
            },
        }
    }

    /// A hit lies in the interval that was searched.
    pub proof fn lemma_hit_in_interval(&self, r: &Ray, ray_t: Interval, rec: hit_record)
        requires
            self.spec_hit(r, ray_t) == Some(rec),
        ensures
            ray_t.min <= rec.t <= ray_t.max,
        decreases self,
    {
        match self {
            Hittable::Sphere(s) => {
                reveal(Sphere::spec_hit);
            },
            Hittable::Quad(q) => {
                reveal(Quad::spec_hit);
            },
            Hittable::Medium(_) => {},
            Hittable::Translate(t) => {
                let inner = t.object.spec_hit(&t.spec_object_ray(r), ray_t);
                t.object.lemma_hit_in_interval(&t.spec_object_ray(r), ray_t, inner.unwrap());
            },
            Hittable::RotateY(t) => {
                let inner = t.object.spec_hit(&t.spec_object_ray(r), ray_t);
                t.object.lemma_hit_in_interval(&t.spec_object_ray(r), ray_t, inner.unwrap());
            },
            Hittable::List(l) => {
                lemma_scan_hit_in_interval(l.objects@, r, ray_t, ray_t.max, None, 0, rec);
            },
            Hittable::Bvh(n) => {
                let hit_left = n.left.spec_hit(r, ray_t);
                if hit_left is Some {
                    n.left.lemma_hit_in_interval(r, ray_t, hit_left.unwrap());
                }
                let narrowed = Interval {
                    min: ray_t.min,
                    max: if hit_left is Some {
                        hit_left.unwrap().t
                    } else {
                        ray_t.max
                    },
                };
                let hit_right = n.right.spec_hit(r, narrowed);
                if hit_right is Some {
                    n.right.lemma_hit_in_interval(r, narrowed, hit_right.unwrap());
                }
            },
        }
    }

    /// Looks for the closest hit of `r` inside `ray_t`. On a hit, `rec`
    /// is overwritten with its record; on a miss it is left as it was. The
    /// outcome is one that `can_hit` allows; without fog that is
    /// `spec_hit`.
    pub fn hit(&self, r: &Ray, ray_t: Interval, rec: &mut hit_record, rng: &mut Sampler) -> (hit: bool)
        requires
            self.wf(),
        ensures
            self.deterministic() ==> hit == self.spec_hit(r, ray_t).is_some(),
            self.deterministic() && hit ==> *final(rec) == self.spec_hit(r, ray_t).unwrap(),
            hit ==> final(rec).mat.wf(),
            !hit ==> *final(rec) == *old(rec),
            self.can_hit(
                r,
                ray_t,
                *old(rec),
                if hit {
                    Some(*final(rec))
                } else {
                    None
                },
            ),
        decreases self,
    {
        match self {
            Hittable::Sphere(s) => s.hit(r, ray_t, rec),
            Hittable::Quad(q) => q.hit(r, ray_t, rec),
            Hittable::Medium(m) => m.hit(r, ray_t, rec, rng),
            Hittable::Translate(t) => t.hit(r, ray_t, rec, rng),
            Hittable::RotateY(t) => t.hit(r, ray_t, rec, rng),
            Hittable::List(l) => l.hit(r, ray_t, rec, rng),
            Hittable::Bvh(n) => n.hit(r, ray_t, rec, rng),
        }
    }

    /// The box that holds the object.
    pub open spec fn spec_bounding_box(&self) -> aabb
        decreases self,
    {
        match self {
            Hittable::Sphere(s) => s.bbox,
            Hittable::Quad(q) => q.bbox,
            Hittable::Medium(m) => m.spec_bounding_box(),
            Hittable::Translate(t) => t.bbox,
            Hittable::RotateY(t) => t.bbox,
            Hittable::List(l) => l.bbox,
            Hittable::Bvh(n) => n.bbox,
        }
    }

    /// The box that holds the object.
    #[verifier::when_used_as_spec(spec_bounding_box)]
    pub fn bounding_box(&self) -> (b: aabb)
        ensures
            b == self.spec_bounding_box(),
        decreases self,
    {
        match self {
            Hittable::Sphere(s) => s.bounding_box(),
            Hittable::Quad(q) => q.bounding_box(),
            Hittable::Medium(m) => m.bounding_box(),
            Hittable::Translate(t) => t.bounding_box(),
            Hittable::RotateY(t) => t.bounding_box(),
            Hittable::List(l) => l.bounding_box(),
            Hittable::Bvh(n) => n.bounding_box(),
        }
    }
}
} // verus!
