//! Spheres, at rest or moving along a line.
use std::sync::Arc;
use vstd::prelude::*;
use crate::aabb::aabb;
use crate::fixed::{Fixed, fadd, fsub, fmul, fdiv, fneg, fsqrt,
    spec_fadd, spec_fsub, spec_fmul, spec_fdiv, spec_fneg, spec_fsqrt};
use crate::hittable::{hit_record, share};
use crate::interval::Interval;
use crate::material::Material;
use crate::ray::Ray;
use crate::raytracer::pi;
use crate::trig::{facos, fatan2, spec_facos, spec_fatan2, TWO_PI};
use crate::vec3::Vec3;

verus! {

/// A sphere whose centre is `center1` at time 0 and `center1 + center_vec`
/// at time 1.
#[derive(Debug, PartialEq)]
pub struct Sphere {
    pub center1: Vec3,
    pub radius: Fixed,
    pub mat: Arc<Material>,
    pub is_moving: bool,
    pub center_vec: Vec3,
    pub bbox: aabb,
}

/// The surface coordinates of the point `p` of the unit sphere:
/// `u = (atan2(-z, x) + pi) / (2 pi)` runs around the y axis, and
/// `v = acos(-y) / pi` from the bottom to the top.
pub open spec fn spec_sphere_uv(p: Vec3) -> (i64, i64) {
    (fdiv(fadd(fatan2(fneg(p.z), p.x), pi), TWO_PI), fdiv(facos(fneg(p.y)), pi))
}

impl Sphere {
    /// Whether everything inside is well formed.
    pub open spec fn wf(&self) -> bool {
        self.mat.wf()
    }

    /// A sphere at rest with centre `center`.
    pub open spec fn spec_new(center: Vec3, radius: i64, mat: Arc<Material>) -> Sphere {
        let rvec = Vec3 { x: radius, y: radius, z: radius };
        Sphere {
            center1: center,
            radius,
            mat,
            is_moving: false,
            center_vec: Vec3::zero(),
            bbox: aabb::new_from_points(center.minus(rvec), center.plus(rvec)),
        }
    }

    /// A sphere at rest. Its box reaches `radius` from the centre along each
    /// axis.
    #[verifier::when_used_as_spec(spec_new)]
    pub fn new(center: Vec3, radius: Fixed, mat: Arc<Material>) -> (s: Sphere)
        ensures
            s == Self::spec_new(center, radius, mat),
            s.bbox.bounded_above(),
    {
        let rvec = Vec3::new(radius, radius, radius);
        Sphere {
            center1: center,
            radius,
            mat,
            is_moving: false,
            center_vec: Vec3::zero(),
            bbox: aabb::new_from_points(center.minus(rvec), center.plus(rvec)),
        }
    }

    /// A sphere that moves from `center1` to `center2`.
    pub open spec fn spec_new_moving(center1: Vec3, center2: Vec3, radius: i64, mat: Arc<Material>) -> Sphere {
        let rvec = Vec3 { x: radius, y: radius, z: radius };
        Sphere {
            center1,
            radius,
            mat,
            is_moving: true,
            center_vec: center2.minus(center1),
            bbox: aabb::new_from_aabbs(
                &aabb::new_from_points(center1.minus(rvec), center1.plus(rvec)),
                &aabb::new_from_points(center2.minus(rvec), center2.plus(rvec)),
            ),
        }
    }

    /// A sphere that moves from `center1` at time 0 to `center2` at time 1.
    /// Its box is the union of the boxes at the two ends.
    #[verifier::when_used_as_spec(spec_new_moving)]
    pub fn new_moving(center1: Vec3, center2: Vec3, radius: Fixed, mat: Arc<Material>) -> (s: Sphere)
        ensures
            s == Self::spec_new_moving(center1, center2, radius, mat),
            s.bbox.bounded_above(),
    {
        let rvec = Vec3::new(radius, radius, radius);
        let bbox1 = aabb::new_from_points(center1.minus(rvec), center1.plus(rvec));
        let bbox2 = aabb::new_from_points(center2.minus(rvec), center2.plus(rvec));
        Sphere {
            center1,
            radius,
            mat,
            is_moving: true,
            center_vec: center2.minus(center1),
            bbox: aabb::new_from_aabbs(&bbox1, &bbox2),
        }
    }

    /// Writes the surface coordinates of the point `p` of the unit sphere.
    pub fn get_sphere_uv(&self, p: Vec3, u: &mut Fixed, v: &mut Fixed)
        ensures
            (*final(u), *final(v)) == spec_sphere_uv(p),
    {
        let theta: i64 = facos(fneg(p.y));
        let phi: i64 = fadd(fatan2(fneg(p.z), p.x), pi);
        *u = fdiv(phi, TWO_PI);
        *v = fdiv(theta, pi);
    }

    /// The centre at `time`: `center1 + center_vec * time`.
    pub open spec fn spec_sphere_center(&self, time: i64) -> Vec3 {
        self.center1.plus(self.center_vec.scale(time))
    }

    /// The centre at `time`: `center1 + center_vec * time`.
    #[verifier::when_used_as_spec(spec_sphere_center)]
    pub fn sphere_center(&self, time: Fixed) -> (c: Vec3)
        ensures
            c == self.spec_sphere_center(time),
    {
        self.center1.plus(self.center_vec.scale(time))
    }

    /// The centre that the ray `r` sees.
    pub open spec fn spec_center_for(&self, r: &Ray) -> Vec3 {
        if self.is_moving {
            self.spec_sphere_center(r.tm)
        } else {
            self.center1
        }
    }

    /// The ray parameter at which `r` meets the sphere inside `ray_t`, if
    /// it does. With `oc = center - origin`, `a = dir . dir`,
    /// `h = oc . dir` and `c = oc . oc - radius^2`, the ray misses when the
    /// discriminant `h^2 - a c` is negative. Otherwise the nearer root
    /// `(h - sqrt) / a` is taken if `ray_t` surrounds it, else the farther
    /// root `(h + sqrt) / a` if `ray_t` surrounds that.
    pub open spec fn spec_root(&self, r: &Ray, ray_t: Interval) -> Option<i64> {
        let oc = self.spec_center_for(r).minus(r.orig);
        let a = r.dir.dot(r.dir);
        let h = oc.dot(r.dir);
        let c = fsub(oc.dot(oc), fmul(self.radius, self.radius));
        let discriminant = fsub(fmul(h, h), fmul(a, c));
        if discriminant < 0 {
            None
        } else if ray_t.surrounds(fdiv(fsub(h, fsqrt(discriminant)), a)) {
            Some(fdiv(fsub(h, fsqrt(discriminant)), a))
        } else if ray_t.surrounds(fdiv(fadd(h, fsqrt(discriminant)), a)) {
            Some(fdiv(fadd(h, fsqrt(discriminant)), a))
        } else {
            None
        }
    }

    /// The record of a hit at ray parameter `t`: the point on the ray, the
    /// normal `(p - center) / radius` turned against the ray, the surface
    /// coordinates of that normal, and the sphere's material.
    pub open spec fn spec_record_at(&self, r: &Ray, t: i64) -> hit_record {
        let p = r.spec_at(t);
        let outward_normal = p.minus(self.spec_center_for(r)).over(self.radius);
        hit_record {
            p,
            normal: hit_record::spec_face_normal(r, outward_normal),
            mat: self.mat,
            t,
            u: spec_sphere_uv(outward_normal).0,
            v: spec_sphere_uv(outward_normal).1,
            front_face: hit_record::spec_front_face(r, outward_normal),
        }
    }

    /// The closest hit of `r` inside `ray_t`, if there is one.
    #[verifier::opaque]
    pub open spec fn spec_hit(&self, r: &Ray, ray_t: Interval) -> Option<hit_record> {
        match self.spec_root(r, ray_t) {
            Some(t) => Some(self.spec_record_at(r, t)),
            None => None,
        }
    }

    /// Intersects the ray with the sphere. On a hit, `rec` is overwritten
    /// with the record of the hit; on a miss it is left as it was.
    pub fn hit(&self, r: &Ray, ray_t: Interval, rec: &mut hit_record) -> (hit: bool)
        ensures
            hit == self.spec_hit(r, ray_t).is_some(),
            hit ==> *final(rec) == self.spec_hit(r, ray_t).unwrap(),
            hit ==> final(rec).mat == self.mat,
            !hit ==> *final(rec) == *old(rec),
    {
        proof {
            reveal(Sphere::spec_hit);
        }
        let center = if self.is_moving {
            self.sphere_center(r.time())
        } else {
            self.center1
        };
        let oc = center.minus(r.origin());
        let a: i64 = r.direction().dot(r.direction());
        let h: i64 = oc.dot(r.direction());
        let c: i64 = fsub(oc.dot(oc), fmul(self.radius, self.radius));
        let discriminant: i64 = fsub(fmul(h, h), fmul(a, c));
        if discriminant < 0 {
            return false;
        }
        let sqrtd: i64 = fsqrt(discriminant);
        let mut root: i64 = fdiv(fsub(h, sqrtd), a);
        if !ray_t.surrounds(root) {
            root = fdiv(fadd(h, sqrtd), a);
            if !ray_t.surrounds(root) {
                return false;
            }
        }
        rec.t = root;
        rec.p = r.at(rec.t);
        let outward_normal = rec.p.minus(center).over(self.radius);
        rec.set_face_normal(r, outward_normal);
        let mut u: i64 = 0;
        let mut v: i64 = 0;
        self.get_sphere_uv(outward_normal, &mut u, &mut v);
        rec.u = u;
        rec.v = v;
        rec.mat = share(&self.mat);
        true
    }

    /// The box that holds the object.
    pub open spec fn spec_bounding_box(&self) -> aabb {
        self.bbox
    }

    /// The box that holds the object.
    #[verifier::when_used_as_spec(spec_bounding_box)]
    pub fn bounding_box(&self) -> (b: aabb)
        ensures
            b == self.bbox,
    {
        self.bbox
    }
}
} // verus!
