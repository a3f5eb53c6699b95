//! Parallelograms, and boxes made of six of them.
use std::sync::Arc;
use vstd::prelude::*;
use crate::aabb::aabb;
use crate::error::SceneError;
use crate::fixed::{Fixed, ONE, fsub, fdiv, fabs, fmin, fmax, fneg,
    spec_fsub, spec_fdiv, spec_fabs, spec_fmin, spec_fmax, spec_fneg};
use crate::hittable::{hit_record, share, Hittable};
use crate::hittable_list::HittableList;
use crate::interval::Interval;
use crate::material::Material;
use crate::ray::Ray;
use crate::vec3::Vec3;

verus! {

/// A ray whose direction has a smaller component than this along the normal
/// of a quad counts as parallel to it.
pub const PARALLEL: i64 = 1;

/// The parallelogram with corner `q` and edges `u` and `v`.
#[derive(Debug, PartialEq)]
pub struct Quad {
    pub q: Vec3,
    pub u: Vec3,
    pub v: Vec3,
    /// `n / (n . n)` for `n = u x v`: it turns a point of the plane into its
    /// coordinates along `u` and `v`.
    pub w: Vec3,
    pub mat: Arc<Material>,
    pub bbox: aabb,
    /// The unit normal of the plane.
    pub normal: Vec3,
    /// The plane is `normal . p = d`.
    pub d: Fixed,
}

impl Quad {
    /// Whether everything inside is well formed.
    pub open spec fn wf(&self) -> bool {
        self.mat.wf()
    }

    /// Whether the edges `u` and `v` span no plane: their cross product has
    /// length zero.
    #[verifier::opaque]
    pub open spec fn spec_degenerate(u: Vec3, v: Vec3) -> bool {
        Vec3::cross(u, v).length_squared() == 0
    }

    /// The box around the four corners.
    pub open spec fn spec_corner_box(q: Vec3, u: Vec3, v: Vec3) -> aabb {
        aabb::new_from_aabbs(
            &aabb::new_from_points(q, q.plus(u).plus(v)),
            &aabb::new_from_points(q.plus(u), q.plus(v)),
        )
    }

    /// The quad with corner `q` and edges `u` and `v`.
    #[verifier::opaque]
    pub open spec fn spec_new(q: Vec3, u: Vec3, v: Vec3, mat: Arc<Material>) -> Quad {
        let n = Vec3::cross(u, v);
        Quad {
            q,
            u,
            v,
            w: n.over(n.dot(n)),
            mat,
            bbox: Self::spec_corner_box(q, u, v),
            normal: n.normalize(),
            d: n.normalize().dot(q),
        }
    }

    /// The quad with corner `q` and edges `u` and `v`. Parallel edges are
    /// refused.
    pub fn new(q: Vec3, u: Vec3, v: Vec3, mat: Arc<Material>) -> (r: Result<Quad, SceneError>)
        ensures
            Self::spec_degenerate(u, v) <==> r is Err,
            r matches Ok(quad) ==> quad == Self::spec_new(q, u, v, mat),
            r matches Ok(quad) ==> quad.q == q && quad.u == u && quad.v == v && quad.mat == mat,
            r matches Ok(quad) ==> quad.bbox.bounded_above(),
            r matches Err(e) ==> e == SceneError::DegenerateGeometry,
    {
        proof {
            reveal(Quad::spec_degenerate);
            reveal(Quad::spec_new);
        }
        let n = Vec3::cross(u, v);
        if n.length_squared() == 0 {
            return Err(SceneError::DegenerateGeometry);
        }
        let mut quad_instance = Quad {
            q,
            u,
            v,
            w: Vec3::zero(),
            mat,
            bbox: aabb::empty(),
            normal: Vec3::zero(),
            d: 0,
        };
        quad_instance.set_bounding_box();
        quad_instance.normal = n.normalize();
        quad_instance.d = quad_instance.normal.dot(quad_instance.q);
        quad_instance.w = n.over(n.dot(n));
        Ok(quad_instance)
    }

    /// Sets the box to the one around the four corners.
    pub fn set_bounding_box(&mut self)
        ensures
            *final(self) == (Quad { bbox: Self::spec_corner_box(old(self).q, old(self).u, old(self).v), ..*old(self) }),
            final(self).bbox.bounded_above(),
    {
        let bbox_diagonal1 = aabb::new_from_points(self.q, self.q.plus(self.u).plus(self.v));
        let bbox_diagonal2 = aabb::new_from_points(self.q.plus(self.u), self.q.plus(self.v));
        self.bbox = aabb::new_from_aabbs(&bbox_diagonal1, &bbox_diagonal2);
    }

    /// Whether the plane coordinates `(alpha, beta)` lie in the quad: both
    /// in [0, 1].
    pub open spec fn spec_is_interior(alpha: i64, beta: i64) -> bool {
        0 <= alpha <= ONE && 0 <= beta <= ONE
    }

    /// Tests whether `(alpha, beta)` lies in the quad and, if so, stores the
    /// pair as the surface coordinates of `rec`.
    pub fn is_interior(alpha: Fixed, beta: Fixed, rec: &mut hit_record) -> (inside: bool)
        ensures
            inside == Self::spec_is_interior(alpha, beta),
            inside ==> *final(rec) == (hit_record { u: alpha, v: beta, ..*old(rec) }),
            !inside ==> *final(rec) == *old(rec),
    {
        let unit_interval = Interval::new(0, ONE);
        if !unit_interval.contains(alpha) || !unit_interval.contains(beta) {
            return false;
        }
        rec.u = alpha;
        rec.v = beta;
        true
    }

    /// The ray parameter at which `r` crosses the plane of the quad, if the
    /// ray is not parallel to the plane and the parameter lies in `ray_t`:
    /// `(d - normal . origin) / (normal . dir)`.
    pub open spec fn spec_plane_t(&self, r: &Ray, ray_t: Interval) -> Option<i64> {
        let denom = self.normal.dot(r.dir);
        let t = fdiv(fsub(self.d, self.normal.dot(r.orig)), denom);
        if fabs(denom) < PARALLEL || !ray_t.contains(t) {
            None
        } else {
            Some(t)
        }
    }

    /// The coordinates of the plane point `p` along the two edges:
    /// `alpha = w . ((p - q) x v)` and `beta = w . (u x (p - q))`.
    pub open spec fn spec_plane_coords(&self, p: Vec3) -> (i64, i64) {
        (self.w.dot(Vec3::cross(p.minus(self.q), self.v)), self.w.dot(Vec3::cross(self.u, p.minus(self.q))))
    }

    /// The hit of `r` inside `ray_t`, if there is one: the ray crosses the
    /// plane at a point whose plane coordinates are interior.
    #[verifier::opaque]
    pub open spec fn spec_hit(&self, r: &Ray, ray_t: Interval) -> Option<hit_record> {
        match self.spec_plane_t(r, ray_t) {
            None => None,
            Some(t) => {
                let (alpha, beta) = self.spec_plane_coords(r.spec_at(t));
                if Self::spec_is_interior(alpha, beta) {
                    Some(
                        hit_record {
                            p: r.spec_at(t),
                            normal: hit_record::spec_face_normal(r, self.normal),
                            mat: self.mat,
                            t,
                            u: alpha,
                            v: beta,
                            front_face: hit_record::spec_front_face(r, self.normal),
                        },
                    )
                } else {
                    None
                }
            },
        }
    }

    /// Intersects the ray with the quad. On a hit, `rec` is overwritten
    /// with the record of the hit; on a miss it is left as it was.
    pub fn hit(&self, r: &Ray, ray_t: Interval, rec: &mut hit_record) -> (hit: bool)
        ensures
            hit == self.spec_hit(r, ray_t).is_some(),
            hit ==> *final(rec) == self.spec_hit(r, ray_t).unwrap(),
            hit ==> final(rec).mat == self.mat,
            !hit ==> *final(rec) == *old(rec),
    {
        proof {
            reveal(Quad::spec_hit);
        }
        let denom: i64 = self.normal.dot(r.direction());
        if fabs(denom) < PARALLEL {
            return false;
        }
        let t: i64 = fdiv(fsub(self.d, self.normal.dot(r.origin())), denom);
        if !ray_t.contains(t) {
            return false;
        }
        let intersection = r.at(t);
        let planar_hitpt_vector = intersection.minus(self.q);
        let alpha: i64 = self.w.dot(Vec3::cross(planar_hitpt_vector, self.v));
        let beta: i64 = self.w.dot(Vec3::cross(self.u, planar_hitpt_vector));
        if !Quad::is_interior(alpha, beta, rec) {
            return false;
        }
        rec.t = t;
        rec.p = intersection;
        rec.mat = share(&self.mat);
        rec.set_face_normal(r, self.normal);
        true
    }

    /// The six sides of the box with opposite corners `a` and `b`, each as
    /// corner and two edges: front, right, back, left, top, bottom.
    #[verifier::opaque]
    pub open spec fn spec_box_sides(a: Vec3, b: Vec3) -> Seq<(Vec3, Vec3, Vec3)> {
        let min = Vec3 { x: fmin(a.x, b.x), y: fmin(a.y, b.y), z: fmin(a.z, b.z) };
        let max = Vec3 { x: fmax(a.x, b.x), y: fmax(a.y, b.y), z: fmax(a.z, b.z) };
        let dx = Vec3 { x: fsub(max.x, min.x), y: 0, z: 0 };
        let dy = Vec3 { x: 0, y: fsub(max.y, min.y), z: 0 };
        let dz = Vec3 { x: 0, y: 0, z: fsub(max.z, min.z) };
        seq![
            (Vec3 { x: min.x, y: min.y, z: max.z }, dx, dy),
            (Vec3 { x: max.x, y: min.y, z: max.z }, dz.negated(), dy),
            (Vec3 { x: max.x, y: min.y, z: min.z }, dx.negated(), dy),
            (Vec3 { x: min.x, y: min.y, z: min.z }, dz, dy),
            (Vec3 { x: min.x, y: max.y, z: max.z }, dx, dz.negated()),
            (Vec3 { x: min.x, y: min.y, z: min.z }, dx, dz),
        ]
    }

    /// Whether `list` holds exactly the quads of the first `n` of `sides`,
    /// all of the material `mat`.
    pub open spec fn holds_sides(list: HittableList, sides: Seq<(Vec3, Vec3, Vec3)>, n: int, mat: Arc<Material>) -> bool {
        &&& list.objects@.len() == n
        &&& forall|i: int|
            0 <= i < n ==> *(#[trigger] list.objects@[i]) == Hittable::Quad(
                Self::spec_new(sides[i].0, sides[i].1, sides[i].2, mat),
            )
    }

    /// Appends the quad with corner `side.0` and edges `side.1`, `side.2` to
    /// `list`, unless it is degenerate.
    pub fn add_side(list: &mut HittableList, side: (Vec3, Vec3, Vec3), mat: &Arc<Material>) -> (r: Result<
        (),
        SceneError,
    >)
        ensures
            Self::spec_degenerate(side.1, side.2) <==> r is Err,
            r matches Err(e) ==> e == SceneError::DegenerateGeometry,
            r is Ok ==> final(list).objects@.len() == old(list).objects@.len() + 1 && *final(list).objects@.last()
                == Hittable::Quad(Self::spec_new(side.0, side.1, side.2, *mat)) && final(list).objects@.drop_last()
                == old(list).objects@,
            r is Ok && old(list).wf() && mat.wf() ==> final(list).wf(),
            r is Ok && old(list).deterministic() ==> final(list).deterministic(),
            r is Ok && old(list).boxed() ==> final(list).boxed(),
            r is Ok ==> final(list).bbox.bounded_above(),
    {
        match Quad::new(side.0, side.1, side.2, share(mat)) {
            Ok(quad) => {
                let ghost before = list.objects@;
                list.add(Arc::new(Hittable::Quad(quad)));
                assert(list.objects@.drop_last() =~= before);
                Ok(())
            },
            Err(e) => Err(e),
        }
    }

    /// The box with opposite corners `a` and `b`, as a list of its six
    /// sides. A box that is flat along an axis has degenerate sides and is
    /// refused.
    pub fn boxx(a: Vec3, b: Vec3, mat: Arc<Material>) -> (r: Result<HittableList, SceneError>)
        ensures
            r is Ok <==> forall|i: int|
                0 <= i < 6 ==> !Self::spec_degenerate(
                    (#[trigger] Self::spec_box_sides(a, b)[i]).1,
                    Self::spec_box_sides(a, b)[i].2,
                ),
            r matches Ok(list) ==> Self::holds_sides(list, Self::spec_box_sides(a, b), 6, mat),
            r matches Ok(list) ==> list.deterministic() && list.boxed() && list.bbox.bounded_above() && (mat.wf()
                ==> list.wf()),
            r matches Err(e) ==> e == SceneError::DegenerateGeometry,
    {
        let mut sides = HittableList::new();
        let min = Vec3::new(fmin(a.x, b.x), fmin(a.y, b.y), fmin(a.z, b.z));
        let max = Vec3::new(fmax(a.x, b.x), fmax(a.y, b.y), fmax(a.z, b.z));
        let dx = Vec3::new(fsub(max.x, min.x), 0, 0);
        let dy = Vec3::new(0, fsub(max.y, min.y), 0);
        let dz = Vec3::new(0, 0, fsub(max.z, min.z));
        let all: [(Vec3, Vec3, Vec3); 6] = [
            (Vec3::new(min.x, min.y, max.z), dx, dy),
            (Vec3::new(max.x, min.y, max.z), dz.negated(), dy),
            (Vec3::new(max.x, min.y, min.z), dx.negated(), dy),
            (Vec3::new(min.x, min.y, min.z), dz, dy),
            (Vec3::new(min.x, max.y, max.z), dx, dz.negated()),
            (Vec3::new(min.x, min.y, min.z), dx, dz),
        ];
        assert(all@ =~= Self::spec_box_sides(a, b)) by {
            reveal(Quad::spec_box_sides);
        }
        let mut n: usize = 0;
        while n < 6
            invariant
                n <= 6,
                all@ == Self::spec_box_sides(a, b),
                Self::holds_sides(sides, all@, n as int, mat),
                sides.deterministic(),
                sides.boxed(),
                sides.bbox.bounded_above(),
                mat.wf() ==> sides.wf(),
                forall|i: int| 0 <= i < n ==> !Self::spec_degenerate((#[trigger] all@[i]).1, all@[i].2),
            decreases 6 - n,
        {
            let ghost before = sides.objects@;
            match Self::add_side(&mut sides, all[n], &mat) {
                Ok(()) => {
                    assert forall|i: int| 0 <= i < n + 1 implies *(#[trigger] sides.objects@[i]) == Hittable::Quad(
                        Self::spec_new(all@[i].0, all@[i].1, all@[i].2, mat),
                    ) by {
                        if i < n {
                            assert(sides.objects@[i] == sides.objects@.drop_last()[i]);
                        }
                    }
                },
                Err(e) => {
                    return Err(e);
                },
            }
            n += 1;
        }
        Ok(sides)
    }

    /// The box that holds the object.
    pub open spec fn spec_bounding_box(&self) -> aabb {
        self.bbox
    }

    /// The box that holds the object.
    #[verifier::when_used_as_spec(spec_bounding_box)]
    pub fn bounding_box(&self) -> (b: aabb)
        ensures
            b == self.bbox,
    {
        self.bbox
    }
}
} // verus!
