//! A flat list of objects.
use std::sync::Arc;
use vstd::prelude::*;
use crate::aabb::aabb;
use crate::fixed::Fixed;
use crate::hittable::{hit_record, Hittable};
use crate::interval::Interval;
use crate::ray::Ray;
use crate::raytracer::Sampler;

verus! {

/// Objects in the order in which they were added, and the union of their
/// boxes.
#[derive(Debug, PartialEq)]
pub struct HittableList {
    pub objects: Vec<Arc<Hittable>>,
    pub bbox: aabb,
}

/// Where a scan stands between two objects.
pub struct scan_state {
    /// The end of the search interval that is left.
    pub closest: Fixed,
    /// The closest hit so far.
    pub best: Option<hit_record>,
    /// What the record that is handed to the objects holds.
    pub temp: hit_record,
}

/// The state in which a scan of the search interval up to `t_max` starts.
pub open spec fn spec_scan_start(t_max: i64) -> scan_state {
    scan_state { closest: t_max, best: None, temp: hit_record::blank() }
}

/// The state of a scan after an object has answered `o` in the state `s`: a
/// hit becomes the closest hit so far and ends the search interval, a miss
/// changes nothing.
pub open spec fn spec_scan_step(s: scan_state, o: Option<hit_record>) -> scan_state {
    match o {
        Some(x) => scan_state { closest: x.t, best: Some(x), temp: x },
        None => s,
    }
}

/// What a scan that ends in the state `s` has found: the closest hit so far.
pub open spec fn spec_scan_result(s: scan_state) -> Option<hit_record> {
    s.best
}

/// Whether a scan can stand at `s` after the first `i` objects have been
/// asked, each in the search interval from `t_min` to where the state
/// before it ends it.
pub open spec fn can_reach(
    objects: Seq<Arc<Hittable>>,
    r: &Ray,
    t_min: i64,
    t_max: i64,
    i: int,
    s: scan_state,
) -> bool
    decreases objects, i,
{
    if i <= 0 || i > objects.len() {
        s == spec_scan_start(t_max)
    } else {
        exists|before: scan_state, o: Option<hit_record>|
            #![trigger spec_scan_step(before, o)]
            {
                &&& can_reach(objects, r, t_min, t_max, i - 1, before)
                &&& objects[i - 1].can_hit(r, Interval { min: t_min, max: before.closest }, before.temp, o)
                &&& s == spec_scan_step(before, o)
            }
    }
}

/// The union of the boxes of `objects`, from the empty box on.
pub open spec fn spec_union_of(objects: Seq<Arc<Hittable>>) -> aabb
    decreases objects.len(),
{
    if objects.len() == 0 {
        aabb::empty()
    } else {
        aabb::new_from_aabbs(&spec_union_of(objects.drop_last()), &objects.last().spec_bounding_box())
    }
}

/// Whether the box of every object of the sequence is at least
/// `MIN_THICKNESS` thick on every axis.
pub open spec fn all_padded(objects: Seq<Arc<Hittable>>) -> bool {
    forall|i: int| 0 <= i < objects.len() ==> (#[trigger] objects[i]).spec_bounding_box().padded()
}

/// Whether every object of the sequence is well formed.
pub open spec fn all_wf(objects: Seq<Arc<Hittable>>) -> bool
    decreases objects,
{
    forall|i: int| 0 <= i < objects.len() ==> (#[trigger] objects[i]).wf()
}

/// Whether no object of the sequence draws random numbers when it is hit.
pub open spec fn all_deterministic(objects: Seq<Arc<Hittable>>) -> bool
    decreases objects,
{
    forall|i: int| 0 <= i < objects.len() ==> (#[trigger] objects[i]).deterministic()
}

/// The closest hit among the objects from index `i` on, where `best` is the
/// closest hit among those before `i` and `closest` the upper end of the
/// search interval that is left. Each object is asked for a hit in
/// `(t_min, closest)`; a hit replaces `best` and moves `closest` to its ray
/// parameter.
pub open spec fn spec_scan(
    objects: Seq<Arc<Hittable>>,
    r: &Ray,
    t_min: i64,
    closest: i64,
    best: Option<hit_record>,
    i: int,
) -> Option<hit_record>
    decreases objects, objects.len() - i,
{
    if 0 <= i < objects.len() {
        match objects[i].spec_hit(r, Interval { min: t_min, max: closest }) {
            Some(rec) => spec_scan(objects, r, t_min, rec.t, Some(rec), i + 1),
            None => spec_scan(objects, r, t_min, closest, best, i + 1),
        }
    } else {
        best
    }
}

/// A hit that a scan reports is the hit that it started with, or the hit
/// of one of the objects it went through.
pub proof fn lemma_scan_hit_is_an_object_hit(
    objects: Seq<Arc<Hittable>>,
    r: &Ray,
    t_min: i64,
    closest: i64,
    best: Option<hit_record>,
    i: int,
    rec: hit_record,
)
    requires
        0 <= i <= objects.len(),
        spec_scan(objects, r, t_min, closest, best, i) == Some(rec),
    ensures
        best == Some(rec) || exists|k: int, search: Interval|
            i <= k < objects.len() && search.min == t_min && #[trigger] objects[k].spec_hit(r, search) == Some(rec),
    decreases objects.len() - i,
{
    if i < objects.len() {
        let here = Interval { min: t_min, max: closest };
        match objects[i].spec_hit(r, here) {
            Some(found) => {
                lemma_scan_hit_is_an_object_hit(objects, r, t_min, found.t, Some(found), i + 1, rec);
                if found == rec {
                    assert(objects[i].spec_hit(r, here) == Some(rec));
                }
            },
            None => {
                lemma_scan_hit_is_an_object_hit(objects, r, t_min, closest, best, i + 1, rec);
            },
        }
    }
}

/// A hit that a scan reports lies in the search interval, if the hit that
/// the scan started with does and the end of the interval has not moved
/// out.
pub proof fn lemma_scan_hit_in_interval(
    objects: Seq<Arc<Hittable>>,
    r: &Ray,
    ray_t: Interval,
    closest: i64,
    best: Option<hit_record>,
    i: int,
    rec: hit_record,
)
    requires
        0 <= i <= objects.len(),
        closest <= ray_t.max,
        best matches Some(b) ==> ray_t.min <= b.t <= ray_t.max,
        spec_scan(objects, r, ray_t.min, closest, best, i) == Some(rec),
    ensures
        ray_t.min <= rec.t <= ray_t.max,
    decreases objects, objects.len() - i,
{
    if i < objects.len() {
        let here = Interval { min: ray_t.min, max: closest };
        match objects[i].spec_hit(r, here) {
            Some(found) => {
                objects[i].lemma_hit_in_interval(r, here, found);
                lemma_scan_hit_in_interval(objects, r, ray_t, found.t, Some(found), i + 1, rec);
            },
            None => {
                lemma_scan_hit_in_interval(objects, r, ray_t, closest, best, i + 1, rec);
            },
        }
    }
}

/// Among objects without fog, a scan can only stand where the scan by
/// `spec_scan` stands: going on from any state it can reach gives what
/// `spec_scan` gives from the start.
pub proof fn lemma_reach_is_scan(objects: Seq<Arc<Hittable>>, r: &Ray, t_min: i64, t_max: i64, i: int, s: scan_state)
    requires
        0 <= i <= objects.len(),
        all_deterministic(objects),
        can_reach(objects, r, t_min, t_max, i, s),
    ensures
        spec_scan(objects, r, t_min, s.closest, s.best, i) == spec_scan(objects, r, t_min, t_max, None, 0),
    decreases objects, i,
{
    if i > 0 {
        let (before, o) = choose|before: scan_state, o: Option<hit_record>|
            #![trigger spec_scan_step(before, o)]
            {
                &&& can_reach(objects, r, t_min, t_max, i - 1, before)
                &&& objects[i - 1].can_hit(r, Interval { min: t_min, max: before.closest }, before.temp, o)
                &&& s == spec_scan_step(before, o)
            };
        lemma_reach_is_scan(objects, r, t_min, t_max, i - 1, before);
        objects[i - 1].lemma_one_outcome(r, Interval { min: t_min, max: before.closest }, before.temp, o);
    }
}

impl HittableList {
    /// Whether everything inside is well formed.
    pub open spec fn wf(&self) -> bool
        decreases self,
    {
        all_wf(self.objects@)
    }

    /// Whether a hit test draws no random numbers: there is no fog inside.
    pub open spec fn deterministic(&self) -> bool
        decreases self,
    {
        all_deterministic(self.objects@)
    }

    /// Tests `wf`.
    pub fn is_well_formed(&self) -> (ok: bool)
        ensures
            ok == self.wf(),
        decreases self,
    {
        let mut i: usize = 0;
        while i < self.objects.len()
            invariant
                i <= self.objects@.len(),
                forall|k: int| 0 <= k < i ==> (#[trigger] self.objects@[k]).wf(),
            decreases self.objects@.len() - i,
        {
            if !self.objects[i].is_well_formed() {
                return false;
            }
            i += 1;
        }
        true
    }

    /// Whether the box is the union of the boxes of the objects.
    pub open spec fn boxed(&self) -> bool {
        self.bbox == spec_union_of(self.objects@)
    }

    /// The empty list.
    pub fn new() -> (l: HittableList)
        ensures
            l.objects@.len() == 0,
            l.bbox == aabb::empty(),
            l.wf(),
            l.deterministic(),
            l.boxed(),
            l.bbox.bounded_above(),
    {
        HittableList { objects: Vec::new(), bbox: aabb::empty() }
    }

    /// Removes every object and empties the box.
    pub fn clear(&mut self)
        ensures
            final(self).objects@.len() == 0,
            final(self).bbox == aabb::empty(),
            final(self).boxed(),
    {
        self.objects.clear();
        self.bbox = aabb::empty();
    }

    /// Appends `object` and widens the box by the object's box.
    pub fn add(&mut self, object: Arc<Hittable>)
        ensures
            final(self).objects@ == old(self).objects@.push(object),
            final(self).bbox == aabb::new_from_aabbs(&old(self).bbox, &object.spec_bounding_box()),
            old(self).wf() && object.wf() ==> final(self).wf(),
            old(self).deterministic() && object.deterministic() ==> final(self).deterministic(),
            old(self).boxed() ==> final(self).boxed(),
            final(self).bbox.bounded_above(),
    {
        self.bbox = aabb::new_from_aabbs(&self.bbox, &object.bounding_box());
        self.objects.push(object);
        assert(self.objects@.drop_last() =~= old(self).objects@);
    }

    /// The closest hit among the objects, found by a scan in list order.
    pub open spec fn spec_hit(&self, r: &Ray, ray_t: Interval) -> Option<hit_record>
        decreases self,
    {
        spec_scan(self.objects@, r, ray_t.min, ray_t.max, None, 0)
    }

    /// Whether a hit test may end with `outcome`, the record of a hit or
    /// nothing: it may if a scan of all objects can end in a state whose
    /// closest hit is `outcome`.
    pub open spec fn can_hit(&self, r: &Ray, ray_t: Interval, before: hit_record, outcome: Option<hit_record>) -> bool
        decreases self,
    {
        exists|s: scan_state|
            #![trigger spec_scan_result(s)]
            can_reach(self.objects@, r, ray_t.min, ray_t.max, self.objects@.len() as int, s) && outcome
                == spec_scan_result(s)
    }

    /// Scans the list for the closest hit in `ray_t`. On a hit, `rec` is
    /// overwritten with the record of the closest hit; on a miss it is left
    /// as it was. The outcome is one that `can_hit` allows; without fog that
    /// is `spec_hit`.
    pub fn hit(&self, r: &Ray, ray_t: Interval, rec: &mut hit_record, rng: &mut Sampler) -> (hit: bool)
        requires
            self.wf(),
        ensures
            self.deterministic() ==> hit == self.spec_hit(r, ray_t).is_some(),
            self.deterministic() && hit ==> *final(rec) == self.spec_hit(r, ray_t).unwrap(),
            hit ==> final(rec).mat.wf(),
            !hit ==> *final(rec) == *old(rec),
            self.can_hit(
                r,
                ray_t,
                *old(rec),
                if hit {
                    Some(*final(rec))
                } else {
                    None
                },
            ),
        decreases self,
    {
        let mut temp_rec = hit_record::blank();
        let mut hit_anything = false;
        let mut closest_so_far: Fixed = ray_t.max;
        let mut i: usize = 0;
        while i < self.objects.len()
            invariant
                0 <= i <= self.objects@.len(),
                self.wf(),
                !hit_anything ==> *rec == *old(rec),
                hit_anything ==> rec.mat.wf(),
                can_reach(
                    self.objects@,
                    r,
                    ray_t.min,
                    ray_t.max,
                    i as int,
                    scan_state {
                        closest: closest_so_far,
                        best: if hit_anything {
                            Some(*rec)
                        } else {
                            None
                        },
                        temp: temp_rec,
                    },
                ),
                self.deterministic() ==> spec_scan(
                    self.objects@,
                    r,
                    ray_t.min,
                    closest_so_far,
                    if hit_anything {
                        Some(*rec)
                    } else {
                        None
                    },
                    i as int,
                ) == self.spec_hit(r, ray_t),
            decreases self.objects@.len() - i,
        {
            let ghost before = scan_state {
                closest: closest_so_far,
                best: if hit_anything {
                    Some(*rec)
                } else {
                    None
                },
                temp: temp_rec,
            };
            let found = self.objects[i].hit(r, Interval::new(ray_t.min, closest_so_far), &mut temp_rec, rng);
            let ghost answer = if found {
                Some(temp_rec)
            } else {
                None
            };
            if found {
                hit_anything = true;
                closest_so_far = temp_rec.t;
                rec.t = temp_rec.t;
                rec.p = temp_rec.p;
                rec.u = temp_rec.u;
                rec.v = temp_rec.v;
                rec.normal = temp_rec.normal;
                rec.front_face = temp_rec.front_face;
                rec.mat = crate::hittable::share(&temp_rec.mat);
            }
            proof {
                let after = scan_state {
                    closest: closest_so_far,
                    best: if hit_anything {
                        Some(*rec)
                    } else {
                        None
                    },
                    temp: temp_rec,
                };
                assert(after == spec_scan_step(before, answer));
            }
            i += 1;
        }
        proof {
            let last = scan_state {
                closest: closest_so_far,
                best: if hit_anything {
                    Some(*rec)
                } else {
                    None
                },
                temp: temp_rec,
            };
            assert(spec_scan_result(last) == last.best);
        }
        hit_anything
    }

    /// The box that holds the object.
    pub open spec fn spec_bounding_box(&self) -> aabb {
        self.bbox
    }

    /// The box that holds the object.
    #[verifier::when_used_as_spec(spec_bounding_box)]
    pub fn bounding_box(&self) -> (b: aabb)
        ensures
            b == self.bbox,
    {
        self.bbox
    }
}
} // verus!
