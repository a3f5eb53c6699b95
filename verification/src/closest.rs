//! Closest hits: what a scan of a list and a search of the hierarchy
//! compute, and when the two agree.
use std::sync::Arc;
use vstd::prelude::*;
use crate::bvh::{lemma_sorted_from, lemma_sorted_len, lemma_sorted_onto, spec_build, spec_build_sized, spec_sorted};
use crate::fixed::{
    fadd, fdiv, fmul, fsqrt, fsub, lemma_fdiv_monotone, lemma_fmul_square, lemma_fsqrt_nonneg, spec_fadd, spec_fdiv,
    spec_fmul, spec_fsqrt, spec_fsub,
};
use crate::hittable::{hit_record, Hittable};
use crate::hittable_list::{spec_scan, spec_union_of};
use crate::interval::Interval;
use crate::quad::Quad;
use crate::ray::Ray;
use crate::sphere::Sphere;

verus! {

/// The hit of `o` by `r` in the search interval from `from` to `to`.
pub open spec fn hit_up_to(o: Arc<Hittable>, r: &Ray, from: i64, to: i64) -> Option<hit_record> {
    o.spec_hit(r, Interval { min: from, max: to })
}

/// Whether the hit of `o` between `from` and `to` is found again when the
/// search ends at `hi` already: it is if it lies before `hi`, it is not if
/// it lies behind `hi`, and nothing else is found in its place.
pub open spec fn stable_at(o: Arc<Hittable>, r: &Ray, from: i64, to: i64, hi: i64) -> bool {
    let full = hit_up_to(o, r, from, to);
    let part = hit_up_to(o, r, from, hi);
    &&& part is None || part == full
    &&& full matches Some(x) ==> (x.t < hi ==> part == full) && (x.t > hi ==> part is None)
}

/// Whether the hit of `o` between `from` and `to` does not depend on where
/// the search ends.
pub open spec fn stable(o: Arc<Hittable>, r: &Ray, from: i64, to: i64) -> bool {
    forall|hi: i64| hi <= to ==> #[trigger] stable_at(o, r, from, to, hi)
}

/// Whether every one of the objects is `stable`.
pub open spec fn all_stable(objects: Seq<Arc<Hittable>>, r: &Ray, from: i64, to: i64) -> bool {
    forall|k: int| 0 <= k < objects.len() ==> stable(#[trigger] objects[k], r, from, to)
}

/// Whether `best` is a closest hit among the first `n` objects: nothing if
/// none of them is hit between `from` and `to`, and otherwise the hit of
/// one of them that no other hit lies before.
pub open spec fn is_closest_among(
    objects: Seq<Arc<Hittable>>,
    n: int,
    r: &Ray,
    from: i64,
    to: i64,
    best: Option<hit_record>,
) -> bool {
    match best {
        None => forall|k: int| 0 <= k < n ==> hit_up_to(#[trigger] objects[k], r, from, to) is None,
        Some(x) => {
            &&& exists|k: int| 0 <= k < n && hit_up_to(#[trigger] objects[k], r, from, to) == Some(x)
            &&& forall|k: int|
                0 <= k < n ==> (hit_up_to(#[trigger] objects[k], r, from, to) matches Some(y) ==> x.t <= y.t)
        },
    }
}

/// Whether `best` is a closest hit among all the objects.
pub open spec fn is_closest(objects: Seq<Arc<Hittable>>, r: &Ray, from: i64, to: i64, best: Option<hit_record>) -> bool {
    is_closest_among(objects, objects.len() as int, r, from, to, best)
}

/// Whether no two of the objects are hit at the same ray parameter.
pub open spec fn no_ties(objects: Seq<Arc<Hittable>>, r: &Ray, from: i64, to: i64) -> bool {
    forall|j: int, k: int|
        0 <= j < k < objects.len() ==> (hit_up_to(#[trigger] objects[j], r, from, to) matches Some(x) ==> (hit_up_to(
            #[trigger] objects[k],
            r,
            from,
            to,
        ) matches Some(y) ==> x.t != y.t))
}

/// A stable object is stable in every search interval that ends earlier.
pub proof fn lemma_stable_narrow(o: Arc<Hittable>, r: &Ray, from: i64, to: i64, sooner: i64)
    requires
        stable(o, r, from, to),
        sooner <= to,
    ensures
        stable(o, r, from, sooner),
{
    assert forall|hi: i64| hi <= sooner implies #[trigger] stable_at(o, r, from, sooner, hi) by {
        assert(stable_at(o, r, from, to, hi));
        assert(stable_at(o, r, from, to, sooner));
    }
}

/// A sphere is stable for every ray and every search interval: the two
/// roots do not depend on the interval, and the nearer one comes first.
pub proof fn lemma_sphere_is_stable(o: Arc<Hittable>, r: &Ray, from: i64, to: i64)
    requires
        *o is Sphere,
    ensures
        stable(o, r, from, to),
{
    match &*o {
        Hittable::Sphere(s) => {
            let oc = s.spec_center_for(r).minus(r.orig);
            let a = r.dir.dot(r.dir);
            let h = oc.dot(r.dir);
            let c = fsub(oc.dot(oc), fmul(s.radius, s.radius));
            let discriminant = fsub(fmul(h, h), fmul(a, c));
            let near = fdiv(fsub(h, fsqrt(discriminant)), a);
            let far = fdiv(fadd(h, fsqrt(discriminant)), a);
            lemma_fmul_square(r.dir.x);
            lemma_fmul_square(r.dir.y);
            lemma_fmul_square(r.dir.z);
            assert(a >= 0);
            lemma_fsqrt_nonneg(discriminant);
            lemma_fdiv_monotone(fsub(h, fsqrt(discriminant)), fadd(h, fsqrt(discriminant)), a);
            assert(near <= far);
            reveal(Sphere::spec_hit);
            assert forall|hi: i64| hi <= to implies #[trigger] stable_at(o, r, from, to, hi) by {
                assert(hit_up_to(o, r, from, to) == s.spec_hit(r, Interval { min: from, max: to }));
                assert(hit_up_to(o, r, from, hi) == s.spec_hit(r, Interval { min: from, max: hi }));
            }
        },
        _ => {},
    }
}

/// A quad is stable for every ray and every search interval: where the ray
/// crosses the plane does not depend on the interval.
pub proof fn lemma_quad_is_stable(o: Arc<Hittable>, r: &Ray, from: i64, to: i64)
    requires
        *o is Quad,
    ensures
        stable(o, r, from, to),
{
    match &*o {
        Hittable::Quad(q) => {
            reveal(Quad::spec_hit);
            assert forall|hi: i64| hi <= to implies #[trigger] stable_at(o, r, from, to, hi) by {
                assert(hit_up_to(o, r, from, to) == q.spec_hit(r, Interval { min: from, max: to }));
                assert(hit_up_to(o, r, from, hi) == q.spec_hit(r, Interval { min: from, max: hi }));
            }
        },
        _ => {},
    }
}

/// An object that was moved is stable where the object is stable for the
/// ray moved back.
pub proof fn lemma_translate_is_stable(o: Arc<Hittable>, r: &Ray, from: i64, to: i64)
    requires
        *o matches Hittable::Translate(t) && stable(t.object, &t.spec_object_ray(r), from, to),
    ensures
        stable(o, r, from, to),
{
    match &*o {
        Hittable::Translate(t) => {
            let inner = t.spec_object_ray(r);
            assert forall|hi: i64| hi <= to implies #[trigger] stable_at(o, r, from, to, hi) by {
                assert(stable_at(t.object, &inner, from, to, hi));
                assert(hit_up_to(o, r, from, to) == t.spec_hit(r, Interval { min: from, max: to }));
                assert(hit_up_to(o, r, from, hi) == t.spec_hit(r, Interval { min: from, max: hi }));
            }
        },
        _ => {},
    }
}

/// An object that was turned is stable where the object is stable for the
/// ray turned back.
pub proof fn lemma_rotate_is_stable(o: Arc<Hittable>, r: &Ray, from: i64, to: i64)
    requires
        *o matches Hittable::RotateY(t) && stable(t.object, &t.spec_object_ray(r), from, to),
    ensures
        stable(o, r, from, to),
{
    match &*o {
        Hittable::RotateY(t) => {
            let inner = t.spec_object_ray(r);
            assert forall|hi: i64| hi <= to implies #[trigger] stable_at(o, r, from, to, hi) by {
                assert(stable_at(t.object, &inner, from, to, hi));
                assert(hit_up_to(o, r, from, to) == t.spec_hit(r, Interval { min: from, max: to }));
                assert(hit_up_to(o, r, from, hi) == t.spec_hit(r, Interval { min: from, max: hi }));
            }
        },
        _ => {},
    }
}

/// Without ties there is only one closest hit.
pub proof fn lemma_closest_is_unique(
    objects: Seq<Arc<Hittable>>,
    r: &Ray,
    from: i64,
    to: i64,
    one: Option<hit_record>,
    other: Option<hit_record>,
)
    requires
        no_ties(objects, r, from, to),
        is_closest(objects, r, from, to, one),
        is_closest(objects, r, from, to, other),
    ensures
        one == other,
{
    match (one, other) {
        (Some(x), Some(y)) => {
            let j = choose|k: int| 0 <= k < objects.len() && hit_up_to(#[trigger] objects[k], r, from, to) == Some(x);
            let k = choose|k: int| 0 <= k < objects.len() && hit_up_to(#[trigger] objects[k], r, from, to) == Some(y);
            assert(x.t <= y.t && y.t <= x.t);
            if j < k {
                assert(x.t != y.t);
            } else if k < j {
                assert(y.t != x.t);
            }
        },
        (Some(x), None) => {
            let j = choose|k: int| 0 <= k < objects.len() && hit_up_to(#[trigger] objects[k], r, from, to) == Some(x);
            assert(hit_up_to(objects[j], r, from, to) is None);
        },
        (None, Some(y)) => {
            let k = choose|k: int| 0 <= k < objects.len() && hit_up_to(#[trigger] objects[k], r, from, to) == Some(y);
            assert(hit_up_to(objects[k], r, from, to) is None);
        },
        (None, None) => {},
    }
}

/// The end of the search interval that a scan goes on with after `best`.
pub open spec fn spec_closest_so_far(best: Option<hit_record>, to: i64) -> i64 {
    match best {
        Some(x) => x.t,
        None => to,
    }
}

/// A scan that has found a closest hit among the first `i` objects ends
/// with a closest hit among all of them, if the objects are stable.
pub proof fn lemma_scan_goes_on_to_closest(
    objects: Seq<Arc<Hittable>>,
    r: &Ray,
    from: i64,
    to: i64,
    best: Option<hit_record>,
    i: int,
)
    requires
        0 <= i <= objects.len(),
        all_stable(objects, r, from, to),
        is_closest_among(objects, i, r, from, to, best),
    ensures
        is_closest(objects, r, from, to, spec_scan(objects, r, from, spec_closest_so_far(best, to), best, i)),
    decreases objects.len() - i,
{
    if i < objects.len() {
        let o = objects[i];
        let closest = spec_closest_so_far(best, to);
        let full = hit_up_to(o, r, from, to);
        let part = hit_up_to(o, r, from, closest);
        assert(stable(o, r, from, to));
        match best {
            Some(b) => {
                let j = choose|k: int| 0 <= k < i && hit_up_to(#[trigger] objects[k], r, from, to) == Some(b);
                objects[j].lemma_hit_in_interval(r, Interval { min: from, max: to }, b);
                assert(stable_at(o, r, from, to, closest));
            },
            None => {},
        }
        match part {
            Some(found) => {
                assert(full == Some(found));
                assert(is_closest_among(objects, i + 1, r, from, to, Some(found))) by {
                    assert(hit_up_to(objects[i], r, from, to) == Some(found));
                    if best is Some {
                        o.lemma_hit_in_interval(r, Interval { min: from, max: closest }, found);
                    }
                }
                lemma_scan_goes_on_to_closest(objects, r, from, to, Some(found), i + 1);
            },
            None => {
                assert(is_closest_among(objects, i + 1, r, from, to, best)) by {
                    match best {
                        Some(b) => {
                            let j = choose|k: int|
                                0 <= k < i && hit_up_to(#[trigger] objects[k], r, from, to) == Some(b);
                            assert(0 <= j < i + 1 && hit_up_to(objects[j], r, from, to) == Some(b));
                        },
                        None => {},
                    }
                }
                lemma_scan_goes_on_to_closest(objects, r, from, to, best, i + 1);
            },
        }
    }
}

/// The scan of a list of stable objects finds a closest hit.
pub proof fn lemma_scan_is_closest(objects: Seq<Arc<Hittable>>, r: &Ray, ray_t: Interval)
    requires
        all_stable(objects, r, ray_t.min, ray_t.max),
    ensures
        is_closest(objects, r, ray_t.min, ray_t.max, spec_scan(objects, r, ray_t.min, ray_t.max, None, 0)),
{
    lemma_scan_goes_on_to_closest(objects, r, ray_t.min, ray_t.max, None, 0);
}

/// The hit of a single object is the closest hit among that object.
pub proof fn lemma_single_is_closest(o: Arc<Hittable>, r: &Ray, from: i64, to: i64)
    ensures
        is_closest(seq![o], r, from, to, hit_up_to(o, r, from, to)),
{
    let one = seq![o];
    assert(one[0] == o);
    if hit_up_to(o, r, from, to) is Some {
        assert(hit_up_to(one[0], r, from, to) == hit_up_to(o, r, from, to));
    }
}

/// Searching one group of objects and then, up to the hit that was found,
/// a second group gives a closest hit among all objects of the two groups:
/// the hit of the second search if there is one, and that of the first
/// search otherwise.
pub proof fn lemma_two_searches_give_closest(
    all: Seq<Arc<Hittable>>,
    first: Seq<Arc<Hittable>>,
    second: Seq<Arc<Hittable>>,
    r: &Ray,
    from: i64,
    to: i64,
    hit_first: Option<hit_record>,
    hit_second: Option<hit_record>,
)
    requires
        all_stable(all, r, from, to),
        forall|j: int| 0 <= j < first.len() ==> all.contains(#[trigger] first[j]),
        forall|j: int| 0 <= j < second.len() ==> all.contains(#[trigger] second[j]),
        forall|m: int| 0 <= m < all.len() ==> first.contains(#[trigger] all[m]) || second.contains(all[m]),
        is_closest(first, r, from, to, hit_first),
        is_closest(second, r, from, spec_closest_so_far(hit_first, to), hit_second),
    ensures
        is_closest(
            all,
            r,
            from,
            to,
            if hit_second is Some {
                hit_second
            } else {
                hit_first
            },
        ),
{
    let sooner = spec_closest_so_far(hit_first, to);
    let result = if hit_second is Some {
        hit_second
    } else {
        hit_first
    };
    // The first hit lies in the search interval, so the second search ends no later.
    if hit_first is Some {
        let l = hit_first.unwrap();
        let k = choose|k: int| 0 <= k < first.len() && hit_up_to(#[trigger] first[k], r, from, to) == Some(l);
        first[k].lemma_hit_in_interval(r, Interval { min: from, max: to }, l);
    }
    assert(sooner <= to);
    // What the second search finds is a hit in the whole interval too, and lies before its end.
    if hit_second is Some {
        let x = hit_second.unwrap();
        let k = choose|k: int| 0 <= k < second.len() && hit_up_to(#[trigger] second[k], r, from, sooner) == Some(x);
        second[k].lemma_hit_in_interval(r, Interval { min: from, max: sooner }, x);
        assert(all.contains(second[k]));
        let m = choose|m: int| 0 <= m < all.len() && all[m] == second[k];
        assert(stable(all[m], r, from, to));
        assert(stable_at(all[m], r, from, to, sooner));
        assert(hit_up_to(all[m], r, from, to) == Some(x));
    } else if hit_first is Some {
        let l = hit_first.unwrap();
        let k = choose|k: int| 0 <= k < first.len() && hit_up_to(#[trigger] first[k], r, from, to) == Some(l);
        assert(all.contains(first[k]));
        let m = choose|m: int| 0 <= m < all.len() && all[m] == first[k];
        assert(hit_up_to(all[m], r, from, to) == Some(l));
    }
    // No hit of any object lies before the result.
    assert forall|m: int| 0 <= m < all.len() implies match result {
        None => hit_up_to(#[trigger] all[m], r, from, to) is None,
        Some(x) => hit_up_to(all[m], r, from, to) matches Some(y) ==> x.t <= y.t,
    } by {
        let o = all[m];
        let full = hit_up_to(o, r, from, to);
        assert(stable(o, r, from, to));
        assert(stable_at(o, r, from, to, sooner));
        if first.contains(o) {
            let j = choose|j: int| 0 <= j < first.len() && first[j] == o;
            assert(hit_up_to(first[j], r, from, to) == full);
        }
        if second.contains(o) {
            let j = choose|j: int| 0 <= j < second.len() && second[j] == o;
            assert(hit_up_to(second[j], r, from, sooner) == hit_up_to(o, r, from, sooner));
        }
    }
}

/// Whether the boxes of the hierarchy over the `n` objects of `span` turn
/// no ray away from an object that it hits: whenever the ray `r` misses the
/// box of a node in a search interval that starts at `from` and ends at or
/// before `to`, it hits no object below that node in that interval.
pub open spec fn boxes_are_safe(span: Seq<Arc<Hittable>>, n: nat, r: &Ray, from: i64, to: i64) -> bool
    decreases n,
{
    &&& forall|hi: i64, k: int|
        hi <= to && 0 <= k < span.len() && !spec_union_of(span).hit(r, Interval { min: from, max: hi })
            ==> #[trigger] hit_up_to(span[k], r, from, hi) is None
    &&& n >= 3 ==> {
        let sorted = spec_sorted(span, spec_union_of(span).longest_axis(), n as int);
        let mid = n / 2;
        &&& boxes_are_safe(sorted.subrange(0, mid as int), mid, r, from, to)
        &&& boxes_are_safe(sorted.subrange(mid as int, n as int), (n - mid) as nat, r, from, to)
    }
}

/// Safe boxes stay safe when the search ends earlier.
pub proof fn lemma_boxes_stay_safe(span: Seq<Arc<Hittable>>, n: nat, r: &Ray, from: i64, to: i64, sooner: i64)
    requires
        boxes_are_safe(span, n, r, from, to),
        sooner <= to,
    ensures
        boxes_are_safe(span, n, r, from, sooner),
    decreases n,
{
    if n >= 3 {
        let sorted = spec_sorted(span, spec_union_of(span).longest_axis(), n as int);
        let mid = n / 2;
        lemma_boxes_stay_safe(sorted.subrange(0, mid as int), mid, r, from, to, sooner);
        lemma_boxes_stay_safe(sorted.subrange(mid as int, n as int), (n - mid) as nat, r, from, to, sooner);
    }
}

/// The two halves into which the hierarchy splits three or more objects
/// hold the same objects as the span, and are stable where the span is.
pub proof fn lemma_halves(span: Seq<Arc<Hittable>>, axis: usize, r: &Ray, from: i64, to: i64, sooner: i64)
    requires
        span.len() >= 3,
        all_stable(span, r, from, to),
        sooner <= to,
    ensures
        ({
            let n = span.len() as int;
            let sorted = spec_sorted(span, axis, n);
            let first = sorted.subrange(0, n / 2);
            let second = sorted.subrange(n / 2, n);
            &&& sorted.len() == n
            &&& forall|j: int| 0 <= j < first.len() ==> span.contains(#[trigger] first[j])
            &&& forall|j: int| 0 <= j < second.len() ==> span.contains(#[trigger] second[j])
            &&& forall|m: int| 0 <= m < span.len() ==> first.contains(#[trigger] span[m]) || second.contains(span[m])
            &&& all_stable(first, r, from, to)
            &&& all_stable(second, r, from, sooner)
        }),
{
    let n = span.len() as int;
    let sorted = spec_sorted(span, axis, n);
    let mid = n / 2;
    let first = sorted.subrange(0, mid);
    let second = sorted.subrange(mid, n);
    lemma_sorted_len(span, axis, n);
    assert forall|j: int| 0 <= j < first.len() implies span.contains(#[trigger] first[j]) && stable(
        first[j],
        r,
        from,
        to,
    ) by {
        let m = lemma_sorted_from(span, axis, n, j);
        assert(span[m] == first[j]);
        assert(stable(span[m], r, from, to));
    }
    assert forall|j: int| 0 <= j < second.len() implies span.contains(#[trigger] second[j]) && stable(
        second[j],
        r,
        from,
        sooner,
    ) by {
        let m = lemma_sorted_from(span, axis, n, mid + j);
        assert(span[m] == second[j]);
        assert(stable(span[m], r, from, to));
        lemma_stable_narrow(span[m], r, from, to, sooner);
    }
    assert forall|m: int| 0 <= m < span.len() implies first.contains(#[trigger] span[m]) || second.contains(
        span[m],
    ) by {
        let j = lemma_sorted_onto(span, axis, n, m);
        if j < mid {
            assert(first[j] == span[m]);
        } else {
            assert(second[j - mid] == span[m]);
        }
    }
}

/// A ray that misses the box of a node with safe boxes hits no object
/// below the node.
pub proof fn lemma_missed_box_hides_nothing(span: Seq<Arc<Hittable>>, r: &Ray, from: i64, to: i64)
    requires
        boxes_are_safe(span, span.len(), r, from, to),
        !spec_union_of(span).hit(r, Interval { min: from, max: to }),
    ensures
        is_closest(span, r, from, to, None),
{
    assert forall|k: int| 0 <= k < span.len() implies hit_up_to(#[trigger] span[k], r, from, to) is None by {}
}

/// The hierarchy over one or two objects finds a closest hit, if the
/// objects are stable and its box is safe.
pub proof fn lemma_small_tree_is_closest(span: Seq<Arc<Hittable>>, r: &Ray, from: i64, to: i64)
    requires
        1 <= span.len() <= 2,
        all_stable(span, r, from, to),
        boxes_are_safe(span, span.len(), r, from, to),
    ensures
        is_closest(span, r, from, to, spec_build(span).spec_hit(r, Interval { min: from, max: to })),
{
    let ray_t = Interval { min: from, max: to };
    let node = spec_build(span);
    if !node.bbox.hit(r, ray_t) {
        lemma_missed_box_hides_nothing(span, r, from, to);
    } else {
        let hit_left = node.left.spec_hit(r, ray_t);
        let sooner = spec_closest_so_far(hit_left, to);
        let hit_right = node.right.spec_hit(r, Interval { min: from, max: sooner });
        let last = span[span.len() - 1];
        let one = seq![span[0]];
        let two = seq![last];
        lemma_single_is_closest(span[0], r, from, to);
        lemma_single_is_closest(last, r, from, sooner);
        assert(one[0] == span[0] && two[0] == last);
        assert(span.contains(span[0]) && span.contains(last));
        assert forall|m: int| 0 <= m < span.len() implies one.contains(#[trigger] span[m]) || two.contains(
            span[m],
        ) by {
            if m == 0 {
                assert(one[0] == span[m]);
            } else {
                assert(two[0] == span[m]);
            }
        }
        lemma_two_searches_give_closest(span, one, two, r, from, to, hit_left, hit_right);
    }
}

/// The hierarchy over stable objects finds a closest hit, if its boxes are
/// safe.
pub proof fn lemma_tree_is_closest(span: Seq<Arc<Hittable>>, r: &Ray, from: i64, to: i64)
    requires
        span.len() >= 1,
        all_stable(span, r, from, to),
        boxes_are_safe(span, span.len(), r, from, to),
    ensures
        is_closest(span, r, from, to, spec_build(span).spec_hit(r, Interval { min: from, max: to })),
    decreases span.len(),
{
    let n = span.len() as int;
    let ray_t = Interval { min: from, max: to };
    let node = spec_build(span);
    if n <= 2 {
        lemma_small_tree_is_closest(span, r, from, to);
    } else if !node.bbox.hit(r, ray_t) {
        lemma_missed_box_hides_nothing(span, r, from, to);
    } else {
        reveal_with_fuel(spec_build_sized, 2);
        let axis = spec_union_of(span).longest_axis();
        let sorted = spec_sorted(span, axis, n);
        let mid = n / 2;
        let first = sorted.subrange(0, mid);
        let second = sorted.subrange(mid, n);
        let hit_left = spec_build(first).spec_hit(r, ray_t);
        lemma_sorted_len(span, axis, n);
        lemma_halves(span, axis, r, from, to, to);
        lemma_tree_is_closest(first, r, from, to);
        lemma_closest_hit_in_interval(first, r, from, to, hit_left);
        let sooner = spec_closest_so_far(hit_left, to);
        let hit_right = spec_build(second).spec_hit(r, Interval { min: from, max: sooner });
        lemma_halves(span, axis, r, from, to, sooner);
        lemma_boxes_stay_safe(second, (n - mid) as nat, r, from, to, sooner);
        lemma_tree_is_closest(second, r, from, sooner);
        lemma_two_searches_give_closest(span, first, second, r, from, to, hit_left, hit_right);
        assert(node.left.spec_hit(r, ray_t) == hit_left);
        assert(node.right.spec_hit(r, Interval { min: from, max: sooner }) == hit_right);
    }
}

/// A closest hit lies in the search interval.
pub proof fn lemma_closest_hit_in_interval(
    objects: Seq<Arc<Hittable>>,
    r: &Ray,
    from: i64,
    to: i64,
    best: Option<hit_record>,
)
    requires
        is_closest(objects, r, from, to, best),
    ensures
        spec_closest_so_far(best, to) <= to,
        best matches Some(x) ==> from <= x.t,
{
    if best is Some {
        let x = best.unwrap();
        let k = choose|k: int| 0 <= k < objects.len() && hit_up_to(#[trigger] objects[k], r, from, to) == Some(x);
        objects[k].lemma_hit_in_interval(r, Interval { min: from, max: to }, x);
    }
}

/// Whether every one of the objects is a sphere or a quad.
pub open spec fn all_primitive(objects: Seq<Arc<Hittable>>) -> bool {
    forall|k: int| 0 <= k < objects.len() ==> *(#[trigger] objects[k]) is Sphere || *objects[k] is Quad
}

/// Spheres and quads are stable for every ray and every search interval.
pub proof fn lemma_primitives_are_stable(objects: Seq<Arc<Hittable>>, r: &Ray, from: i64, to: i64)
    requires
        all_primitive(objects),
    ensures
        all_stable(objects, r, from, to),
{
    assert forall|k: int| 0 <= k < objects.len() implies stable(#[trigger] objects[k], r, from, to) by {
        if *objects[k] is Sphere {
            lemma_sphere_is_stable(objects[k], r, from, to);
        } else {
            lemma_quad_is_stable(objects[k], r, from, to);
        }
    }
}

/// The hierarchy over a list of objects finds the hit that a scan of the
/// list finds, for every ray and search interval for which the objects are
/// stable, no two of them are hit at the same ray parameter, and the boxes
/// of the hierarchy are safe.
pub proof fn lemma_tree_equals_scan(span: Seq<Arc<Hittable>>, r: &Ray, ray_t: Interval)
    requires
        span.len() >= 1,
        all_stable(span, r, ray_t.min, ray_t.max),
        no_ties(span, r, ray_t.min, ray_t.max),
        boxes_are_safe(span, span.len(), r, ray_t.min, ray_t.max),
    ensures
        spec_build(span).spec_hit(r, ray_t) == spec_scan(span, r, ray_t.min, ray_t.max, None, 0),
{
    lemma_scan_is_closest(span, r, ray_t);
    lemma_tree_is_closest(span, r, ray_t.min, ray_t.max);
    lemma_closest_is_unique(
        span,
        r,
        ray_t.min,
        ray_t.max,
        spec_build(span).spec_hit(r, ray_t),
        spec_scan(span, r, ray_t.min, ray_t.max, None, 0),
    );
}

/// Two closest hits among the same objects are both a hit or both a miss,
/// and if hits, at the same ray parameter.
pub proof fn lemma_closest_hits_agree(
    objects: Seq<Arc<Hittable>>,
    r: &Ray,
    from: i64,
    to: i64,
    one: Option<hit_record>,
    other: Option<hit_record>,
)
    requires
        is_closest(objects, r, from, to, one),
        is_closest(objects, r, from, to, other),
    ensures
        one is Some <==> other is Some,
        one matches Some(x) ==> other matches Some(y) && x.t == y.t,
{
    if one is Some {
        let x = one.unwrap();
        let j = choose|k: int| 0 <= k < objects.len() && hit_up_to(#[trigger] objects[k], r, from, to) == Some(x);
        if other is Some {
            let y = other.unwrap();
            let k = choose|k: int| 0 <= k < objects.len() && hit_up_to(#[trigger] objects[k], r, from, to) == Some(y);
            assert(x.t <= y.t && y.t <= x.t);
        } else {
            assert(hit_up_to(objects[j], r, from, to) is None);
        }
    } else if other is Some {
        let y = other.unwrap();
        let k = choose|k: int| 0 <= k < objects.len() && hit_up_to(#[trigger] objects[k], r, from, to) == Some(y);
        assert(hit_up_to(objects[k], r, from, to) is None);
    }
}

/// The hierarchy over a list of stable objects reports a hit for exactly
/// the rays for which a scan of the list reports one, and at the same ray
/// parameter, if the boxes of the hierarchy are safe. Where two objects are
/// hit at that parameter, the two searches may name different ones.
pub proof fn lemma_tree_hits_where_scan_hits(span: Seq<Arc<Hittable>>, r: &Ray, ray_t: Interval)
    requires
        span.len() >= 1,
        all_stable(span, r, ray_t.min, ray_t.max),
        boxes_are_safe(span, span.len(), r, ray_t.min, ray_t.max),
    ensures
        spec_build(span).spec_hit(r, ray_t) is Some <==> spec_scan(span, r, ray_t.min, ray_t.max, None, 0) is Some,
        spec_build(span).spec_hit(r, ray_t) matches Some(x) ==> spec_scan(
            span,
            r,
            ray_t.min,
            ray_t.max,
            None,
            0,
        ) matches Some(y) && x.t == y.t,
{
    lemma_scan_is_closest(span, r, ray_t);
    lemma_tree_is_closest(span, r, ray_t.min, ray_t.max);
    lemma_closest_hits_agree(
        span,
        r,
        ray_t.min,
        ray_t.max,
        spec_build(span).spec_hit(r, ray_t),
        spec_scan(span, r, ray_t.min, ray_t.max, None, 0),
    );
}

/// The hierarchy over spheres and quads reports a hit for exactly the rays
/// for which a scan of them reports one, and at the same ray parameter, if
/// the boxes of the hierarchy are safe.
pub proof fn lemma_tree_of_primitives_hits_where_scan_hits(span: Seq<Arc<Hittable>>, r: &Ray, ray_t: Interval)
    requires
        span.len() >= 1,
        all_primitive(span),
        boxes_are_safe(span, span.len(), r, ray_t.min, ray_t.max),
    ensures
        spec_build(span).spec_hit(r, ray_t) is Some <==> spec_scan(span, r, ray_t.min, ray_t.max, None, 0) is Some,
        spec_build(span).spec_hit(r, ray_t) matches Some(x) ==> spec_scan(
            span,
            r,
            ray_t.min,
            ray_t.max,
            None,
            0,
        ) matches Some(y) && x.t == y.t,
{
    lemma_primitives_are_stable(span, r, ray_t.min, ray_t.max);
    lemma_tree_hits_where_scan_hits(span, r, ray_t);
}

/// The hierarchy over spheres and quads finds the hit that a scan of them
/// finds, for every ray and search interval for which no two of them are
/// hit at the same ray parameter and the boxes of the hierarchy are safe.
pub proof fn lemma_tree_of_primitives_equals_scan(span: Seq<Arc<Hittable>>, r: &Ray, ray_t: Interval)
    requires
        span.len() >= 1,
        all_primitive(span),
        no_ties(span, r, ray_t.min, ray_t.max),
        boxes_are_safe(span, span.len(), r, ray_t.min, ray_t.max),
    ensures
        spec_build(span).spec_hit(r, ray_t) == spec_scan(span, r, ray_t.min, ray_t.max, None, 0),
{
    lemma_primitives_are_stable(span, r, ray_t.min, ray_t.max);
    lemma_tree_equals_scan(span, r, ray_t);
}
} // verus!
