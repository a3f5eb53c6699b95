//! The bounding-volume hierarchy: a binary tree of boxes over a set of
//! objects.
use std::cmp::Ordering;
use std::sync::Arc;
use vstd::prelude::*;
use crate::aabb::{
    aabb, lemma_union_associative, lemma_union_bounded, lemma_union_commutative, lemma_union_idempotent,
    lemma_union_of_thick,
};
use crate::fixed::{Fixed, NEG_INF};
use crate::hittable::{hit_record, share, Hittable};
use crate::hittable_list::{HittableList, all_deterministic, all_padded, all_wf, spec_union_of};
use crate::interval::Interval;
use crate::ray::Ray;
use crate::raytracer::Sampler;

verus! {

/// A node of the hierarchy. A ray that misses `bbox` hits neither child.
#[derive(Debug, PartialEq)]
pub struct bvh_node {
    pub left: Arc<Hittable>,
    pub right: Arc<Hittable>,
    pub bbox: aabb,
}

/// The hit that counts after two searches of which the second ended at the
/// hit of the first: the second hit if there is one, the first otherwise.
pub open spec fn spec_later(first: Option<hit_record>, second: Option<hit_record>) -> Option<hit_record> {
    if second is Some {
        second
    } else {
        first
    }
}

/// Whether the box of `a` starts before the box of `b` along `axis`.
pub open spec fn spec_box_compare(a: Arc<Hittable>, b: Arc<Hittable>, axis: usize) -> bool {
    a.spec_bounding_box().axis_interval(axis).min < b.spec_bounding_box().axis_interval(axis).min
}

/// Where `x` goes into the sorted sequence `s`, searching from index `j`:
/// before the first object that it comes before, and so behind every object
/// with an equal key.
pub open spec fn spec_insert_at(s: Seq<Arc<Hittable>>, x: Arc<Hittable>, axis: usize, j: int) -> int
    decreases s.len() - j,
{
    if 0 <= j < s.len() && !spec_box_compare(x, s[j], axis) {
        spec_insert_at(s, x, axis, j + 1)
    } else {
        j
    }
}

/// The first `n` objects of `s`, sorted by where their boxes start along
/// `axis`. Objects with equal keys keep their order.
pub open spec fn spec_sorted(s: Seq<Arc<Hittable>>, axis: usize, n: int) -> Seq<Arc<Hittable>>
    decreases n,
{
    if n <= 0 {
        Seq::empty()
    } else {
        let before = spec_sorted(s, axis, n - 1);
        before.insert(spec_insert_at(before, s[n - 1], axis, 0), s[n - 1])
    }
}

/// The hierarchy over the objects of `span`.
///
/// The box of the node is the union of the boxes of all objects. A single
/// object becomes both children, two objects become one child each. Three or
/// more are sorted along the longest axis of the box and split in the
/// middle; each half becomes a hierarchy of its own.
pub open spec fn spec_build(span: Seq<Arc<Hittable>>) -> bvh_node {
    spec_build_sized(span, span.len())
}

/// The hierarchy over the `n` objects of `span`.
pub open spec fn spec_build_sized(span: Seq<Arc<Hittable>>, n: nat) -> bvh_node
    decreases n,
{
    let bbox = spec_union_of(span);
    if n <= 1 {
        bvh_node { left: span[0], right: span[0], bbox }
    } else if n == 2 {
        bvh_node { left: span[0], right: span[1], bbox }
    } else {
        let sorted = spec_sorted(span, bbox.longest_axis(), n as int);
        let mid = n / 2;
        bvh_node {
            left: Arc::new(Hittable::Bvh(spec_build_sized(sorted.subrange(0, mid as int), mid))),
            right: Arc::new(Hittable::Bvh(spec_build_sized(sorted.subrange(mid as int, n as int), (n - mid) as nat))),
            bbox,
        }
    }
}

/// Sorting keeps the number of objects.
pub proof fn lemma_sorted_len(s: Seq<Arc<Hittable>>, axis: usize, n: int)
    requires
        0 <= n <= s.len(),
    ensures
        spec_sorted(s, axis, n).len() == n,
    decreases n,
{
    if n > 0 {
        lemma_sorted_len(s, axis, n - 1);
        lemma_insert_at_bounds(spec_sorted(s, axis, n - 1), s[n - 1], axis, 0);
    }
}

/// The place of insertion is a valid index.
pub proof fn lemma_insert_at_bounds(s: Seq<Arc<Hittable>>, x: Arc<Hittable>, axis: usize, j: int)
    requires
        0 <= j <= s.len(),
    ensures
        j <= spec_insert_at(s, x, axis, j) <= s.len(),
    decreases s.len() - j,
{
    if j < s.len() && !spec_box_compare(x, s[j], axis) {
        lemma_insert_at_bounds(s, x, axis, j + 1);
    }
}

/// The place of insertion is the first at which the object comes before
/// the object that stands there.
pub proof fn lemma_insert_at_is_first(s: Seq<Arc<Hittable>>, x: Arc<Hittable>, axis: usize, j: int, k: int)
    requires
        0 <= j <= k < s.len(),
    ensures
        k < spec_insert_at(s, x, axis, j) ==> !spec_box_compare(x, s[k], axis),
        k == spec_insert_at(s, x, axis, j) ==> spec_box_compare(x, s[k], axis),
    decreases s.len() - j,
{
    if !spec_box_compare(x, s[j], axis) {
        if j < k {
            lemma_insert_at_is_first(s, x, axis, j + 1, k);
        } else {
            lemma_insert_at_bounds(s, x, axis, j + 1);
        }
    }
}

/// A sorted sequence is in order: no object comes before one that stands
/// earlier in it.
pub proof fn lemma_sorted_is_ordered(s: Seq<Arc<Hittable>>, axis: usize, n: int, i: int, j: int)
    requires
        0 <= i < j < n <= s.len(),
    ensures
        !spec_box_compare(spec_sorted(s, axis, n)[j], spec_sorted(s, axis, n)[i], axis),
    decreases n,
{
    let before = spec_sorted(s, axis, n - 1);
    let x = s[n - 1];
    let at = spec_insert_at(before, x, axis, 0);
    lemma_sorted_len(s, axis, n - 1);
    lemma_insert_at_bounds(before, x, axis, 0);
    let sorted = spec_sorted(s, axis, n);
    assert(sorted == before.insert(at, x));
    if j < at {
        lemma_sorted_is_ordered(s, axis, n - 1, i, j);
    } else if j == at {
        lemma_insert_at_is_first(before, x, axis, 0, i);
    } else if i == at {
        lemma_insert_at_is_first(before, x, axis, 0, at);
        if j - 1 > at {
            lemma_sorted_is_ordered(s, axis, n - 1, at, j - 1);
        }
    } else if i < at {
        lemma_sorted_is_ordered(s, axis, n - 1, i, j - 1);
    } else {
        lemma_sorted_is_ordered(s, axis, n - 1, i - 1, j - 1);
    }
}

/// Every object of a sorted sequence is one of the objects that were
/// sorted.
pub proof fn lemma_sorted_from(s: Seq<Arc<Hittable>>, axis: usize, n: int, j: int) -> (m: int)
    requires
        0 <= j < n <= s.len(),
    ensures
        0 <= m < n,
        spec_sorted(s, axis, n)[j] == s[m],
    decreases n,
{
    let before = spec_sorted(s, axis, n - 1);
    let at = spec_insert_at(before, s[n - 1], axis, 0);
    lemma_sorted_len(s, axis, n - 1);
    lemma_insert_at_bounds(before, s[n - 1], axis, 0);
    if j < at {
        lemma_sorted_from(s, axis, n - 1, j)
    } else if j == at {
        n - 1
    } else {
        lemma_sorted_from(s, axis, n - 1, j - 1)
    }
}

/// Every object that was sorted is in the sorted sequence.
pub proof fn lemma_sorted_onto(s: Seq<Arc<Hittable>>, axis: usize, n: int, m: int) -> (j: int)
    requires
        0 <= m < n <= s.len(),
    ensures
        0 <= j < n,
        spec_sorted(s, axis, n).len() == n,
        spec_sorted(s, axis, n)[j] == s[m],
    decreases n,
{
    let before = spec_sorted(s, axis, n - 1);
    let at = spec_insert_at(before, s[n - 1], axis, 0);
    lemma_sorted_len(s, axis, n - 1);
    lemma_sorted_len(s, axis, n);
    lemma_insert_at_bounds(before, s[n - 1], axis, 0);
    if m == n - 1 {
        at
    } else {
        let j = lemma_sorted_onto(s, axis, n - 1, m);
        if j < at {
            j
        } else {
            j + 1
        }
    }
}

/// A hit that the hierarchy over some objects reports is a hit of one of
/// those objects, searched in some interval that starts where the given one
/// starts.
pub proof fn lemma_tree_hit_is_an_object_hit(span: Seq<Arc<Hittable>>, r: &Ray, ray_t: Interval, rec: hit_record)
    requires
        span.len() >= 1,
        spec_build(span).spec_hit(r, ray_t) == Some(rec),
    ensures
        exists|k: int, search: Interval|
            0 <= k < span.len() && search.min == ray_t.min && #[trigger] span[k].spec_hit(r, search) == Some(rec),
    decreases span.len(),
{
    let n = span.len() as int;
    let node = spec_build(span);
    reveal_with_fuel(spec_build_sized, 2);
    let hit_left = node.left.spec_hit(r, ray_t);
    let narrowed = Interval {
        min: ray_t.min,
        max: if hit_left is Some {
            hit_left.unwrap().t
        } else {
            ray_t.max
        },
    };
    let hit_right = node.right.spec_hit(r, narrowed);
    assert(hit_right == Some(rec) || hit_left == Some(rec));
    if n == 1 {
        if hit_right == Some(rec) {
            assert(span[0].spec_hit(r, narrowed) == Some(rec));
        } else {
            assert(span[0].spec_hit(r, ray_t) == Some(rec));
        }
    } else if n == 2 {
        if hit_right == Some(rec) {
            assert(span[1].spec_hit(r, narrowed) == Some(rec));
        } else {
            assert(span[0].spec_hit(r, ray_t) == Some(rec));
        }
    } else {
        let axis = spec_union_of(span).longest_axis();
        let sorted = spec_sorted(span, axis, n);
        let mid = n / 2;
        lemma_sorted_len(span, axis, n);
        let (half, first, search) = if hit_right == Some(rec) {
            (sorted.subrange(mid, n), mid, narrowed)
        } else {
            (sorted.subrange(0, mid), 0int, ray_t)
        };
        assert(spec_build(half).spec_hit(r, search) == Some(rec));
        lemma_tree_hit_is_an_object_hit(half, r, search, rec);
        let (k, inner) = choose|k: int, inner: Interval|
            0 <= k < half.len() && inner.min == search.min && #[trigger] half[k].spec_hit(r, inner) == Some(rec);
        let m = lemma_sorted_from(span, axis, n, first + k);
        assert(half[k] == sorted[first + k]);
        assert(span[m].spec_hit(r, inner) == Some(rec));
    }
}

/// The union of the boxes of any objects is bounded above.
pub proof fn lemma_union_of_bounded(s: Seq<Arc<Hittable>>)
    ensures
        spec_union_of(s).bounded_above(),
{
    if s.len() > 0 {
        lemma_union_bounded(spec_union_of(s.drop_last()), s.last().spec_bounding_box());
    }
}

/// The union of the boxes of one or more objects with thick boxes is thick.
pub proof fn lemma_union_of_thick_boxes(s: Seq<Arc<Hittable>>)
    requires
        s.len() > 0,
        all_padded(s),
    ensures
        spec_union_of(s).padded(),
{
    assert(s.last().spec_bounding_box().padded());
    lemma_union_of_thick(spec_union_of(s.drop_last()), s.last().spec_bounding_box());
}

/// The union with the box of no objects changes no thick box.
pub proof fn lemma_union_with_nothing(b: aabb)
    requires
        b.padded(),
    ensures
        aabb::new_from_aabbs(&aabb::empty(), &b) == b,
        aabb::new_from_aabbs(&b, &aabb::empty()) == b,
{
    lemma_union_of_thick(aabb::empty(), b);
    lemma_union_of_thick(b, aabb::empty());
}

/// The union over two sequences joined is the union of their unions, if
/// there is an object at all and the boxes of all objects are thick.
pub proof fn lemma_union_of_concat(a: Seq<Arc<Hittable>>, b: Seq<Arc<Hittable>>)
    requires
        a.len() + b.len() > 0,
        all_padded(a),
        all_padded(b),
    ensures
        spec_union_of(a + b) == aabb::new_from_aabbs(&spec_union_of(a), &spec_union_of(b)),
    decreases b.len(),
{
    if b.len() == 0 {
        assert(a + b =~= a);
        lemma_union_of_thick_boxes(a);
        lemma_union_with_nothing(spec_union_of(a));
    } else {
        let last = b.last().spec_bounding_box();
        assert(last.padded());
        assert((a + b).drop_last() =~= a + b.drop_last());
        assert((a + b).last() == b.last());
        assert(all_padded(b.drop_last())) by {
            assert forall|i: int| 0 <= i < b.drop_last().len() implies (#[trigger] b.drop_last()[i]).spec_bounding_box().padded() by {
                assert(b.drop_last()[i] == b[i]);
            }
        }
        if a.len() + b.drop_last().len() == 0 {
            assert(a + b.drop_last() =~= Seq::<Arc<Hittable>>::empty());
            assert(b.drop_last() =~= Seq::<Arc<Hittable>>::empty());
            assert(a =~= Seq::<Arc<Hittable>>::empty());
            lemma_union_with_nothing(last);
        } else {
            lemma_union_of_concat(a, b.drop_last());
            if a.len() > 0 {
                lemma_union_of_thick_boxes(a);
            }
            if b.drop_last().len() > 0 {
                lemma_union_of_thick_boxes(b.drop_last());
            }
            lemma_union_associative(spec_union_of(a), spec_union_of(b.drop_last()), last);
        }
    }
}

/// Putting one more object into a sequence, at any place, widens the union
/// of the boxes by the object's box, if the boxes of all objects are thick.
pub proof fn lemma_union_of_insert(s: Seq<Arc<Hittable>>, pos: int, x: Arc<Hittable>)
    requires
        0 <= pos <= s.len(),
        all_padded(s),
        x.spec_bounding_box().padded(),
    ensures
        spec_union_of(s.insert(pos, x)) == aabb::new_from_aabbs(&spec_union_of(s), &x.spec_bounding_box()),
{
    let a = s.subrange(0, pos);
    let b = s.subrange(pos, s.len() as int);
    let bx = x.spec_bounding_box();
    assert(s.insert(pos, x) =~= a.push(x) + b);
    assert(s =~= a + b);
    assert(a.push(x).drop_last() =~= a);
    assert(a.push(x).last() == x);
    assert(all_padded(a)) by {
        assert forall|i: int| 0 <= i < a.len() implies (#[trigger] a[i]).spec_bounding_box().padded() by {
            assert(a[i] == s[i]);
        }
    }
    assert(all_padded(b)) by {
        assert forall|i: int| 0 <= i < b.len() implies (#[trigger] b[i]).spec_bounding_box().padded() by {
            assert(b[i] == s[pos + i]);
        }
    }
    assert(all_padded(a.push(x))) by {
        assert forall|i: int| 0 <= i < a.push(x).len() implies (#[trigger] a.push(x)[i]).spec_bounding_box().padded() by {
            if i < a.len() {
                assert(a.push(x)[i] == a[i]);
            }
        }
    }
    lemma_union_of_concat(a.push(x), b);
    let ua = spec_union_of(a);
    let ub = spec_union_of(b);
    if s.len() == 0 {
        assert(b =~= Seq::<Arc<Hittable>>::empty());
        lemma_union_of_thick_boxes(a.push(x));
        lemma_union_with_nothing(spec_union_of(a.push(x)));
    } else {
        lemma_union_of_concat(a, b);
        if b.len() == 0 {
            lemma_union_of_thick_boxes(a);
            lemma_union_with_nothing(ua);
            lemma_union_of_thick_boxes(a.push(x));
            lemma_union_with_nothing(spec_union_of(a.push(x)));
        } else {
            lemma_union_of_thick_boxes(b);
            lemma_union_associative(ua, bx, ub);
            lemma_union_commutative(bx, ub);
            lemma_union_associative(ua, ub, bx);
        }
    }
}

/// Sorted objects have thick boxes if the objects that were sorted have.
pub proof fn lemma_sorted_padded(s: Seq<Arc<Hittable>>, axis: usize, n: int)
    requires
        0 <= n <= s.len(),
        all_padded(s),
    ensures
        spec_sorted(s, axis, n).len() == n,
        all_padded(spec_sorted(s, axis, n)),
{
    lemma_sorted_len(s, axis, n);
    assert forall|j: int| 0 <= j < n implies (#[trigger] spec_sorted(s, axis, n)[j]).spec_bounding_box().padded() by {
        let m = lemma_sorted_from(s, axis, n, j);
        assert(s[m].spec_bounding_box().padded());
    }
}

/// Sorting does not change the union of the boxes, if the boxes of all
/// objects are thick.
pub proof fn lemma_union_of_sorted(s: Seq<Arc<Hittable>>, axis: usize, n: int)
    requires
        0 <= n <= s.len(),
        all_padded(s),
    ensures
        spec_union_of(spec_sorted(s, axis, n)) == spec_union_of(s.subrange(0, n)),
    decreases n,
{
    if n > 0 {
        let before = spec_sorted(s, axis, n - 1);
        lemma_union_of_sorted(s, axis, n - 1);
        lemma_sorted_padded(s, axis, n - 1);
        lemma_insert_at_bounds(before, s[n - 1], axis, 0);
        assert(s[n - 1].spec_bounding_box().padded());
        lemma_union_of_insert(before, spec_insert_at(before, s[n - 1], axis, 0), s[n - 1]);
        assert(s.subrange(0, n).drop_last() =~= s.subrange(0, n - 1));
    } else {
        assert(s.subrange(0, 0) =~= Seq::<Arc<Hittable>>::empty());
    }
}

/// The box of a node of the hierarchy is the union of the boxes of its two
/// children, provided that the box of every object is at least
/// `MIN_THICKNESS` thick on every axis.
pub proof fn lemma_node_box_is_union_of_children(span: Seq<Arc<Hittable>>)
    requires
        span.len() >= 1,
        all_padded(span),
    ensures
        spec_build(span).bbox == aabb::new_from_aabbs(
            &spec_build(span).left.spec_bounding_box(),
            &spec_build(span).right.spec_bounding_box(),
        ),
{
    let n = span.len() as int;
    reveal_with_fuel(spec_build_sized, 2);
    reveal_with_fuel(spec_union_of, 3);
    if n == 1 {
        assert(span.drop_last() =~= Seq::<Arc<Hittable>>::empty());
        assert(span[0].spec_bounding_box().padded());
        lemma_union_with_nothing(span[0].spec_bounding_box());
        lemma_union_idempotent(span[0].spec_bounding_box());
    } else if n == 2 {
        assert(span.drop_last().drop_last() =~= Seq::<Arc<Hittable>>::empty());
        assert(span.drop_last().last() == span[0]);
        assert(span[0].spec_bounding_box().padded());
        lemma_union_with_nothing(span[0].spec_bounding_box());
    } else {
        let axis = spec_union_of(span).longest_axis();
        let sorted = spec_sorted(span, axis, n);
        let mid = n / 2;
        lemma_sorted_padded(span, axis, n);
        lemma_union_of_sorted(span, axis, n);
        assert(span.subrange(0, n) =~= span);
        let first = sorted.subrange(0, mid);
        let second = sorted.subrange(mid, n);
        assert(sorted =~= first + second);
        assert(all_padded(first)) by {
            assert forall|i: int| 0 <= i < first.len() implies (#[trigger] first[i]).spec_bounding_box().padded() by {
                assert(first[i] == sorted[i]);
            }
        }
        assert(all_padded(second)) by {
            assert forall|i: int| 0 <= i < second.len() implies (#[trigger] second[i]).spec_bounding_box().padded() by {
                assert(second[i] == sorted[mid + i]);
            }
        }
        lemma_union_of_concat(first, second);
    }
}

/// The union of the boxes of the objects `start..end`.
pub fn span_box(objects: &Vec<Arc<Hittable>>, start: usize, end: usize) -> (b: aabb)
    requires
        start <= end <= objects@.len(),
    ensures
        b == spec_union_of(objects@.subrange(start as int, end as int)),
{
    let mut bbox = aabb::empty();
    let mut object_index: usize = start;
    while object_index < end
        invariant
            start <= object_index <= end <= objects@.len(),
            bbox == spec_union_of(objects@.subrange(start as int, object_index as int)),
        decreases end - object_index,
    {
        proof {
            let next = objects@.subrange(start as int, object_index + 1);
            assert(next.drop_last() =~= objects@.subrange(start as int, object_index as int));
            assert(next.last() == objects@[object_index as int]);
        }
        bbox = aabb::new_from_aabbs(&bbox, &objects[object_index].bounding_box());
        object_index += 1;
    }
    bbox
}

/// New handles to the objects `start..end`, in the same order.
pub fn share_span(objects: &Vec<Arc<Hittable>>, start: usize, end: usize) -> (copy: Vec<Arc<Hittable>>)
    requires
        start <= end <= objects@.len(),
    ensures
        copy@ == objects@.subrange(start as int, end as int),
{
    let mut copy: Vec<Arc<Hittable>> = Vec::new();
    let mut i: usize = start;
    while i < end
        invariant
            start <= i <= end <= objects@.len(),
            copy@ == objects@.subrange(start as int, i as int),
        decreases end - i,
    {
        copy.push(share(&objects[i]));
        assert(copy@ =~= objects@.subrange(start as int, i + 1));
        i += 1;
    }
    copy
}

/// The objects `start..end` sorted by where their boxes start along `axis`.
/// Objects with equal keys keep their order.
pub fn sort_span(objects: &Vec<Arc<Hittable>>, start: usize, end: usize, axis: usize) -> (sorted: Vec<
    Arc<Hittable>,
>)
    requires
        start <= end <= objects@.len(),
        axis < 3,
    ensures
        sorted@ == spec_sorted(objects@.subrange(start as int, end as int), axis, end - start),
        sorted@.len() == end - start,
        forall|i: int, j: int|
            0 <= i < j < sorted@.len() ==> !spec_box_compare(#[trigger] sorted@[j], #[trigger] sorted@[i], axis),
        all_wf(objects@) ==> all_wf(sorted@),
        all_deterministic(objects@) ==> all_deterministic(sorted@),
{
    let ghost span = objects@.subrange(start as int, end as int);
    let mut sorted: Vec<Arc<Hittable>> = Vec::new();
    let mut n: usize = start;
    while n < end
        invariant
            start <= n <= end <= objects@.len(),
            axis < 3,
            span == objects@.subrange(start as int, end as int),
            sorted@ == spec_sorted(span, axis, n - start),
            sorted@.len() == n - start,
            all_wf(objects@) ==> all_wf(sorted@),
            all_deterministic(objects@) ==> all_deterministic(sorted@),
        decreases end - n,
    {
        let x = share(&objects[n]);
        let mut j: usize = 0;
        loop
            invariant
                j <= sorted@.len(),
                axis < 3,
                spec_insert_at(sorted@, x, axis, j as int) == spec_insert_at(sorted@, x, axis, 0),
            ensures
                j == spec_insert_at(sorted@, x, axis, 0),
                j <= sorted@.len(),
            decreases sorted@.len() - j,
        {
            if j >= sorted.len() {
                break ;
            }
            if bvh_node::axis_compare(&x, &sorted[j], axis) {
                break ;
            }
            j += 1;
        }
        let ghost before = sorted@;
        sorted.insert(j, x);
        proof {
            assert(span[n - start] == objects@[n as int]);
            assert(sorted@ == before.insert(j as int, x));
            if all_wf(objects@) {
                assert forall|i: int| 0 <= i < sorted@.len() implies (#[trigger] sorted@[i]).wf() by {
                    if i < j {
                        assert(sorted@[i] == before[i]);
                    } else if i > j {
                        assert(sorted@[i] == before[i - 1]);
                    }
                }
            }
            if all_deterministic(objects@) {
                assert forall|i: int| 0 <= i < sorted@.len() implies (#[trigger] sorted@[i]).deterministic() by {
                    if i < j {
                        assert(sorted@[i] == before[i]);
                    } else if i > j {
                        assert(sorted@[i] == before[i - 1]);
                    }
                }
            }
        }
        n += 1;
    }
    proof {
        assert forall|i: int, j: int| 0 <= i < j < sorted@.len() implies !spec_box_compare(
            #[trigger] sorted@[j],
            #[trigger] sorted@[i],
            axis,
        ) by {
            lemma_sorted_is_ordered(span, axis, end - start, i, j);
        }
    }
    sorted
}

impl bvh_node {
    /// Whether everything inside is well formed.
    pub open spec fn wf(&self) -> bool
        decreases self,
    {
        self.left.wf() && self.right.wf()
    }

    /// Whether a hit test draws no random numbers: there is no fog inside.
    pub open spec fn deterministic(&self) -> bool
        decreases self,
    {
        self.left.deterministic() && self.right.deterministic()
    }

    /// The hierarchy over the objects of `list`. The list must not be empty.
    pub fn new(list: HittableList) -> (node: bvh_node)
        requires
            list.objects@.len() > 0,
        ensures
            node == spec_build(list.objects@),
            node.bbox.bounded_above(),
            list.wf() ==> node.wf(),
            list.deterministic() ==> node.deterministic(),
    {
        let len: usize = list.objects.len();
        assert(list.objects@.subrange(0, len as int) =~= list.objects@);
        Self::new_with_span(list.objects, 0, len)
    }

    /// The hierarchy over the objects `start..end`, of which there must be
    /// at least one.
    pub fn new_with_span(objects: Vec<Arc<Hittable>>, start: usize, end: usize) -> (node: bvh_node)
        requires
            start < end <= objects@.len(),
        ensures
            node == spec_build(objects@.subrange(start as int, end as int)),
            node.bbox.bounded_above(),
            all_wf(objects@) ==> node.wf(),
            all_deterministic(objects@) ==> node.deterministic(),
        decreases end - start,
    {
        let ghost span = objects@.subrange(start as int, end as int);
        let bbox = span_box(&objects, start, end);
        proof {
            lemma_union_of_bounded(span);
        }
        let axis: usize = bbox.longest_axis();
        let object_span: usize = end - start;
        if object_span == 1 {
            bvh_node { left: share(&objects[start]), right: share(&objects[start]), bbox }
        } else if object_span == 2 {
            bvh_node { left: share(&objects[start]), right: share(&objects[start + 1]), bbox }
        } else {
            let sorted = sort_span(&objects, start, end, axis);
            let mid: usize = object_span / 2;
            let first_half = share_span(&sorted, 0, mid);
            let left = bvh_node::new_with_span(first_half, 0, mid);
            proof {
                assert(first_half@.subrange(0, mid as int) =~= sorted@.subrange(0, mid as int));
                if all_wf(objects@) {
                    assert(all_wf(first_half@));
                }
                if all_deterministic(objects@) {
                    assert(all_deterministic(first_half@));
                }
            }
            let right = bvh_node::new_with_span(sorted, mid, object_span);
            bvh_node { left: Arc::new(Hittable::Bvh(left)), right: Arc::new(Hittable::Bvh(right)), bbox }
        }
    }

    /// Whether the box of `a` starts before the box of `b` along `axis`.
    pub fn box_compare(a: Arc<Hittable>, b: Arc<Hittable>, axis: usize) -> (less: bool)
        ensures
            less == spec_box_compare(a, b, axis),
    {
        let a_axis_interval = a.bounding_box().axis_interval(axis);
        let b_axis_interval = b.bounding_box().axis_interval(axis);
        a_axis_interval.min < b_axis_interval.min
    }

    /// `Less` if the box of `a` starts before the box of `b` along x,
    /// `Greater` if not.
    pub fn box_x_compare(a: Arc<Hittable>, b: Arc<Hittable>) -> (o: Ordering)
        ensures
            o == if spec_box_compare(a, b, 0) {
                Ordering::Less
            } else {
                Ordering::Greater
            },
    {
        if Self::box_compare(a, b, 0) {
            Ordering::Less
        } else {
            Ordering::Greater
        }
    }

    /// `Less` if the box of `a` starts before the box of `b` along y,
    /// `Greater` if not.
    pub fn box_y_compare(a: Arc<Hittable>, b: Arc<Hittable>) -> (o: Ordering)
        ensures
            o == if spec_box_compare(a, b, 1) {
                Ordering::Less
            } else {
                Ordering::Greater
            },
    {
        if Self::box_compare(a, b, 1) {
            Ordering::Less
        } else {
            Ordering::Greater
        }
    }

    /// `Less` if the box of `a` starts before the box of `b` along z,
    /// `Greater` if not.
    pub fn box_z_compare(a: Arc<Hittable>, b: Arc<Hittable>) -> (o: Ordering)
        ensures
            o == if spec_box_compare(a, b, 2) {
                Ordering::Less
            } else {
                Ordering::Greater
            },
    {
        if Self::box_compare(a, b, 2) {
            Ordering::Less
        } else {
            Ordering::Greater
        }
    }

    /// The comparison that sorts along `axis`.
    pub fn axis_compare(a: &Arc<Hittable>, b: &Arc<Hittable>, axis: usize) -> (less: bool)
        requires
            axis < 3,
        ensures
            less == spec_box_compare(*a, *b, axis),
    {
        let o = if axis == 0 {
            Self::box_x_compare(share(a), share(b))
        } else if axis == 1 {
            Self::box_y_compare(share(a), share(b))
        } else {
            Self::box_z_compare(share(a), share(b))
        };
        match o {
            Ordering::Less => true,
            Ordering::Equal => false,
            Ordering::Greater => false,
        }
    }

    /// Whether a hit test that finds `before` in the record may end with
    /// `outcome`, the record of a hit or nothing. A ray that misses the box
    /// hits nothing. Otherwise the left child gives some outcome in
    /// `ray_t`, then the right child some outcome in `ray_t` cut off at the
    /// left hit, and the later of the two counts.
    pub open spec fn can_hit(&self, r: &Ray, ray_t: Interval, before: hit_record, outcome: Option<hit_record>) -> bool
        decreases self,
    {
        if !self.bbox.hit(r, ray_t) {
            outcome is None
        } else {
            exists|hit_left: Option<hit_record>, hit_right: Option<hit_record>|
                #![trigger spec_later(hit_left, hit_right)]
                {
                    &&& self.left.can_hit(r, ray_t, before, hit_left)
                    &&& self.right.can_hit(
                        r,
                        Interval {
                            min: ray_t.min,
                            max: match hit_left {
                                Some(x) => x.t,
                                None => ray_t.max,
                            },
                        },
                        match hit_left {
                            Some(x) => x,
                            None => before,
                        },
                        hit_right,
                    )
                    &&& outcome == spec_later(hit_left, hit_right)
                }
        }
    }

    /// The closest hit below this node. A ray that misses the box hits
    /// nothing. Otherwise the left child is searched in `ray_t`, then the
    /// right child in `ray_t` cut off at the left hit; a right hit is the
    /// closer one and wins.
    pub open spec fn spec_hit(&self, r: &Ray, ray_t: Interval) -> Option<hit_record>
        decreases self,
    {
        if !self.bbox.hit(r, ray_t) {
            None
        } else {
            let hit_left = self.left.spec_hit(r, ray_t);
            let hit_right = self.right.spec_hit(
                r,
                Interval {
                    min: ray_t.min,
                    max: if hit_left is Some {
                        hit_left.unwrap().t
                    } else {
                        ray_t.max
                    },
                },
            );
            if hit_right is Some {
                hit_right
            } else {
                hit_left
            }
        }
    }

    /// Looks for the closest hit below this node. On a hit, `rec` is
    /// overwritten with its record; on a miss it is left as it was. The
    /// outcome is one that `can_hit` allows; without fog that is
    /// `spec_hit`.
    pub fn hit(&self, r: &Ray, ray_t: Interval, rec: &mut hit_record, rng: &mut Sampler) -> (hit: bool)
        requires
            self.wf(),
        ensures
            self.deterministic() ==> hit == self.spec_hit(r, ray_t).is_some(),
            self.deterministic() && hit ==> *final(rec) == self.spec_hit(r, ray_t).unwrap(),
            hit ==> final(rec).mat.wf(),
            !hit ==> *final(rec) == *old(rec),
            self.can_hit(
                r,
                ray_t,
                *old(rec),
                if hit {
                    Some(*final(rec))
                } else {
                    None
                },
            ),
        decreases self,
    {
        if !self.bbox.hit(r, ray_t) {
            return false;
        }
        let hit_left = self.left.hit(r, ray_t, rec, rng);
        let ghost left_answer = if hit_left {
            Some(*rec)
        } else {
            None
        };
        let hit_right = self.right.hit(
            r,
            Interval::new(
                ray_t.min,
                if hit_left {
                    rec.t
                } else {
                    ray_t.max
                },
            ),
            rec,
            rng,
        );
        proof {
            let right_answer = if hit_right {
                Some(*rec)
            } else {
                None
            };
            assert(spec_later(left_answer, right_answer) == if hit_left || hit_right {
                Some(*rec)
            } else {
                None
            });
        }
        hit_left || hit_right
    }

    /// The box that holds the object.
    pub open spec fn spec_bounding_box(&self) -> aabb {
        self.bbox
    }

    /// The box that holds the object.
    #[verifier::when_used_as_spec(spec_bounding_box)]
    pub fn bounding_box(&self) -> (b: aabb)
        ensures
            b == self.bbox,
    {
        self.bbox
    }
}
} // verus!
