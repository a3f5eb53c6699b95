use std::cmp::Ordering;
use std::sync::Arc;

use raytracer::aabb::aabb;
use raytracer::bvh::{bvh_node, share_span, sort_span, span_box};
use raytracer::fixed::{INF, ONE};
use raytracer::hittable::{hit_record, Hittable};
use raytracer::hittable_list::HittableList;
use raytracer::interval::Interval;
use raytracer::material::{lambertian, Material};
use raytracer::ray::Ray;
use raytracer::raytracer::{random_double_range, random_int_range, Sampler};
use raytracer::sphere::Sphere;
use raytracer::vec3::Vec3;

fn fx(v: f64) -> i64 {
    (v * ONE as f64).round() as i64
}

fn v3(x: f64, y: f64, z: f64) -> Vec3 {
    Vec3::new(fx(x), fx(y), fx(z))
}

fn ball(x: f64, y: f64, z: f64, radius: f64, shade: f64) -> Arc<Hittable> {
    let mat = Arc::new(Material::Lambertian(lambertian::new(v3(shade, shade, shade))));
    Arc::new(Hittable::Sphere(Sphere::new(v3(x, y, z), fx(radius), mat)))
}

fn random_balls(count: usize, rng: &mut Sampler) -> Vec<Arc<Hittable>> {
    let mut balls = Vec::new();
    for i in 0..count {
        let c = Vec3::random_with_range(fx(-20.0), fx(20.0), rng);
        let radius = random_double_range(fx(0.3), fx(2.0), rng);
        let shade = Vec3::new(i as i64 + 1, 0, 0);
        let mat = Arc::new(Material::Lambertian(lambertian::new(shade)));
        balls.push(Arc::new(Hittable::Sphere(Sphere::new(c, radius, mat))));
    }
    balls
}

fn list_of(objects: &[Arc<Hittable>]) -> HittableList {
    let mut list = HittableList::new();
    for o in objects {
        list.add(o.clone());
    }
    list
}

#[test]
fn comparisons_look_at_the_start_of_the_box() {
    let a = ball(0.0, 5.0, -3.0, 1.0, 0.1);
    let b = ball(2.0, 1.0, -3.0, 1.0, 0.2);
    assert!(bvh_node::box_compare(a.clone(), b.clone(), 0));
    assert!(!bvh_node::box_compare(b.clone(), a.clone(), 0));
    assert!(!bvh_node::box_compare(a.clone(), b.clone(), 1));
    assert!(bvh_node::box_compare(b.clone(), a.clone(), 1));
    assert!(!bvh_node::box_compare(a.clone(), b.clone(), 2));
    assert!(!bvh_node::box_compare(b.clone(), a.clone(), 2));
    assert_eq!(bvh_node::box_x_compare(a.clone(), b.clone()), Ordering::Less);
    assert_eq!(bvh_node::box_x_compare(b.clone(), a.clone()), Ordering::Greater);
    assert_eq!(bvh_node::box_y_compare(a.clone(), b.clone()), Ordering::Greater);
    assert_eq!(bvh_node::box_y_compare(b.clone(), a.clone()), Ordering::Less);
    assert_eq!(bvh_node::box_z_compare(a.clone(), b.clone()), Ordering::Greater);
    assert_eq!(bvh_node::box_z_compare(b.clone(), a.clone()), Ordering::Greater);
    assert!(bvh_node::axis_compare(&a, &b, 0));
    assert!(!bvh_node::axis_compare(&a, &b, 1));
    assert!(!bvh_node::axis_compare(&a, &b, 2));
}

#[test]
fn sorting_is_stable_and_keeps_the_objects() {
    let objects = vec![
        ball(5.0, 0.0, 0.0, 1.0, 0.1),
        ball(1.0, 0.0, 0.0, 1.0, 0.2),
        ball(3.0, 0.0, 0.0, 1.0, 0.3),
        ball(1.0, 9.0, 0.0, 1.0, 0.4),
        ball(-2.0, 0.0, 0.0, 1.0, 0.5),
        ball(3.0, -9.0, 0.0, 1.0, 0.6),
    ];
    let sorted = sort_span(&objects, 0, 6, 0);
    let order: Vec<usize> =
        sorted.iter().map(|s| objects.iter().position(|o| Arc::ptr_eq(o, s)).unwrap()).collect();
    assert_eq!(order, vec![4, 1, 3, 2, 5, 0]);
    let part = sort_span(&objects, 1, 4, 0);
    let order: Vec<usize> = part.iter().map(|s| objects.iter().position(|o| Arc::ptr_eq(o, s)).unwrap()).collect();
    assert_eq!(order, vec![1, 3, 2]);
    let by_y = sort_span(&objects, 0, 6, 1);
    let order: Vec<usize> = by_y.iter().map(|s| objects.iter().position(|o| Arc::ptr_eq(o, s)).unwrap()).collect();
    assert_eq!(order, vec![5, 0, 1, 2, 4, 3]);
    assert_eq!(sort_span(&objects, 2, 2, 0).len(), 0);
    let copy = share_span(&objects, 2, 5);
    assert_eq!(copy.len(), 3);
    assert!(Arc::ptr_eq(&copy[0], &objects[2]) && Arc::ptr_eq(&copy[2], &objects[4]));
}

#[test]
fn span_box_is_the_union() {
    let objects = vec![ball(0.0, 0.0, 0.0, 1.0, 0.1), ball(4.0, 1.0, -2.0, 0.5, 0.2), ball(-3.0, 0.0, 0.0, 1.0, 0.3)];
    assert_eq!(span_box(&objects, 0, 0), aabb::empty());
    assert_eq!(span_box(&objects, 1, 2), objects[1].bounding_box());
    assert_eq!(span_box(&objects, 0, 3), aabb::new_from_points(v3(-4.0, -1.0, -2.5), v3(4.5, 1.5, 1.0)));
    assert_eq!(list_of(&objects).bounding_box(), span_box(&objects, 0, 3));
}

#[test]
fn one_object_becomes_both_children() {
    let only = ball(0.0, 0.0, 0.0, 1.0, 0.1);
    let node = bvh_node::new(list_of(&[only.clone()]));
    assert!(Arc::ptr_eq(&node.left, &only) && Arc::ptr_eq(&node.right, &only));
    assert_eq!(node.bounding_box(), only.bounding_box());
    let mut rng = Sampler::new(1);
    let mut rec = hit_record::blank();
    let r = Ray::new(v3(0.0, 0.0, 5.0), v3(0.0, 0.0, -1.0));
    assert!(node.hit(&r, Interval::new(fx(0.001), INF), &mut rec, &mut rng));
    assert_eq!(rec.t, fx(4.0));
}

#[test]
fn two_objects_become_one_child_each() {
    let a = ball(5.0, 0.0, 0.0, 1.0, 0.1);
    let b = ball(-5.0, 0.0, 0.0, 1.0, 0.2);
    let node = bvh_node::new(list_of(&[a.clone(), b.clone()]));
    assert!(Arc::ptr_eq(&node.left, &a) && Arc::ptr_eq(&node.right, &b));
    assert_eq!(node.bounding_box(), aabb::new_from_aabbs(&a.bounding_box(), &b.bounding_box()));
}

#[test]
fn more_objects_are_sorted_and_split_in_the_middle() {
    let objects = vec![
        ball(9.0, 0.0, 0.0, 1.0, 0.1),
        ball(-9.0, 0.0, 0.0, 1.0, 0.2),
        ball(3.0, 0.0, 0.0, 1.0, 0.3),
        ball(-3.0, 0.0, 0.0, 1.0, 0.4),
        ball(0.0, 0.0, 0.0, 1.0, 0.5),
    ];
    let node = bvh_node::new(list_of(&objects));
    assert_eq!(node.bounding_box(), span_box(&objects, 0, 5));
    assert_eq!(node.bounding_box().longest_axis(), 0);
    let (left, right) = match (&*node.left, &*node.right) {
        (Hittable::Bvh(l), Hittable::Bvh(r)) => (l, r),
        _ => panic!("children of a node over five objects are nodes"),
    };
    assert!(Arc::ptr_eq(&left.left, &objects[1]) && Arc::ptr_eq(&left.right, &objects[3]));
    assert_eq!(left.bounding_box(), aabb::new_from_aabbs(&objects[1].bounding_box(), &objects[3].bounding_box()));
    assert_eq!(right.bounding_box(), box_without(&objects, &[1, 3]));
    assert!(Arc::ptr_eq(&right.right, &objects[2]) || matches!(&*right.right, Hittable::Bvh(_)));
    assert_eq!(
        node.bounding_box(),
        aabb::new_from_aabbs(&node.left.bounding_box(), &node.right.bounding_box())
    );
    let same = bvh_node::new_with_span(objects.clone(), 0, 5);
    assert_eq!(same, node);
    let part = bvh_node::new_with_span(objects.clone(), 1, 3);
    assert!(Arc::ptr_eq(&part.left, &objects[1]) && Arc::ptr_eq(&part.right, &objects[2]));
}

fn box_without(objects: &[Arc<Hittable>], skip: &[usize]) -> aabb {
    let mut b = aabb::empty();
    for (i, o) in objects.iter().enumerate() {
        if !skip.contains(&i) {
            b = aabb::new_from_aabbs(&b, &o.bounding_box());
        }
    }
    b
}

#[test]
fn every_node_box_is_the_union_of_its_children() {
    fn check(node: &bvh_node) {
        assert_eq!(
            node.bounding_box(),
            aabb::new_from_aabbs(&node.left.bounding_box(), &node.right.bounding_box())
        );
        if let Hittable::Bvh(l) = &*node.left {
            check(l);
        }
        if let Hittable::Bvh(r) = &*node.right {
            check(r);
        }
    }
    let mut rng = Sampler::new(77);
    let balls = random_balls(100, &mut rng);
    check(&bvh_node::new(list_of(&balls)));
}

#[test]
fn hierarchy_and_scan_agree_on_random_rays() {
    let mut rng = Sampler::new(2024);
    let balls = random_balls(200, &mut rng);
    let list = Hittable::List(list_of(&balls));
    let tree = Hittable::Bvh(bvh_node::new(list_of(&balls)));
    let search = Interval::new(fx(0.001), INF);
    let mut hits = 0;
    for _ in 0..1000 {
        let origin = Vec3::random_with_range(fx(-30.0), fx(30.0), &mut rng);
        let target = Vec3::random_with_range(fx(-15.0), fx(15.0), &mut rng);
        let r = Ray::new(origin, target.minus(origin));
        let mut by_scan = hit_record::blank();
        let mut by_tree = hit_record::blank();
        let scan_hit = list.hit(&r, search, &mut by_scan, &mut rng);
        let tree_hit = tree.hit(&r, search, &mut by_tree, &mut rng);
        assert_eq!(scan_hit, tree_hit);
        assert_eq!(by_scan.t, by_tree.t);
        assert_eq!(by_scan.p, by_tree.p);
        assert_eq!(by_scan.mat, by_tree.mat);
        assert_eq!(by_scan, by_tree);
        if scan_hit {
            hits += 1;
        }
    }
    assert!(hits > 100 && hits < 1000);
}

#[test]
fn equal_hits_may_be_told_apart_by_their_order() {
    let mat = Arc::new(Material::Lambertian(lambertian::new(v3(0.5, 0.5, 0.5))));
    let unit = |x: f64| {
        Arc::new(Hittable::Quad(
            raytracer::quad::Quad::new(v3(x, 0.0, 0.0), v3(1.0, 0.0, 0.0), v3(0.0, 1.0, 0.0), mat.clone()).unwrap(),
        ))
    };
    let objects = vec![unit(0.5), unit(0.0), unit(10.0)];
    let list = Hittable::List(list_of(&objects));
    let tree = Hittable::Bvh(bvh_node::new(list_of(&objects)));
    let r = Ray::new(v3(0.75, 0.5, 3.0), v3(0.0, 0.0, -1.0));
    let search = Interval::new(fx(0.001), INF);
    let mut rng = Sampler::new(1);
    let mut by_scan = hit_record::blank();
    let mut by_tree = hit_record::blank();
    assert!(list.hit(&r, search, &mut by_scan, &mut rng));
    assert!(tree.hit(&r, search, &mut by_tree, &mut rng));
    assert_eq!(by_scan.t, fx(3.0));
    assert_eq!(by_tree.t, fx(3.0));
    assert_eq!(by_scan.p, by_tree.p);
    assert_eq!(by_scan.u, fx(0.75));
    assert_eq!(by_tree.u, fx(0.25));
}

#[test]
fn random_integers_stay_in_range_and_vary() {
    let mut rng = Sampler::new(5);
    let mut seen = [false; 5];
    for _ in 0..500 {
        let n = random_int_range(5, 9, &mut rng);
        assert!((5..=9).contains(&n));
        seen[n - 5] = true;
    }
    assert_eq!(seen, [true; 5]);
    assert_eq!(random_int_range(3, 3, &mut rng), 3);
    let mut a = Sampler::new(99);
    let mut b = Sampler::new(99);
    for _ in 0..50 {
        assert_eq!(a.next_word(), b.next_word());
    }
    let mut c = Sampler::new(100);
    let words: Vec<u32> = (0..8).map(|_| c.next_word()).collect();
    let other: Vec<u32> = (0..8).map(|_| a.next_word()).collect();
    assert_ne!(words, other);
}
