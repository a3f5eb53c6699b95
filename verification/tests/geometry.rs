use std::sync::Arc;

use raytracer::aabb::{aabb, slab, MIN_THICKNESS};
use raytracer::error::SceneError;
use raytracer::fixed::{fsub, HALF, INF, NEG_INF, ONE, TWO};
use raytracer::hittable::{corner, hit_record, rotate_y, to_object, to_world, translate, Hittable};
use raytracer::hittable_list::HittableList;
use raytracer::interval::Interval;
use raytracer::material::{lambertian, Material};
use raytracer::quad::Quad;
use raytracer::ray::Ray;
use raytracer::raytracer::Sampler;
use raytracer::sphere::Sphere;
use raytracer::vec3::Vec3;

fn fx(v: f64) -> i64 {
    (v * ONE as f64).round() as i64
}

fn fl(a: i64) -> f64 {
    a as f64 / ONE as f64
}

fn v3(x: f64, y: f64, z: f64) -> Vec3 {
    Vec3::new(fx(x), fx(y), fx(z))
}

fn grey() -> Arc<Material> {
    Arc::new(Material::Lambertian(lambertian::new(v3(0.5, 0.5, 0.5))))
}

fn close(a: Vec3, b: Vec3, eps: f64) -> bool {
    (fl(a.x) - fl(b.x)).abs() < eps && (fl(a.y) - fl(b.y)).abs() < eps && (fl(a.z) - fl(b.z)).abs() < eps
}

#[test]
fn vector_algebra() {
    let a = v3(1.0, 2.0, 3.0);
    let b = v3(-2.0, 0.5, 4.0);
    assert_eq!(a.plus(b), v3(-1.0, 2.5, 7.0));
    assert_eq!(a.minus(b), v3(3.0, 1.5, -1.0));
    assert_eq!(a.times(b), v3(-2.0, 1.0, 12.0));
    assert_eq!(a.scale(TWO), v3(2.0, 4.0, 6.0));
    assert_eq!(a.over(TWO), v3(0.5, 1.0, 1.5));
    assert_eq!(a.negated(), v3(-1.0, -2.0, -3.0));
    assert_eq!(a.dot(b), fx(11.0));
    assert_eq!(Vec3::cross(v3(1.0, 0.0, 0.0), v3(0.0, 1.0, 0.0)), v3(0.0, 0.0, 1.0));
    assert_eq!(Vec3::cross(a, b), v3(6.5, -10.0, 4.5));
    assert_eq!(a.length_squared(), fx(14.0));
    assert_eq!(v3(3.0, 4.0, 0.0).length(), fx(5.0));
    assert_eq!(v3(3.0, 4.0, 0.0).normalize(), Vec3::new(10066329, 13421772, 0));
    assert_eq!(Vec3::zero().normalize(), Vec3::zero());
    assert_eq!(a.get(0), a.x);
    assert_eq!(a.get(1), a.y);
    assert_eq!(a.get(2), a.z);
    assert_eq!(Vec3::from_array([1, 2, 3]), Vec3::new(1, 2, 3));
}

#[test]
fn near_zero_means_all_components_zero() {
    assert!(Vec3::zero().near_zero());
    assert!(!Vec3::new(1, 0, 0).near_zero());
    assert!(!Vec3::new(0, -1, 0).near_zero());
}

#[test]
fn reflection_mirrors_at_the_normal() {
    let v = v3(1.0, -1.0, 0.0);
    let n = v3(0.0, 1.0, 0.0);
    assert_eq!(v.reflect(n), v3(1.0, 1.0, 0.0));
    assert_eq!(v3(0.0, -1.0, 0.0).reflect(n), v3(0.0, 1.0, 0.0));
}

#[test]
fn refraction_follows_snell() {
    let n = v3(0.0, 1.0, 0.0);
    let straight = Vec3::refract(v3(0.0, -1.0, 0.0), n, fx(1.0 / 1.5));
    assert!(close(straight, v3(0.0, -1.0, 0.0), 1e-6));
    let uv = v3(0.6, -0.8, 0.0);
    let out = Vec3::refract(uv, n, fx(1.0 / 1.5));
    let sin_out = 0.6 / 1.5;
    let cos_out = (1.0f64 - sin_out * sin_out).sqrt();
    assert!(close(out, v3(sin_out, -cos_out, 0.0), 1e-6));
    assert_eq!(Vec3::refract(uv, n, ONE), {
        let perp = uv.plus(n.scale(fx(0.8)));
        perp.plus(n.scale(-raytracer::fixed::fsqrt(fsub(ONE, perp.length_squared()))))
    });
}

#[test]
fn unit_candidates() {
    assert_eq!(Vec3::unit_from_candidate(Vec3::zero()), None);
    assert_eq!(Vec3::unit_from_candidate(v3(1.0, 1.0, 0.0)), None);
    assert_eq!(Vec3::unit_from_candidate(v3(0.0, 0.5, 0.0)), Some(v3(0.0, 1.0, 0.0)));
    assert_eq!(Vec3::unit_from_candidate(v3(1.0, 0.0, 0.0)), Some(v3(1.0, 0.0, 0.0)));
    assert!(Vec3::in_unit_disk(v3(0.5, 0.5, 0.0)));
    assert!(!Vec3::in_unit_disk(v3(1.0, 0.0, 0.0)));
    assert!(!Vec3::in_unit_disk(v3(0.1, 0.1, 0.1)));
    assert_eq!(Vec3::in_cube(-ONE, ONE, 0, HALF, ONE - 1), Vec3::new(-ONE, 0, ONE - 2));
}

#[test]
fn random_vectors_stay_in_their_sets() {
    let mut rng = Sampler::new(7);
    for _ in 0..2000 {
        let v = Vec3::random(&mut rng);
        assert!(0 <= v.x && v.x < ONE && 0 <= v.y && v.y < ONE && 0 <= v.z && v.z < ONE);
        let w = Vec3::random_with_range(fx(-2.0), fx(3.0), &mut rng);
        assert!(fx(-2.0) <= w.x && w.x < fx(3.0));
        assert!(fx(-2.0) <= w.y && w.y < fx(3.0));
        assert!(fx(-2.0) <= w.z && w.z < fx(3.0));
        let u = Vec3::random_unit_vector(&mut rng);
        assert!((fl(u.length_squared()) - 1.0).abs() < 1e-3);
        let d = Vec3::random_in_unit_disk(&mut rng);
        assert!(d.z == 0 && d.length_squared() < ONE);
    }
}

#[test]
fn ray_points() {
    let r = Ray::new(v3(1.0, 2.0, 3.0), v3(0.0, 0.0, -1.0));
    assert_eq!(r.origin(), v3(1.0, 2.0, 3.0));
    assert_eq!(r.direction(), v3(0.0, 0.0, -1.0));
    assert_eq!(r.time(), 0);
    assert_eq!(r.at(fx(2.5)), v3(1.0, 2.0, 0.5));
    assert_eq!(r.at(0), r.origin());
    let timed = Ray::new_with_time(v3(0.0, 0.0, 0.0), v3(1.0, 0.0, 0.0), HALF);
    assert_eq!(timed.time(), HALF);
    assert_eq!(timed, Ray { orig: Vec3::zero(), dir: v3(1.0, 0.0, 0.0), tm: HALF });
}

#[test]
fn interval_queries() {
    let i = Interval::new(fx(1.0), fx(3.0));
    assert_eq!(i.size(), fx(2.0));
    assert!(i.contains(fx(1.0)) && i.contains(fx(3.0)) && i.contains(fx(2.0)));
    assert!(!i.contains(fx(0.999)) && !i.contains(fx(3.001)));
    assert!(i.surrounds(fx(2.0)));
    assert!(!i.surrounds(fx(1.0)) && !i.surrounds(fx(3.0)));
    assert_eq!(i.clamp(fx(0.0)), fx(1.0));
    assert_eq!(i.clamp(fx(5.0)), fx(3.0));
    assert_eq!(i.clamp(fx(2.5)), fx(2.5));
    assert_eq!(i.expand(fx(1.0)), Interval::new(fx(0.5), fx(3.5)));
    assert_eq!(i.add(fx(-1.0)), Interval::new(fx(0.0), fx(2.0)));
    assert_eq!(
        Interval::new_from_intervals(&i, &Interval::new(fx(-1.0), fx(2.0))),
        Interval::new(fx(-1.0), fx(3.0))
    );
}

#[test]
fn empty_and_universal_intervals() {
    let e = Interval::empty();
    let u = Interval::universe();
    assert_eq!((e.min, e.max), (INF, NEG_INF));
    assert_eq!((u.min, u.max), (NEG_INF, INF));
    assert!(!e.contains(0) && !e.contains(INF) && !e.contains(NEG_INF));
    assert!(u.contains(0) && u.contains(INF) && u.contains(NEG_INF));
    assert!(u.surrounds(0) && !u.surrounds(INF));
    assert!(e.size() < 0);
    assert_eq!(u.size(), INF);
    let i = Interval::new(3, 9);
    assert_eq!(Interval::new_from_intervals(&e, &i), i);
    assert_eq!(Interval::new_from_intervals(&i, &u), u);
}

fn box_contains(b: &aabb, p: Vec3) -> bool {
    b.x.contains(p.x) && b.y.contains(p.y) && b.z.contains(p.z)
}

#[test]
fn union_of_boxes_contains_both() {
    let a = aabb::new_from_points(v3(0.0, 0.0, 0.0), v3(1.0, 1.0, 1.0));
    let b = aabb::new_from_points(v3(2.0, -1.0, 0.5), v3(3.0, 0.5, 0.75));
    let u = aabb::new_from_aabbs(&a, &b);
    for p in [v3(0.0, 0.0, 0.0), v3(1.0, 1.0, 1.0), v3(0.5, 0.25, 0.75), v3(2.0, -1.0, 0.5), v3(3.0, 0.5, 0.75)] {
        assert!(box_contains(&a, p) || box_contains(&b, p));
        assert!(box_contains(&u, p));
    }
    assert_eq!(u.x, Interval::new(fx(0.0), fx(3.0)));
    assert_eq!(u.y, Interval::new(fx(-1.0), fx(1.0)));
    assert_eq!(u.z, Interval::new(fx(0.0), fx(1.0)));
    assert_eq!(aabb::new_from_aabbs(&a, &b), aabb::new_from_aabbs(&b, &a));
    assert_eq!(aabb::new_from_aabbs(&a, &a), a);
    let c = aabb::new_from_points(v3(-5.0, 7.0, 7.0), v3(-4.0, 8.0, 9.0));
    assert_eq!(
        aabb::new_from_aabbs(&aabb::new_from_aabbs(&a, &b), &c),
        aabb::new_from_aabbs(&a, &aabb::new_from_aabbs(&b, &c))
    );
    assert_eq!(aabb::new_from_aabbs(&aabb::empty(), &a), a);
}

#[test]
fn flat_boxes_are_padded() {
    let flat = aabb::new_from_points(v3(0.0, 0.0, 2.0), v3(1.0, 1.0, 2.0));
    assert_eq!(flat.x, Interval::new(0, ONE));
    assert_eq!(flat.z, Interval::new(fx(2.0) - 839, fx(2.0) + 839));
    assert!(flat.x.size() >= MIN_THICKNESS && flat.y.size() >= MIN_THICKNESS && flat.z.size() >= MIN_THICKNESS);
    let point = aabb::new(Interval::new(5, 5), Interval::new(-7, -7), Interval::new(0, 1677));
    assert_eq!(point.x.size(), MIN_THICKNESS);
    assert_eq!(point.y.size(), MIN_THICKNESS);
    assert_eq!(point.z, Interval::new(-839, 1677 + 839));
    let thick = aabb::new(Interval::new(0, 1678), Interval::new(0, ONE), Interval::new(0, ONE));
    assert_eq!(thick.x, Interval::new(0, 1678));
    let mut b = aabb { x: Interval::new(0, 0), y: Interval::new(0, ONE), z: Interval::new(0, 10) };
    b.pad_to_minimums();
    assert_eq!(b, aabb::new(Interval::new(0, 0), Interval::new(0, ONE), Interval::new(0, 10)));
}

#[test]
fn the_union_of_flat_boxes_is_padded() {
    let flat = aabb { x: Interval::new(0, 0), y: Interval::new(0, ONE), z: Interval::new(0, ONE) };
    let r = aabb::new_from_aabbs(&flat, &flat);
    assert_eq!(r.x, Interval::new(-839, 839));
    assert_eq!(r.y, Interval::new(0, ONE));
    assert_eq!(r.z, Interval::new(0, ONE));
    assert!(r.x.size() >= MIN_THICKNESS && r.y.size() >= MIN_THICKNESS && r.z.size() >= MIN_THICKNESS);
    let other = aabb { x: Interval::new(5, 9), y: Interval::new(0, ONE), z: Interval::new(ONE, ONE) };
    let u = aabb::new_from_aabbs(&flat, &other);
    assert_eq!(u.x, Interval::new(-839, 9 + 839));
    assert_eq!(u.z, Interval::new(0, ONE));
    assert_eq!(aabb::new_from_aabbs(&other, &flat), u);
    let thick = aabb::new_from_points(v3(0.0, 0.0, 0.0), v3(1.0, 1.0, 1.0));
    assert_eq!(aabb::new_from_aabbs(&flat, &thick), thick);
}

#[test]
fn padding_an_empty_interval_leaves_it_empty() {
    let b = aabb::new(Interval::empty(), Interval::new(0, ONE), Interval::new(0, ONE));
    assert!(b.x.size() < MIN_THICKNESS);
    assert!(b.x.min > b.x.max);
}

#[test]
fn longest_axis_and_its_ties() {
    let iv = |w: f64| Interval::new(0, fx(w));
    assert_eq!((aabb { x: iv(3.0), y: iv(2.0), z: iv(1.0) }).longest_axis(), 0);
    assert_eq!((aabb { x: iv(1.0), y: iv(3.0), z: iv(2.0) }).longest_axis(), 1);
    assert_eq!((aabb { x: iv(1.0), y: iv(2.0), z: iv(3.0) }).longest_axis(), 2);
    assert_eq!((aabb { x: iv(2.0), y: iv(2.0), z: iv(2.0) }).longest_axis(), 2);
    assert_eq!((aabb { x: iv(3.0), y: iv(3.0), z: iv(1.0) }).longest_axis(), 1);
    assert_eq!((aabb { x: iv(3.0), y: iv(1.0), z: iv(3.0) }).longest_axis(), 2);
    assert_eq!((aabb { x: iv(1.0), y: iv(3.0), z: iv(3.0) }).longest_axis(), 2);
    assert_eq!(aabb::empty().longest_axis(), 2);
}

#[test]
fn axis_intervals() {
    let b = aabb { x: Interval::new(1, 2), y: Interval::new(3, 4), z: Interval::new(5, 6) };
    assert_eq!(b.axis_interval(0), b.x);
    assert_eq!(b.axis_interval(1), b.y);
    assert_eq!(b.axis_interval(2), b.z);
    assert_eq!(b.axis_interval(3), b.x);
    assert_eq!(b.add(Vec3::new(10, 20, 30)), aabb {
        x: Interval::new(11, 12),
        y: Interval::new(23, 24),
        z: Interval::new(35, 36),
    });
}

#[test]
fn slab_test() {
    let ax = Interval::new(fx(1.0), fx(2.0));
    let t = Interval::new(0, fx(100.0));
    assert_eq!(slab(ax, 0, ONE, t), Interval::new(fx(1.0), fx(2.0)));
    assert_eq!(slab(ax, fx(3.0), -ONE, t), Interval::new(fx(1.0), fx(2.0)));
    assert_eq!(slab(ax, fx(1.5), 0, t), t);
    assert_eq!(slab(ax, fx(1.0), 0, t), Interval::empty());
    assert_eq!(slab(ax, fx(5.0), 0, t), Interval::empty());
    assert_eq!(slab(ax, 0, TWO, Interval::new(fx(0.6), fx(0.9))), Interval::new(fx(0.6), fx(0.9)));
}

#[test]
fn box_hits() {
    let b = aabb::new_from_points(v3(-1.0, -1.0, -1.0), v3(1.0, 1.0, 1.0));
    let t = Interval::new(fx(0.001), INF);
    assert!(b.hit(&Ray::new(v3(0.0, 0.0, 5.0), v3(0.0, 0.0, -1.0)), t));
    assert!(!b.hit(&Ray::new(v3(0.0, 0.0, 5.0), v3(0.0, 0.0, 1.0)), t));
    assert!(!b.hit(&Ray::new(v3(3.0, 0.0, 5.0), v3(0.0, 0.0, -1.0)), t));
    assert!(b.hit(&Ray::new(v3(5.0, 5.0, 5.0), v3(-1.0, -1.0, -1.0)), t));
    assert!(!b.hit(&Ray::new(v3(0.0, 0.0, 5.0), v3(0.0, 0.0, -1.0)), Interval::new(fx(0.001), fx(3.0))));
    assert!(!b.hit(&Ray::new(v3(1.0, 0.0, 5.0), v3(0.0, 0.0, -1.0)), t));
    assert!(b.hit(&Ray::new(v3(0.0, 0.0, 0.0), v3(0.0, 1.0, 0.0)), t));
}

#[test]
fn sphere_hit_from_outside() {
    let s = Sphere::new(Vec3::zero(), ONE, grey());
    let r = Ray::new(v3(0.0, 0.0, 5.0), v3(0.0, 0.0, -1.0));
    let mut rec = hit_record::blank();
    assert!(s.hit(&r, Interval::new(fx(0.001), INF), &mut rec));
    assert_eq!(rec.t, fx(4.0));
    assert_eq!(rec.p, v3(0.0, 0.0, 1.0));
    assert_eq!(rec.normal, v3(0.0, 0.0, 1.0));
    assert!(rec.front_face);
    assert_eq!(rec.mat, s.mat);
    assert!((fl(rec.u) - 0.25).abs() < 1e-5);
    assert!((fl(rec.v) - 0.5).abs() < 1e-5);
}

#[test]
fn sphere_hit_from_inside_takes_the_far_root() {
    let s = Sphere::new(Vec3::zero(), ONE, grey());
    let r = Ray::new(Vec3::zero(), v3(0.0, 0.0, -1.0));
    let mut rec = hit_record::blank();
    assert!(s.hit(&r, Interval::new(fx(0.001), INF), &mut rec));
    assert_eq!(rec.t, fx(1.0));
    assert_eq!(rec.p, v3(0.0, 0.0, -1.0));
    assert_eq!(rec.normal, v3(0.0, 0.0, 1.0));
    assert!(!rec.front_face);
}

#[test]
fn sphere_misses() {
    let s = Sphere::new(Vec3::zero(), ONE, grey());
    let before = hit_record::blank();
    let mut rec = hit_record::blank();
    assert!(!s.hit(&Ray::new(v3(0.0, 2.0, 5.0), v3(0.0, 0.0, -1.0)), Interval::new(fx(0.001), INF), &mut rec));
    assert_eq!(rec, before);
    assert!(!s.hit(&Ray::new(v3(0.0, 0.0, 5.0), v3(0.0, 0.0, 1.0)), Interval::new(fx(0.001), INF), &mut rec));
    assert!(!s.hit(
        &Ray::new(v3(0.0, 0.0, 5.0), v3(0.0, 0.0, -1.0)),
        Interval::new(fx(0.001), fx(4.0)),
        &mut rec
    ));
    assert!(!s.hit(
        &Ray::new(v3(0.0, 0.0, 5.0), v3(0.0, 0.0, -1.0)),
        Interval::new(fx(6.0), INF),
        &mut rec
    ));
    assert_eq!(rec, before);
}

#[test]
fn sphere_boxes_and_motion() {
    let s = Sphere::new(v3(1.0, 2.0, 3.0), fx(0.5), grey());
    assert_eq!(s.bounding_box(), aabb::new_from_points(v3(0.5, 1.5, 2.5), v3(1.5, 2.5, 3.5)));
    assert!(!s.is_moving);
    let m = Sphere::new_moving(v3(0.0, 0.0, 0.0), v3(2.0, 0.0, 0.0), ONE, grey());
    assert!(m.is_moving);
    assert_eq!(m.center_vec, v3(2.0, 0.0, 0.0));
    assert_eq!(m.sphere_center(HALF), v3(1.0, 0.0, 0.0));
    assert_eq!(m.bounding_box(), aabb::new_from_points(v3(-1.0, -1.0, -1.0), v3(3.0, 1.0, 1.0)));
    let late = Ray::new_with_time(v3(2.0, 0.0, 5.0), v3(0.0, 0.0, -1.0), ONE - 1);
    let early = Ray::new_with_time(v3(2.0, 0.0, 5.0), v3(0.0, 0.0, -1.0), 0);
    let mut rec = hit_record::blank();
    assert!(m.hit(&late, Interval::new(fx(0.001), INF), &mut rec));
    assert!((fl(rec.t) - 4.0).abs() < 1e-3);
    let mut rec2 = hit_record::blank();
    assert!(!m.hit(&early, Interval::new(fx(0.001), INF), &mut rec2));
}

#[test]
fn sphere_surface_coordinates() {
    let s = Sphere::new(Vec3::zero(), ONE, grey());
    let (mut u, mut v) = (0, 0);
    s.get_sphere_uv(v3(1.0, 0.0, 0.0), &mut u, &mut v);
    assert!((fl(u) - 0.5).abs() < 1e-5 && (fl(v) - 0.5).abs() < 1e-5);
    s.get_sphere_uv(v3(0.0, 1.0, 0.0), &mut u, &mut v);
    assert!((fl(v) - 1.0).abs() < 1e-5);
    s.get_sphere_uv(v3(0.0, -1.0, 0.0), &mut u, &mut v);
    assert!(fl(v).abs() < 1e-5);
    s.get_sphere_uv(v3(0.0, 0.0, -1.0), &mut u, &mut v);
    assert!((fl(u) - 0.75).abs() < 1e-5);
    s.get_sphere_uv(v3(-1.0, 0.0, 0.0), &mut u, &mut v);
    assert!(fl(u) < 1e-5 || fl(u) > 1.0 - 1e-5);
}

#[test]
fn quad_interior_test() {
    let mut rec = hit_record::blank();
    assert!(Quad::is_interior(HALF, HALF, &mut rec));
    assert_eq!((rec.u, rec.v), (HALF, HALF));
    let mut other = hit_record::blank();
    assert!(!Quad::is_interior(fx(1.5), 0, &mut other));
    assert_eq!(other, hit_record::blank());
    assert!(Quad::is_interior(0, ONE, &mut other));
    assert!(!Quad::is_interior(-1, HALF, &mut other));
    assert!(!Quad::is_interior(HALF, ONE + 1, &mut other));
}

#[test]
fn quad_hit_and_miss() {
    let q = Quad::new(Vec3::zero(), v3(1.0, 0.0, 0.0), v3(0.0, 1.0, 0.0), grey()).unwrap();
    assert_eq!(q.normal, v3(0.0, 0.0, 1.0));
    assert_eq!(q.d, 0);
    assert_eq!(q.w, v3(0.0, 0.0, 1.0));
    let t = Interval::new(fx(0.001), INF);
    let mut rec = hit_record::blank();
    assert!(q.hit(&Ray::new(v3(0.5, 0.5, 3.0), v3(0.0, 0.0, -1.0)), t, &mut rec));
    assert_eq!(rec.t, fx(3.0));
    assert_eq!(rec.p, v3(0.5, 0.5, 0.0));
    assert_eq!((rec.u, rec.v), (HALF, HALF));
    assert_eq!(rec.normal, v3(0.0, 0.0, 1.0));
    assert!(rec.front_face);
    assert_eq!(rec.mat, q.mat);
    let before = hit_record::blank();
    let mut miss = hit_record::blank();
    assert!(!q.hit(&Ray::new(v3(1.5, 0.0, 3.0), v3(0.0, 0.0, -1.0)), t, &mut miss));
    assert_eq!(miss, before);
    assert!(!q.hit(&Ray::new(v3(0.5, 0.5, 3.0), v3(1.0, 0.0, 0.0)), t, &mut miss));
    assert!(!q.hit(&Ray::new(v3(0.5, 0.5, 3.0), v3(0.0, 0.0, 1.0)), t, &mut miss));
    assert_eq!(miss, before);
    let mut back = hit_record::blank();
    assert!(q.hit(&Ray::new(v3(0.25, 0.75, -2.0), v3(0.0, 0.0, 1.0)), t, &mut back));
    assert!(!back.front_face);
    assert_eq!(back.normal, v3(0.0, 0.0, -1.0));
    assert_eq!((back.u, back.v), (fx(0.25), fx(0.75)));
}

#[test]
fn parallel_edges_are_refused() {
    let r = Quad::new(Vec3::zero(), v3(1.0, 0.0, 0.0), v3(2.0, 0.0, 0.0), grey());
    assert_eq!(r, Err(SceneError::DegenerateGeometry));
    let z = Quad::new(Vec3::zero(), Vec3::zero(), v3(0.0, 1.0, 0.0), grey());
    assert_eq!(z, Err(SceneError::DegenerateGeometry));
    assert!(Quad::new(Vec3::zero(), v3(1.0, 0.0, 0.0), v3(1.0, 1.0, 0.0), grey()).is_ok());
}

#[test]
fn quad_box_covers_the_corners() {
    let q = Quad::new(v3(1.0, 1.0, 1.0), v3(2.0, 0.0, 0.0), v3(0.0, 0.0, -3.0), grey()).unwrap();
    let b = q.bounding_box();
    assert_eq!(b.x, Interval::new(fx(1.0), fx(3.0)));
    assert_eq!(b.z, Interval::new(fx(-2.0), fx(1.0)));
    assert_eq!(b.y, Interval::new(fx(1.0) - 839, fx(1.0) + 839));
}

#[test]
fn box_of_six_quads() {
    let list = Quad::boxx(v3(1.0, 1.0, 1.0), v3(0.0, 0.0, 0.0), grey()).unwrap();
    assert_eq!(list.objects.len(), 6);
    let b = list.bounding_box();
    assert_eq!(b.x, Interval::new(-839, ONE + 839));
    let world = Hittable::List(list);
    let t = Interval::new(fx(0.001), INF);
    let mut rng = Sampler::new(1);
    let mut rec = hit_record::blank();
    assert!(world.hit(&Ray::new(v3(0.5, 0.5, 5.0), v3(0.0, 0.0, -1.0)), t, &mut rec, &mut rng));
    assert_eq!(rec.t, fx(4.0));
    assert_eq!(rec.p, v3(0.5, 0.5, 1.0));
    assert!(rec.front_face);
    let mut inside = hit_record::blank();
    assert!(world.hit(&Ray::new(v3(0.5, 0.5, 0.5), v3(1.0, 0.0, 0.0)), t, &mut inside, &mut rng));
    assert_eq!(inside.t, fx(0.5));
    assert!(!inside.front_face);
    let mut none = hit_record::blank();
    assert!(!world.hit(&Ray::new(v3(2.5, 0.5, 5.0), v3(0.0, 0.0, -1.0)), t, &mut none, &mut rng));
    assert_eq!(Quad::boxx(v3(1.0, 1.0, 0.0), v3(0.0, 0.0, 0.0), grey()), Err(SceneError::DegenerateGeometry));
}

#[test]
fn list_takes_the_closest_hit() {
    let mut list = HittableList::new();
    assert_eq!(list.bounding_box(), aabb::empty());
    let far = Sphere::new(v3(0.0, 0.0, -5.0), ONE, grey());
    let near = Sphere::new(v3(0.0, 0.0, 0.0), ONE, grey());
    let far_box = far.bounding_box();
    let near_box = near.bounding_box();
    list.add(Arc::new(Hittable::Sphere(far)));
    assert_eq!(list.bounding_box(), far_box);
    list.add(Arc::new(Hittable::Sphere(near)));
    assert_eq!(list.bounding_box(), aabb::new_from_aabbs(&far_box, &near_box));
    assert_eq!(list.objects.len(), 2);
    let mut rng = Sampler::new(1);
    let mut rec = hit_record::blank();
    let r = Ray::new(v3(0.0, 0.0, 5.0), v3(0.0, 0.0, -1.0));
    assert!(list.hit(&r, Interval::new(fx(0.001), INF), &mut rec, &mut rng));
    assert_eq!(rec.t, fx(4.0));
    let mut rec2 = hit_record::blank();
    assert!(list.hit(&r, Interval::new(fx(7.0), INF), &mut rec2, &mut rng));
    assert_eq!(rec2.t, fx(9.0));
    list.clear();
    assert_eq!(list.objects.len(), 0);
    assert_eq!(list.bounding_box(), aabb::empty());
    let mut rec3 = hit_record::blank();
    assert!(!list.hit(&r, Interval::new(fx(0.001), INF), &mut rec3, &mut rng));
    assert_eq!(rec3, hit_record::blank());
}

#[test]
fn face_normal_points_against_the_ray() {
    let mut rec = hit_record::blank();
    let r = Ray::new(Vec3::zero(), v3(0.0, 0.0, -1.0));
    rec.set_face_normal(&r, v3(0.0, 0.0, 1.0));
    assert!(rec.front_face);
    assert_eq!(rec.normal, v3(0.0, 0.0, 1.0));
    rec.set_face_normal(&r, v3(0.0, 0.0, -1.0));
    assert!(!rec.front_face);
    assert_eq!(rec.normal, v3(0.0, 0.0, 1.0));
    rec.set_face_normal(&r, v3(1.0, 0.0, 0.0));
    assert!(!rec.front_face);
    assert_eq!(rec.normal, v3(-1.0, 0.0, 0.0));
}

#[test]
fn translated_sphere() {
    let s = Arc::new(Hittable::Sphere(Sphere::new(Vec3::zero(), ONE, grey())));
    let moved = translate::new(s.clone(), v3(10.0, 0.0, 0.0));
    assert_eq!(moved.bounding_box(), s.bounding_box().add(v3(10.0, 0.0, 0.0)));
    let mut rng = Sampler::new(1);
    let t = Interval::new(fx(0.001), INF);
    let mut rec = hit_record::blank();
    assert!(moved.hit(&Ray::new(v3(10.0, 0.0, 5.0), v3(0.0, 0.0, -1.0)), t, &mut rec, &mut rng));
    assert_eq!(rec.t, fx(4.0));
    assert_eq!(rec.p, v3(10.0, 0.0, 1.0));
    assert_eq!(rec.normal, v3(0.0, 0.0, 1.0));
    let mut miss = hit_record::blank();
    assert!(!moved.hit(&Ray::new(v3(0.0, 0.0, 5.0), v3(0.0, 0.0, -1.0)), t, &mut miss, &mut rng));
    assert_eq!(miss, hit_record::blank());
}

#[test]
fn rotation_about_y() {
    let quarter = rotate_y::new(
        Arc::new(Hittable::Sphere(Sphere::new(v3(2.0, 0.0, 0.0), ONE, grey()))),
        raytracer::fixed::from_int(90),
    );
    assert!((fl(quarter.sin_theta) - 1.0).abs() < 1e-6);
    assert!(fl(quarter.cos_theta).abs() < 1e-6);
    assert!(close(to_world(quarter.sin_theta, quarter.cos_theta, v3(2.0, 0.0, 0.0)), v3(0.0, 0.0, -2.0), 1e-5));
    assert!(close(to_object(quarter.sin_theta, quarter.cos_theta, v3(0.0, 0.0, -2.0)), v3(2.0, 0.0, 0.0), 1e-5));
    let b = quarter.bounding_box();
    assert!((fl(b.z.min) + 3.0).abs() < 1e-4 && (fl(b.z.max) + 1.0).abs() < 1e-4);
    assert!((fl(b.x.min) + 1.0).abs() < 1e-4 && (fl(b.x.max) - 1.0).abs() < 1e-4);
    let mut rng = Sampler::new(1);
    let mut rec = hit_record::blank();
    let r = Ray::new(v3(0.0, 0.0, 5.0), v3(0.0, 0.0, -1.0));
    assert!(quarter.hit(&r, Interval::new(fx(0.001), INF), &mut rec, &mut rng));
    assert!((fl(rec.t) - 6.0).abs() < 1e-4);
    assert!(close(rec.p, v3(0.0, 0.0, -1.0), 1e-4));
    assert!(close(rec.normal, v3(0.0, 0.0, 1.0), 1e-4));
    assert!(rec.front_face);
}

fn real_sphere_t(center: [f64; 3], radius: f64, origin: [f64; 3], dir: [f64; 3], t_min: f64) -> Option<f64> {
    let oc = [center[0] - origin[0], center[1] - origin[1], center[2] - origin[2]];
    let a = dir[0] * dir[0] + dir[1] * dir[1] + dir[2] * dir[2];
    let h = oc[0] * dir[0] + oc[1] * dir[1] + oc[2] * dir[2];
    let c = oc[0] * oc[0] + oc[1] * oc[1] + oc[2] * oc[2] - radius * radius;
    let discriminant = h * h - a * c;
    if discriminant < 0.0 {
        return None;
    }
    let sqrtd = discriminant.sqrt();
    let near = (h - sqrtd) / a;
    if near > t_min {
        return Some(near);
    }
    let far = (h + sqrtd) / a;
    if far > t_min {
        Some(far)
    } else {
        None
    }
}

#[test]
fn sphere_hits_agree_with_real_arithmetic() {
    let mut rng = Sampler::new(31);
    let search = Interval::new(fx(0.001), INF);
    let as_real = |v: Vec3| [fl(v.x), fl(v.y), fl(v.z)];
    let (mut both, mut apart) = (0, 0);
    for _ in 0..2000 {
        let center = Vec3::random_with_range(fx(-50.0), fx(50.0), &mut rng);
        let radius = raytracer::raytracer::random_double_range(fx(0.5), fx(30.0), &mut rng);
        let origin = Vec3::random_with_range(fx(-100.0), fx(100.0), &mut rng);
        let aim = Vec3::random_with_range(fx(-40.0), fx(40.0), &mut rng);
        let dir = aim.minus(origin);
        let s = Sphere::new(center, radius, grey());
        let mut rec = hit_record::blank();
        let hit = s.hit(&Ray::new(origin, dir), search, &mut rec);
        let real = real_sphere_t(as_real(center), fl(radius), as_real(origin), as_real(dir), 0.001);
        match (hit, real) {
            (true, Some(t)) => {
                both += 1;
                assert!((fl(rec.t) - t).abs() < 1e-3, "t = {} against {}", fl(rec.t), t);
                let p = [fl(origin.x) + t * fl(dir.x), fl(origin.y) + t * fl(dir.y), fl(origin.z) + t * fl(dir.z)];
                assert!((fl(rec.p.x) - p[0]).abs() < 0.2 && (fl(rec.p.y) - p[1]).abs() < 0.2);
                assert!((fl(rec.p.z) - p[2]).abs() < 0.2);
                assert!((fl(rec.normal.length_squared()) - 1.0).abs() < 0.05);
            },
            (false, None) => {},
            _ => apart += 1,
        }
    }
    assert!(both > 100, "only {} rays hit", both);
    assert!(apart <= 4, "{} rays are judged differently", apart);
}

#[test]
fn quad_hits_agree_with_real_arithmetic() {
    let mut rng = Sampler::new(32);
    let search = Interval::new(fx(0.001), INF);
    let q = Quad::new(v3(-3.0, -2.0, 5.0), v3(0.0, 0.0, -4.0), v3(0.0, 4.0, 0.0), grey()).unwrap();
    let (mut hits, mut apart) = (0, 0);
    for _ in 0..2000 {
        let origin = Vec3::random_with_range(fx(-10.0), fx(10.0), &mut rng);
        let aim = Vec3::new(fx(-3.0), random_range(&mut rng, -4.0, 4.0), random_range(&mut rng, -1.0, 7.0));
        let dir = aim.minus(origin);
        let mut rec = hit_record::blank();
        let hit = q.hit(&Ray::new(origin, dir), search, &mut rec);
        let inside = fl(aim.y) >= -2.0 && fl(aim.y) <= 2.0 && fl(aim.z) >= 1.0 && fl(aim.z) <= 5.0;
        let reaches = fl(dir.x).abs() > 1e-6;
        if hit {
            hits += 1;
            assert!((fl(rec.t) - 1.0).abs() < 1e-4);
            assert!((fl(rec.u) - (5.0 - fl(aim.z)) / 4.0).abs() < 1e-3);
            assert!((fl(rec.v) - (fl(aim.y) + 2.0) / 4.0).abs() < 1e-3);
        }
        if hit != (inside && reaches) {
            apart += 1;
        }
    }
    assert!(hits > 300);
    assert!(apart <= 4, "{} rays are judged differently", apart);
}

fn random_range(rng: &mut Sampler, lo: f64, hi: f64) -> i64 {
    raytracer::raytracer::random_double_range(fx(lo), fx(hi), rng)
}

#[test]
fn corners_of_a_box() {
    let b = aabb { x: Interval::new(1, 2), y: Interval::new(3, 4), z: Interval::new(5, 6) };
    assert_eq!(corner(b, 0), Vec3::new(1, 3, 5));
    assert_eq!(corner(b, 1), Vec3::new(1, 3, 6));
    assert_eq!(corner(b, 2), Vec3::new(1, 4, 5));
    assert_eq!(corner(b, 4), Vec3::new(2, 3, 5));
    assert_eq!(corner(b, 7), Vec3::new(2, 4, 6));
}
