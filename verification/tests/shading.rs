use std::sync::Arc;

use raytracer::color::{linear_to_gamma_corrected, quantize, write_color, Image};
use raytracer::error::SceneError;
use raytracer::fixed::{fdiv, fmul, from_int, fsub, HALF, ONE, TWO};
use raytracer::hittable::hit_record;
use raytracer::material::{dielectric, diffuse_light, lambertian, metal, pow5, Isotropic, Material};
use raytracer::perlin::{blend, corner_term, offset, perlin, smooth, wrap};
use raytracer::ray::Ray;
use raytracer::raytracer::Sampler;
use raytracer::texture::{
    channel, checker_texture, image_texture, is_even_cell, noise_texture, pixel_coord, solid_color, texture,
};
use raytracer::vec3::Vec3;

fn fx(v: f64) -> i64 {
    (v * ONE as f64).round() as i64
}

fn fl(a: i64) -> f64 {
    a as f64 / ONE as f64
}

fn v3(x: f64, y: f64, z: f64) -> Vec3 {
    Vec3::new(fx(x), fx(y), fx(z))
}

fn record(p: Vec3, normal: Vec3, front_face: bool) -> hit_record {
    let mut rec = hit_record::blank();
    rec.p = p;
    rec.normal = normal;
    rec.front_face = front_face;
    rec.t = ONE;
    rec
}

#[test]
fn solid_colour_is_the_same_everywhere() {
    let t = solid_color::new(v3(0.1, 0.2, 0.3));
    assert_eq!(t.value(0, 0, &Vec3::zero()), v3(0.1, 0.2, 0.3));
    assert_eq!(t.value(ONE, HALF, &v3(9.0, -4.0, 2.0)), v3(0.1, 0.2, 0.3));
    assert_eq!(solid_color::new_from_rgb(1, 2, 3), solid_color::new(Vec3::new(1, 2, 3)));
    assert_eq!(texture::Solid(t).value(0, 0, &Vec3::zero()), v3(0.1, 0.2, 0.3));
}

#[test]
fn checker_alternates_by_cell_parity() {
    let white = v3(0.9, 0.9, 0.9);
    let green = v3(0.2, 0.3, 0.1);
    let c = checker_texture::new_from_colors(ONE, green, white);
    assert_eq!(c.inv_scale, ONE);
    assert_eq!(c.value(0, 0, &v3(0.5, 0.5, 0.5)), green);
    assert_eq!(c.value(0, 0, &v3(1.5, 0.5, 0.5)), white);
    assert_eq!(c.value(0, 0, &v3(1.5, 1.5, 0.5)), green);
    assert_eq!(c.value(0, 0, &v3(-0.5, 0.5, 0.5)), white);
    assert_eq!(c.value(0, 0, &v3(-0.5, -0.5, 0.5)), green);
    assert_eq!(c.value(0, 0, &v3(-0.5, -0.5, -0.5)), white);
    assert!(is_even_cell(ONE, &v3(0.5, 0.5, 0.5)));
    assert!(!is_even_cell(ONE, &v3(-0.5, 0.5, 0.5)));
    let fine = checker_texture::new_from_colors(fx(0.5), green, white);
    assert_eq!(fine.inv_scale, TWO);
    assert_eq!(fine.value(0, 0, &v3(0.25, 0.0, 0.0)), green);
    assert_eq!(fine.value(0, 0, &v3(0.75, 0.0, 0.0)), white);
    let nested = checker_texture::new(
        ONE,
        Arc::new(texture::Checker(fine)),
        Arc::new(texture::Solid(solid_color::new(Vec3::zero()))),
    );
    assert_eq!(nested.value(0, 0, &v3(0.75, 0.0, 0.0)), white);
    assert_eq!(nested.value(0, 0, &v3(1.75, 0.0, 0.0)), Vec3::zero());
}

fn two_by_two() -> image_texture {
    let data: Vec<u8> = vec![255, 0, 0, 0, 255, 0, 0, 0, 255, 51, 102, 153];
    image_texture::new(data, 2, 2).unwrap()
}

#[test]
fn image_lookup_counts_rows_from_the_bottom() {
    let img = two_by_two();
    assert_eq!((img.width, img.height, img.bytes_per_pixel, img.bytes_per_scanline), (2, 2, 3, 6));
    let p = Vec3::zero();
    assert_eq!(img.value(0, ONE, &p), v3(1.0, 0.0, 0.0));
    assert_eq!(img.value(fx(0.75), ONE, &p), v3(0.0, 1.0, 0.0));
    assert_eq!(img.value(0, 0, &p), v3(0.0, 0.0, 1.0));
    assert_eq!(img.value(fx(0.75), fx(0.25), &p), Vec3::new(channel(51), channel(102), channel(153)));
    assert_eq!(img.value(fx(7.0), fx(-3.0), &p), Vec3::new(channel(51), channel(102), channel(153)));
    assert_eq!(img.value(fx(-7.0), fx(5.0), &p), v3(1.0, 0.0, 0.0));
    assert_eq!(channel(255), ONE);
    assert_eq!(channel(0), 0);
    assert_eq!(channel(51), fdiv(from_int(51), from_int(255)));
    assert_eq!(channel(51), 3355443);
    assert_eq!(pixel_coord(0, 2), 0);
    assert_eq!(pixel_coord(HALF, 2), 1);
    assert_eq!(pixel_coord(ONE, 2), 1);
    assert_eq!(pixel_coord(-ONE, 2), 0);
    assert_eq!(pixel_coord(fx(0.999), 800), 799);
}

#[test]
fn image_without_pixels_is_cyan() {
    let img = image_texture::new(Vec::new(), 0, 0).unwrap();
    assert_eq!(img.value(HALF, HALF, &Vec3::zero()), v3(0.0, 1.0, 1.0));
    let wide = image_texture::new(Vec::new(), 5, 0).unwrap();
    assert_eq!(wide.value(HALF, HALF, &Vec3::zero()), v3(0.0, 1.0, 1.0));
}

#[test]
fn image_of_the_wrong_size_is_refused() {
    assert_eq!(image_texture::new(vec![1, 2, 3, 4], 1, 1), Err(SceneError::ImageSize));
    assert_eq!(image_texture::new(vec![1, 2, 3], 2, 1), Err(SceneError::ImageSize));
    assert_eq!(image_texture::new(Vec::new(), 1, 1), Err(SceneError::ImageSize));
    assert!(image_texture::new(vec![1, 2, 3], 1, 1).is_ok());
}

#[test]
fn noise_tables_are_permutations() {
    let mut rng = Sampler::new(42);
    let p = perlin::new(&mut rng);
    for table in [&p.perm_x, &p.perm_y, &p.perm_z] {
        assert_eq!(table.len(), 256);
        let mut seen = [false; 256];
        for &e in table.iter() {
            assert!(!seen[e as usize]);
            seen[e as usize] = true;
        }
    }
    assert_ne!(p.perm_x, (0..256).collect::<Vec<u32>>());
    assert_eq!(p.randvec.len(), 256);
    for g in p.randvec.iter() {
        let l = fl(g.length_squared());
        assert!(l == 0.0 || (l - 1.0).abs() < 1e-3);
    }
    let again = perlin::new(&mut Sampler::new(42));
    assert_eq!(p, again);
}

#[test]
fn permute_keeps_the_entries() {
    let mut rng = Sampler::new(3);
    let mut p: Vec<u32> = vec![10, 20, 30, 40, 50, 60, 70, 80];
    perlin::permute(&mut p, 6, &mut rng);
    assert_eq!(&p[6..], &[70, 80]);
    let mut sorted = p.clone();
    sorted.sort();
    assert_eq!(sorted, vec![10, 20, 30, 40, 50, 60, 70, 80]);
    let mut q: Vec<u32> = vec![1, 2, 3];
    perlin::permute(&mut q, 0, &mut rng);
    assert_eq!(q, vec![1, 2, 3]);
    let generated = perlin::perlin_generate_perm(&mut rng);
    let mut g = generated.clone();
    g.sort();
    assert_eq!(g, (0..256).collect::<Vec<u32>>());
}

#[test]
fn exchange_swaps_two_entries() {
    let mut p: Vec<u32> = vec![10, 20, 30, 40];
    raytracer::perlin::exchange(&mut p, 3, 1);
    assert_eq!(p, vec![10, 40, 30, 20]);
    raytracer::perlin::exchange(&mut p, 2, 2);
    assert_eq!(p, vec![10, 40, 30, 20]);
    raytracer::perlin::exchange(&mut p, 0, 3);
    assert_eq!(p, vec![20, 40, 30, 10]);
}

#[test]
fn permute_exchanges_each_entry_with_the_drawn_one() {
    let start: Vec<u32> = (100..140).collect();
    let mut shuffled = start.clone();
    perlin::permute(&mut shuffled, 32, &mut Sampler::new(77));
    let mut replay = start.clone();
    let mut draws = Sampler::new(77);
    for i in (0..32).rev() {
        let target = raytracer::raytracer::random_int_range(0, i, &mut draws);
        assert!(target <= i);
        raytracer::perlin::exchange(&mut replay, i, target);
    }
    assert_eq!(shuffled, replay);
    assert_ne!(shuffled, start);
    assert_eq!(&shuffled[32..], &start[32..]);
}

#[test]
fn lattice_helpers() {
    assert_eq!(wrap(0), 0);
    assert_eq!(wrap(255), 255);
    assert_eq!(wrap(256), 0);
    assert_eq!(wrap(-1), 255);
    assert_eq!(wrap(-256), 0);
    assert_eq!(wrap(-257), 255);
    assert_eq!(wrap(i64::MIN), 0);
    assert_eq!(wrap(i64::MAX), 255);
    assert_eq!(blend(true, fx(0.25)), fx(0.25));
    assert_eq!(blend(false, fx(0.25)), fx(0.75));
    assert_eq!(offset(true, fx(0.25)), fx(-0.75));
    assert_eq!(offset(false, fx(0.25)), fx(0.25));
    assert_eq!(smooth(0), 0);
    assert_eq!(smooth(ONE), ONE);
    assert_eq!(smooth(HALF), HALF);
    assert_eq!(smooth(fx(0.25)), fx(0.15625));
    let g = v3(1.0, 0.0, 0.0);
    assert_eq!(corner_term(g, HALF, HALF, HALF, false, false, false), fx(0.0625));
    assert_eq!(corner_term(g, HALF, HALF, HALF, true, false, false), fx(-0.0625));
}

#[test]
fn noise_vanishes_on_the_lattice_and_is_bounded() {
    let mut rng = Sampler::new(5);
    let p = perlin::new(&mut rng);
    assert_eq!(p.noise(&v3(3.0, -2.0, 7.0)), 0);
    assert_eq!(p.noise(&Vec3::zero()), 0);
    let mut x = -4.0;
    while x < 4.0 {
        let n = fl(p.noise(&v3(x, x * 0.7 + 0.3, 1.1 - x)));
        assert!(n.abs() <= 1.0);
        x += 0.173;
    }
    let c = [[[v3(1.0, 0.0, 0.0); 2]; 2]; 2];
    assert_eq!(perlin::perlin_interp(&c, 0, 0, 0), 0);
    assert_eq!(p.gradient(1, 2, 3), p.randvec[(p.perm_x[1] ^ p.perm_y[2] ^ p.perm_z[3]) as usize]);
    assert_eq!(p.gradient(-1, 256, 0), p.randvec[(p.perm_x[255] ^ p.perm_y[0] ^ p.perm_z[0]) as usize]);
}

#[test]
fn turbulence_sums_octaves() {
    let mut rng = Sampler::new(5);
    let p = perlin::new(&mut rng);
    let at = v3(0.3, 0.6, 0.9);
    assert_eq!(p.turb(&at, 0), 0);
    assert_eq!(p.turb(&at, -3), 0);
    assert_eq!(p.turb(&at, 1), p.noise(&at).abs());
    let two = p.noise(&at) + fmul(p.noise(&at.scale(TWO)), HALF);
    assert_eq!(p.turb(&at, 2), two.abs());
    assert!(p.turb(&at, 7) >= 0);
}

#[test]
fn noise_texture_is_grey() {
    let mut rng = Sampler::new(11);
    let t = noise_texture::new_with_scale(from_int(4), &mut rng);
    assert_eq!(t.scale, from_int(4));
    let mut x = -2.0;
    while x < 2.0 {
        let c = t.value(0, 0, &v3(x, 0.5 * x, 1.0 + x));
        assert!(c.x == c.y && c.y == c.z);
        assert!(0 <= c.x && c.x <= ONE);
        x += 0.21;
    }
    let plain = noise_texture::new(&mut rng);
    assert_eq!(plain.scale, ONE);
    assert_eq!(plain.value(0, 0, &Vec3::zero()), v3(0.5, 0.5, 0.5));
}

#[test]
fn reflectance_at_normal_incidence_is_r0() {
    for ri in [fx(1.5), fx(1.0 / 1.5), fx(1.0), fx(2.4), fx(1.33), fx(0.25), 0, fx(-1.0)] {
        let q = fdiv(fsub(ONE, ri), ONE + ri);
        let r0 = fmul(q, q);
        assert_eq!(dielectric::reflectance(ONE, ri), r0, "ri = {}", ri);
    }
    assert_eq!(dielectric::reflectance(ONE, fx(1.5)), 671088);
    assert!((fl(dielectric::reflectance(ONE, fx(1.5))) - 0.04).abs() < 1e-6);
}

#[test]
fn reflectance_grows_toward_grazing_angles() {
    let ri = fx(1.5);
    let r0 = dielectric::reflectance(ONE, ri);
    assert_eq!(dielectric::reflectance(0, ri), ONE);
    let half = dielectric::reflectance(HALF, ri);
    assert_eq!(half, r0 + fmul(ONE - r0, fx(0.03125)));
    assert!(r0 < half && half < ONE);
    assert_eq!(pow5(HALF), fx(0.03125));
    assert_eq!(pow5(TWO), from_int(32));
    assert_eq!(pow5(-ONE), -ONE);
}

#[test]
fn diffuse_scatter_follows_the_normal_plus_the_sample() {
    let m = lambertian::new(v3(0.5, 0.25, 0.125));
    let rec = record(v3(1.0, 2.0, 3.0), v3(0.0, 1.0, 0.0), true);
    let r_in = Ray::new_with_time(Vec3::zero(), v3(0.0, -1.0, 0.0), HALF);
    let (att, out) = m.scatter_toward(&r_in, &rec, v3(1.0, 0.0, 0.0));
    assert_eq!(att, v3(0.5, 0.25, 0.125));
    assert_eq!(out, Ray::new_with_time(v3(1.0, 2.0, 3.0), v3(1.0, 1.0, 0.0), HALF));
    let (_, back) = m.scatter_toward(&r_in, &rec, v3(0.0, -1.0, 0.0));
    assert_eq!(back.dir, v3(0.0, 1.0, 0.0));
    let mut rng = Sampler::new(9);
    let mut attenuation = Vec3::zero();
    let mut scattered = Ray::new(Vec3::zero(), Vec3::zero());
    assert!(m.scatter(&r_in, &rec, &mut attenuation, &mut scattered, &mut rng));
    assert_eq!(attenuation, v3(0.5, 0.25, 0.125));
    assert_eq!(scattered.orig, rec.p);
    assert_eq!(scattered.tm, HALF);
    let d = scattered.dir.minus(rec.normal);
    assert!((fl(d.length_squared()) - 1.0).abs() < 1e-3);
    let textured = lambertian::new_with_texture(Arc::new(texture::Solid(solid_color::new(v3(0.1, 0.1, 0.1)))));
    assert_eq!(textured.albedo, Vec3::zero());
    assert_eq!(textured.scatter_toward(&r_in, &rec, v3(1.0, 0.0, 0.0)).0, v3(0.1, 0.1, 0.1));
}

#[test]
fn metal_reflects_and_rejects_inward_directions() {
    let mirror = metal::new(v3(0.8, 0.8, 0.8), 0);
    let rec = record(Vec3::zero(), v3(0.0, 1.0, 0.0), true);
    let r_in = Ray::new(v3(-1.0, 1.0, 0.0), v3(3.0, -4.0, 0.0));
    let (ok, att, out) = mirror.scatter_toward(&r_in, &rec, v3(0.0, -1.0, 0.0));
    assert!(ok);
    assert_eq!(att, v3(0.8, 0.8, 0.8));
    assert_eq!(out.dir, Vec3::new(10066329, 13421772, 0));
    let rough = metal::new(v3(0.8, 0.8, 0.8), fx(5.0));
    assert_eq!(rough.fuzz, ONE);
    let (ok2, att2, out2) = rough.scatter_toward(&r_in, &rec, v3(0.0, -1.0, 0.0));
    assert!(!ok2);
    assert_eq!(att2, v3(0.8, 0.8, 0.8));
    assert_eq!(out2.dir, Vec3::new(10066329, 13421772 - ONE, 0));
    let mut rng = Sampler::new(2);
    let mut attenuation = Vec3::zero();
    let mut scattered = Ray::new(Vec3::zero(), Vec3::zero());
    assert!(mirror.scatter(&r_in, &rec, &mut attenuation, &mut scattered, &mut rng));
    assert_eq!(scattered.dir, Vec3::new(10066329, 13421772, 0));
}

#[test]
fn metal_blur_is_clamped_on_both_sides() {
    let a = v3(0.8, 0.6, 0.2);
    assert_eq!(metal::new(a, fx(-0.5)).fuzz, 0);
    assert_eq!(metal::new(a, fx(3.0)).fuzz, ONE);
    assert_eq!(metal::new(a, fx(0.3)).fuzz, fx(0.3));
    assert_eq!(metal::new(a, 0).fuzz, 0);
    assert_eq!(metal::new(a, ONE).fuzz, ONE);
    assert_eq!(metal::new(a, i64::MIN).fuzz, 0);
    assert_eq!(metal::new(a, fx(-0.5)).albedo, a);
    assert_eq!(metal::new(a, fx(-0.5)), metal::new(a, 0));
}

#[test]
fn glass_refracts_or_reflects_by_the_sample() {
    let glass = dielectric::new(fx(1.5));
    let rec = record(Vec3::zero(), v3(0.0, 1.0, 0.0), true);
    let r_in = Ray::new(v3(0.0, 1.0, 0.0), v3(0.0, -2.0, 0.0));
    let (att, through) = glass.scatter_given(&r_in, &rec, HALF);
    assert_eq!(att, v3(1.0, 1.0, 1.0));
    assert!((fl(through.dir.y) + 1.0).abs() < 1e-6 && through.dir.x == 0);
    let (_, mirrored) = glass.scatter_given(&r_in, &rec, 0);
    assert_eq!(mirrored.dir, v3(0.0, 1.0, 0.0));
    let inside = record(Vec3::zero(), v3(0.0, 1.0, 0.0), false);
    let grazing = Ray::new(v3(0.0, 1.0, 0.0), v3(0.9, -0.2, 0.0));
    let (_, total) = glass.scatter_given(&grazing, &inside, ONE - 1);
    assert!(total.dir.y > 0);
    let mut rng = Sampler::new(2);
    let mut attenuation = Vec3::zero();
    let mut scattered = Ray::new(Vec3::zero(), Vec3::zero());
    assert!(glass.scatter(&r_in, &rec, &mut attenuation, &mut scattered, &mut rng));
    assert_eq!(attenuation, v3(1.0, 1.0, 1.0));
}

#[test]
fn lights_emit_and_never_scatter() {
    let light = diffuse_light::new_from_emit_color(v3(4.0, 4.0, 4.0));
    let rec = record(Vec3::zero(), v3(0.0, 1.0, 0.0), true);
    let r_in = Ray::new(v3(0.0, 1.0, 0.0), v3(0.0, -1.0, 0.0));
    let mut rng = Sampler::new(2);
    let mut attenuation = v3(0.3, 0.3, 0.3);
    let mut scattered = Ray::new(v3(1.0, 1.0, 1.0), v3(2.0, 2.0, 2.0));
    assert!(!light.scatter(&r_in, &rec, &mut attenuation, &mut scattered, &mut rng));
    assert_eq!(attenuation, v3(0.3, 0.3, 0.3));
    assert_eq!(scattered, Ray::new(v3(1.0, 1.0, 1.0), v3(2.0, 2.0, 2.0)));
    assert_eq!(light.emitted(0, 0, &Vec3::zero()), v3(4.0, 4.0, 4.0));
    let m = Material::DiffuseLight(light);
    assert!(!m.scatter(&r_in, &rec, &mut attenuation, &mut scattered, &mut rng));
    assert_eq!(m.emitted(0, 0, &Vec3::zero()), v3(4.0, 4.0, 4.0));
    let dull = Material::Lambertian(lambertian::new(v3(0.5, 0.5, 0.5)));
    assert_eq!(dull.emitted(0, 0, &Vec3::zero()), Vec3::zero());
    assert!(dull.scatter(&r_in, &rec, &mut attenuation, &mut scattered, &mut rng));
    assert_eq!(Material::Metal(metal::new(Vec3::zero(), 0)).emitted(0, 0, &Vec3::zero()), Vec3::zero());
    let textured = diffuse_light::new(Arc::new(texture::Solid(solid_color::new(v3(1.0, 2.0, 3.0)))));
    assert_eq!(textured.emitted(HALF, HALF, &Vec3::zero()), v3(1.0, 2.0, 3.0));
}

#[test]
fn fog_scatters_in_the_sampled_direction() {
    let fog = Isotropic::new_from_color(v3(0.2, 0.4, 0.9));
    let rec = record(v3(1.0, 1.0, 1.0), v3(1.0, 0.0, 0.0), true);
    let r_in = Ray::new_with_time(Vec3::zero(), v3(1.0, 1.0, 1.0), 7);
    let (att, out) = fog.scatter_toward(&r_in, &rec, v3(0.0, 0.0, 1.0));
    assert_eq!(att, v3(0.2, 0.4, 0.9));
    assert_eq!(out, Ray::new_with_time(v3(1.0, 1.0, 1.0), v3(0.0, 0.0, 1.0), 7));
    let other = Isotropic::new(Arc::new(texture::Solid(solid_color::new(v3(0.2, 0.4, 0.9)))));
    assert_eq!(other, fog);
    let mut rng = Sampler::new(2);
    let mut attenuation = Vec3::zero();
    let mut scattered = Ray::new(Vec3::zero(), Vec3::zero());
    assert!(fog.scatter(&r_in, &rec, &mut attenuation, &mut scattered, &mut rng));
    assert!((fl(scattered.dir.length_squared()) - 1.0).abs() < 1e-3);
}

#[test]
fn gamma_and_quantization() {
    assert_eq!(linear_to_gamma_corrected(fx(0.25)), fx(0.5));
    assert_eq!(linear_to_gamma_corrected(-ONE), 0);
    assert_eq!(linear_to_gamma_corrected(0), 0);
    assert_eq!(quantize(0), 0);
    assert_eq!(quantize(-ONE), 0);
    assert_eq!(quantize(fx(0.25)), 128);
    assert_eq!(quantize(ONE), 255);
    assert_eq!(quantize(from_int(50)), 255);
    assert_eq!(quantize(fx(0.0625)), 64);
    assert_eq!(quantize(fx(0.81)), 230);
}

#[test]
fn writing_a_pixel_changes_three_bytes() {
    let mut img = Image::new(3, 2);
    assert_eq!(img.data, vec![0u8; 18]);
    write_color(v3(0.25, 1.0, 0.0625), &mut img, 1, 1);
    let mut expected = vec![0u8; 18];
    expected[12] = 128;
    expected[13] = 255;
    expected[14] = 64;
    assert_eq!(img.data, expected);
    assert_eq!(img.get_pixel(1, 1), [128, 255, 64]);
    assert_eq!(img.get_pixel(0, 0), [0, 0, 0]);
    write_color(v3(1.0, 1.0, 1.0), &mut img, 2, 0);
    assert_eq!(img.get_pixel(2, 0), [255, 255, 255]);
    assert_eq!((img.width, img.height), (3, 2));
}
