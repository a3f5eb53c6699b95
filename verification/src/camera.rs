//! The camera: ray generation, the light-transport integrator and the tiled
//! renderer.
use std::sync::Arc;
use vstd::prelude::*;
use crate::color::{Image, write_color, spec_bytes_of};
use crate::fixed::{Fixed, ONE, TWO, HALF, INF, fadd, fsub, fmul, fdiv, from_int, from_count,
    spec_fadd, spec_fsub, spec_fmul, spec_fdiv, spec_from_int, spec_from_count};
use crate::hittable::{hit_record, Hittable};
use crate::hittable_list::{HittableList, can_reach};
use crate::interval::Interval;
use crate::material::Material;
use crate::ray::Ray;
use crate::raytracer::{Sampler, random_double, degrees_to_radians, spec_degrees_to_radians};
use crate::trig::{ftan, spec_ftan};
use crate::vec3::Vec3;

verus! {

/// The image is cut into this many rows of tiles.
pub const HEIGHT_PARTITION: usize = 20;

/// The image is cut into this many columns of tiles.
pub const WIDTH_PARTITION: usize = 20;

/// At most this many tiles are rendered at the same time.
pub const THREAD_LIMIT: usize = 16;

/// Hits closer to a ray's origin than this are ignored, about 1e-3.
pub const T_MIN: i64 = 16777;

#[derive(Debug, PartialEq)]
pub struct Camera {
    pub aspect_ratio: Fixed,
    pub width: usize,
    pub height: usize,
    pub camera_center: Vec3,
    pub pixel_delta_u: Vec3,
    pub pixel_delta_v: Vec3,
    pub pixel00_loc: Vec3,
    pub samples_per_pixel: usize,
    pub pixel_samples_scale: Fixed,
    pub max_depth: usize,
    /// The vertical field of view in degrees.
    pub vfov: Fixed,
    pub lookfrom: Vec3,
    pub lookat: Vec3,
    pub vup: Vec3,
    pub u: Vec3,
    pub v: Vec3,
    pub w: Vec3,
    /// The angle of the cone from the focus point to the lens, in degrees.
    pub defocus_angle: Fixed,
    pub focus_dist: Fixed,
    pub defocus_disk_u: Vec3,
    pub defocus_disk_v: Vec3,
    pub background: Vec3,
}

/// The number of pixels along one side of a tile when `extent` pixels are
/// cut into `parts` tiles: `extent / parts`, rounded up.
pub open spec fn spec_chunk(extent: usize, parts: usize) -> int {
    if extent as int % parts as int == 0 {
        extent as int / parts as int
    } else {
        extent as int / parts as int + 1
    }
}

/// The side of a tile when `extent` pixels are cut into `parts` tiles.
pub fn chunk(extent: usize, parts: usize) -> (c: usize)
    requires
        parts > 0,
    ensures
        c == spec_chunk(extent, parts),
{
    let whole: usize = extent / parts;
    let rest: usize = extent % parts;
    if rest == 0 {
        whole
    } else {
        proof {
            vstd::arithmetic::div_mod::lemma_fundamental_div_mod(extent as int, parts as int);
            assert(whole < extent) by (nonlinear_arith)
                requires
                    extent == parts * whole + rest,
                    0 < rest < parts,
                    whole >= 0,
            ;
        }
        whole + 1
    }
}

/// The least of `n * size` and `extent`: where tile `n` starts along a side
/// of `extent` pixels.
pub open spec fn spec_tile_edge(n: usize, size: int, extent: usize) -> int {
    if n * size < extent {
        n * size
    } else {
        extent as int
    }
}

/// Where tile `n` of side `size` starts along a side of `extent` pixels.
pub fn tile_edge(n: usize, size: usize, extent: usize) -> (e: usize)
    ensures
        e == spec_tile_edge(n, size as int, extent),
{
    assert(n * size <= 0xffff_ffff_ffff_ffff * 0xffff_ffff_ffff_ffff) by (nonlinear_arith)
        requires
            0 <= n <= 0xffff_ffff_ffff_ffff,
            0 <= size <= 0xffff_ffff_ffff_ffff,
    ;
    let wide: u128 = (n as u128) * (size as u128);
    if wide < extent as u128 {
        wide as usize
    } else {
        extent
    }
}

/// Whether pixel `(x, y)` of an image of `width * height` pixels belongs to
/// the tile in column `i` and row `j`.
pub open spec fn in_tile(width: usize, height: usize, i: usize, j: usize, x: usize, y: usize) -> bool {
    let cw = spec_chunk(width, WIDTH_PARTITION);
    let ch = spec_chunk(height, HEIGHT_PARTITION);
    &&& i < WIDTH_PARTITION
    &&& j < HEIGHT_PARTITION
    &&& spec_tile_edge(i, cw, width) <= x < spec_tile_edge((i + 1) as usize, cw, width)
    &&& spec_tile_edge(j, ch, height) <= y < spec_tile_edge((j + 1) as usize, ch, height)
}

/// Every pixel of the image belongs to exactly one tile: the one in column
/// `x / chunk width` and row `y / chunk height`.
pub proof fn lemma_pixel_has_one_tile(width: usize, height: usize, x: usize, y: usize)
    requires
        x < width,
        y < height,
    ensures
        in_tile(
            width,
            height,
            (x as int / spec_chunk(width, WIDTH_PARTITION)) as usize,
            (y as int / spec_chunk(height, HEIGHT_PARTITION)) as usize,
            x,
            y,
        ),
        forall|i: usize, j: usize|
            #[trigger] in_tile(width, height, i, j, x, y) ==> i == x as int / spec_chunk(width, WIDTH_PARTITION) && j
                == y as int / spec_chunk(height, HEIGHT_PARTITION),
{
    lemma_one_strip(width, WIDTH_PARTITION, x);
    lemma_one_strip(height, HEIGHT_PARTITION, y);
}

/// Along one side of `extent` pixels cut into `parts` strips, pixel `x`
/// lies in strip `x / chunk` and in no other.
pub proof fn lemma_one_strip(extent: usize, parts: usize, x: usize)
    requires
        x < extent,
        0 < parts <= 20,
    ensures
        spec_chunk(extent, parts) > 0,
        0 <= x as int / spec_chunk(extent, parts) < parts,
        spec_tile_edge((x as int / spec_chunk(extent, parts)) as usize, spec_chunk(extent, parts), extent) <= x
            < spec_tile_edge((x as int / spec_chunk(extent, parts) + 1) as usize, spec_chunk(extent, parts), extent),
        forall|n: usize|
            n < parts && #[trigger] spec_tile_edge(n, spec_chunk(extent, parts), extent) <= x < spec_tile_edge(
                (n + 1) as usize,
                spec_chunk(extent, parts),
                extent,
            ) ==> n == x as int / spec_chunk(extent, parts),
{
    let c = spec_chunk(extent, parts);
    vstd::arithmetic::div_mod::lemma_fundamental_div_mod(extent as int, parts as int);
    let whole = extent as int / parts as int;
    let rest = extent as int % parts as int;
    assert(c * parts >= extent && c > 0) by (nonlinear_arith)
        requires
            extent == parts * whole + rest,
            0 <= rest < parts,
            c == if rest == 0 {
                whole
            } else {
                whole + 1
            },
            extent > 0,
            parts > 0,
    ;
    let q = x as int / c;
    vstd::arithmetic::div_mod::lemma_fundamental_div_mod(x as int, c);
    assert(0 <= q < parts && q * c <= x < (q + 1) * c) by (nonlinear_arith)
        requires
            x == c * q + x as int % c,
            0 <= x as int % c < c,
            c * parts >= extent,
            x < extent,
            x >= 0,
            c > 0,
    ;
    assert forall|n: usize|
        n < parts && #[trigger] spec_tile_edge(n, c, extent) <= x < spec_tile_edge(
            (n + 1) as usize,
            c,
            extent,
        ) implies n == q by {
        assert(n * c <= x < (n + 1) * c);
        assert(n == q) by (nonlinear_arith)
            requires
                n * c <= x < (n + 1) * c,
                q * c <= x < (q + 1) * c,
                c > 0,
        ;
    }
}

/// How many tiles are being rendered, and how many may be.
#[derive(Debug, PartialEq)]
pub struct Admission {
    pub outstanding: usize,
    pub limit: usize,
}

/// What the scheduler does with the next tile.
#[derive(Clone, Copy, Debug, PartialEq, Eq, Structural)]
pub enum Decision {
    /// Start a worker on it now.
    Spawn,
    /// Wait until a worker has finished, then ask again.
    Wait,
}

impl Admission {
    /// Whether no more tiles are outstanding than the limit allows.
    pub open spec fn wf(&self) -> bool {
        self.outstanding <= self.limit
    }

    /// No tile outstanding, with room for `limit`.
    pub fn new(limit: usize) -> (a: Admission)
        ensures
            a.wf(),
            a.outstanding == 0,
            a.limit == limit,
    {
        Admission { outstanding: 0, limit }
    }

    /// Asks to start one more tile. Below the limit the tile is counted and
    /// may start; at the limit nothing changes and the caller has to wait.
    pub fn request(&mut self) -> (d: Decision)
        requires
            old(self).wf(),
        ensures
            final(self).wf(),
            final(self).limit == old(self).limit,
            old(self).outstanding < old(self).limit ==> d == Decision::Spawn && final(self).outstanding == old(
                self,
            ).outstanding + 1,
            old(self).outstanding >= old(self).limit ==> d == Decision::Wait && final(self).outstanding == old(
                self,
            ).outstanding,
    {
        if self.outstanding < self.limit {
            self.outstanding = self.outstanding + 1;
            Decision::Spawn
        } else {
            Decision::Wait
        }
    }

    /// Records that a tile has finished, which makes room for another.
    pub fn complete(&mut self)
        requires
            old(self).wf(),
            old(self).outstanding > 0,
        ensures
            final(self).wf(),
            final(self).limit == old(self).limit,
            final(self).outstanding == old(self).outstanding - 1,
            final(self).outstanding < final(self).limit,
    {
        self.outstanding = self.outstanding - 1;
    }
}

impl Camera {
    /// The camera before any setting is changed.
    pub open spec fn spec_new() -> Camera {
        Camera {
            aspect_ratio: ONE,
            width: 100,
            height: 100,
            samples_per_pixel: 10,
            max_depth: 50,
            pixel_samples_scale: fdiv(ONE, from_int(10)),
            camera_center: Vec3::zero(),
            pixel_delta_u: Vec3::zero(),
            pixel_delta_v: Vec3::zero(),
            pixel00_loc: Vec3::zero(),
            vfov: from_int(90),
            lookfrom: Vec3::zero(),
            lookat: Vec3 { x: 0, y: 0, z: (-ONE) as i64 },
            vup: Vec3 { x: 0, y: ONE, z: 0 },
            u: Vec3::zero(),
            v: Vec3::zero(),
            w: Vec3::zero(),
            defocus_angle: 0,
            focus_dist: from_int(10),
            defocus_disk_u: Vec3::zero(),
            defocus_disk_v: Vec3::zero(),
            background: Vec3::zero(),
        }
    }

    /// A camera at the origin that looks down the negative z axis: 100 by
    /// 100 pixels, 10 samples per pixel, depth 50, a field of view of 90
    /// degrees, no defocus blur and a black background.
    #[verifier::when_used_as_spec(spec_new)]
    pub fn new() -> (c: Camera)
        ensures
            c == Self::spec_new(),
    {
        Camera {
            aspect_ratio: ONE,
            width: 100,
            height: 100,
            samples_per_pixel: 10,
            max_depth: 50,
            pixel_samples_scale: fdiv(ONE, from_int(10)),
            camera_center: Vec3::zero(),
            pixel_delta_u: Vec3::zero(),
            pixel_delta_v: Vec3::zero(),
            pixel00_loc: Vec3::zero(),
            vfov: from_int(90),
            lookfrom: Vec3::zero(),
            lookat: Vec3::new(0, 0, -ONE),
            vup: Vec3::new(0, ONE, 0),
            u: Vec3::zero(),
            v: Vec3::zero(),
            w: Vec3::zero(),
            defocus_angle: 0,
            focus_dist: from_int(10),
            defocus_disk_u: Vec3::zero(),
            defocus_disk_v: Vec3::zero(),
            background: Vec3::zero(),
        }
    }

    /// The point of the lens that the disk sample `p` selects:
    /// `defocus_disk_u * p.x + defocus_disk_v * p.y + camera_center`.
    pub open spec fn spec_lens_point(&self, p: Vec3) -> Vec3 {
        self.defocus_disk_u.scale(p.x).plus(self.defocus_disk_v.scale(p.y)).plus(self.camera_center)
    }

    /// The point of the lens that the disk sample `p` selects:
    /// `defocus_disk_u * p.x + defocus_disk_v * p.y + camera_center`.
    #[verifier::when_used_as_spec(spec_lens_point)]
    pub fn lens_point(&self, p: Vec3) -> (o: Vec3)
        ensures
            o == self.spec_lens_point(p),
    {
        self.defocus_disk_u.scale(p.x).plus(self.defocus_disk_v.scale(p.y)).plus(self.camera_center)
    }

    /// A random point of the lens: `lens_point` of a random point of the
    /// unit disk.
    pub fn defocus_disk_sample(&self, rng: &mut Sampler) -> (o: Vec3)
        ensures
            exists|p: Vec3| Vec3::in_unit_disk(p) && o == self.spec_lens_point(p),
    {
        let p = Vec3::random_in_unit_disk(rng);
        self.lens_point(p)
    }

    /// Whether `o` is an offset inside a pixel: both coordinates in
    /// [-1/2, 1/2), and `z` zero.
    pub open spec fn is_pixel_offset(o: Vec3) -> bool {
        -HALF <= o.x < HALF && -HALF <= o.y < HALF && o.z == 0
    }

    /// A random offset inside a pixel.
    pub fn sample_square(&self, rng: &mut Sampler) -> (o: Vec3)
        ensures
            Self::is_pixel_offset(o),
    {
        let x: i64 = random_double(rng);
        let y: i64 = random_double(rng);
        Vec3::new(fsub(x, HALF), fsub(y, HALF), 0)
    }

    /// The ray through pixel `(i, j)`, moved inside the pixel by `offset`,
    /// that starts at `lens` at time `tm`: it runs from `lens` to
    /// `pixel00_loc + pixel_delta_u * (i + offset.x) + pixel_delta_v * (j + offset.y)`.
    pub open spec fn spec_ray_through(&self, i: usize, j: usize, offset: Vec3, lens: Vec3, tm: i64) -> Ray {
        let pixel_sample = self.pixel00_loc.plus(self.pixel_delta_u.scale(fadd(from_count(i), offset.x))).plus(
            self.pixel_delta_v.scale(fadd(from_count(j), offset.y)),
        );
        Ray::new_with_time(lens, pixel_sample.minus(lens), tm)
    }

    /// The ray from `lens` through pixel `(i, j)`, moved inside the pixel by
    /// `offset`, at time `tm`.
    pub fn ray_through(&self, i: usize, j: usize, offset: Vec3, lens: Vec3, tm: Fixed) -> (r: Ray)
        ensures
            r == self.spec_ray_through(i, j, offset, lens, tm),
    {
        let pixel_sample = self.pixel00_loc.plus(self.pixel_delta_u.scale(fadd(from_count(i), offset.x))).plus(
            self.pixel_delta_v.scale(fadd(from_count(j), offset.y)),
        );
        Ray::new_with_time(lens, pixel_sample.minus(lens), tm)
    }

    /// Whether `lens` can be the origin of a camera ray: a point of the
    /// lens if there is defocus blur, the camera centre if there is none.
    pub open spec fn is_ray_origin(&self, lens: Vec3) -> bool {
        if self.defocus_angle > 0 {
            exists|p: Vec3| Vec3::in_unit_disk(p) && lens == self.spec_lens_point(p)
        } else {
            lens == self.camera_center
        }
    }

    /// Whether `r` can be a camera ray through pixel `(i, j)`: it is
    /// `ray_through` for some offset inside the pixel, some origin on the
    /// lens and some time in [0, 1).
    pub open spec fn is_camera_ray(&self, i: usize, j: usize, r: Ray) -> bool {
        exists|offset: Vec3, lens: Vec3, tm: i64|
            #![trigger self.spec_ray_through(i, j, offset, lens, tm)]
            Self::is_pixel_offset(offset) && self.is_ray_origin(lens) && 0 <= tm < ONE && r == self.spec_ray_through(
                i,
                j,
                offset,
                lens,
                tm,
            )
    }

    /// A random camera ray through pixel `(i, j)`.
    pub fn get_ray(&self, i: usize, j: usize, rng: &mut Sampler) -> (r: Ray)
        ensures
            self.is_camera_ray(i, j, r),
    {
        let offset = self.sample_square(rng);
        let ray_origin = if self.defocus_angle > 0 {
            self.defocus_disk_sample(rng)
        } else {
            self.camera_center
        };
        let ray_time: i64 = random_double(rng);
        self.ray_through(i, j, offset, ray_origin, ray_time)
    }

    /// The light that arrives from a hit that emits `emitted` and scatters
    /// the light `inner` with attenuation `attenuation`:
    /// `emitted + inner * attenuation`, component by component.
    pub open spec fn spec_combine(emitted: Vec3, attenuation: Vec3, inner: Vec3) -> Vec3 {
        emitted.plus(inner.times(attenuation))
    }

    /// The interval in which the integrator looks for hits: from `T_MIN` on.
    pub open spec fn spec_search() -> Interval {
        Interval { min: T_MIN, max: INF }
    }

    /// Whether `c` can be the light that arrives along `r`, followed over
    /// at most `depth` bounces.
    ///
    /// At depth 0 it is black. Otherwise the world answers the ray with a
    /// hit or with nothing, and the light is what `color_after` allows for
    /// that answer.
    pub open spec fn possible_color(&self, world: &Hittable, r: &Ray, depth: nat, c: Vec3) -> bool
        decreases depth, 2int,
    {
        if depth == 0 {
            c == Vec3::zero()
        } else {
            exists|answer: Option<hit_record>|
                #![trigger world.can_hit(r, Self::spec_search(), hit_record::blank(), answer)]
                world.can_hit(r, Self::spec_search(), hit_record::blank(), answer) && self.color_after(
                    world,
                    r,
                    answer,
                    depth,
                    c,
                )
        }
    }

    /// Whether `c` can be the light that arrives along `r` once the world
    /// has answered `answer`: the background if the ray hits nothing, and
    /// what `color_at_hit` allows for some outcome of the material's
    /// `scatter` if it hits a surface.
    pub open spec fn color_after(&self, world: &Hittable, r: &Ray, answer: Option<hit_record>, depth: nat, c: Vec3) -> bool
        decreases depth, 1int,
    {
        match answer {
            None => c == self.background,
            Some(rec) => exists|scatters: bool, attenuation: Vec3, scattered: Ray|
                #![trigger rec.mat.scatter_outcome(r, &rec, (Vec3::zero(), Ray::new(Vec3::zero(), Vec3::zero())), scatters, attenuation, scattered)]
                rec.mat.scatter_outcome(
                    r,
                    &rec,
                    (Vec3::zero(), Ray::new(Vec3::zero(), Vec3::zero())),
                    scatters,
                    attenuation,
                    scattered,
                ) && self.color_at_hit(world, rec, depth, scatters, attenuation, scattered, c),
        }
    }

    /// Whether `c` can be the light that arrives from the hit `rec` once
    /// the material has decided how it scatters: what the surface emits,
    /// and if it scatters, in addition the light that arrives along the
    /// scattered ray with one bounce less, times the attenuation.
    pub open spec fn color_at_hit(
        &self,
        world: &Hittable,
        rec: hit_record,
        depth: nat,
        scatters: bool,
        attenuation: Vec3,
        scattered: Ray,
        c: Vec3,
    ) -> bool
        decreases depth, 0int,
    {
        if depth == 0 {
            false
        } else if scatters {
            exists|inner: Vec3|
                #![trigger Self::spec_combine(rec.mat.spec_emitted(rec.u, rec.v, &rec.p), attenuation, inner)]
                self.possible_color(world, &scattered, (depth - 1) as nat, inner) && c == Self::spec_combine(
                    rec.mat.spec_emitted(rec.u, rec.v, &rec.p),
                    attenuation,
                    inner,
                )
        } else {
            c == rec.mat.spec_emitted(rec.u, rec.v, &rec.p)
        }
    }

    /// A ray that hits nothing gets the background.
    pub proof fn lemma_color_of_miss(&self, world: &Hittable, r: &Ray, depth: nat)
        requires
            depth > 0,
            world.can_hit(r, Self::spec_search(), hit_record::blank(), None),
        ensures
            self.possible_color(world, r, depth, self.background),
    {
        reveal_with_fuel(Camera::possible_color, 2);
        reveal_with_fuel(Camera::color_after, 2);
        assert(self.color_after(world, r, None, depth, self.background));
    }

    /// A ray that hits a surface which does not scatter it gets what the
    /// surface emits.
    pub proof fn lemma_color_of_absorbed(
        &self,
        world: &Hittable,
        r: &Ray,
        depth: nat,
        rec: hit_record,
        attenuation: Vec3,
        scattered: Ray,
    )
        requires
            depth > 0,
            world.can_hit(r, Self::spec_search(), hit_record::blank(), Some(rec)),
            rec.mat.scatter_outcome(
                r,
                &rec,
                (Vec3::zero(), Ray::new(Vec3::zero(), Vec3::zero())),
                false,
                attenuation,
                scattered,
            ),
        ensures
            self.possible_color(world, r, depth, rec.mat.spec_emitted(rec.u, rec.v, &rec.p)),
    {
        reveal_with_fuel(Camera::possible_color, 2);
        reveal_with_fuel(Camera::color_after, 2);
        reveal_with_fuel(Camera::color_at_hit, 2);
        assert(self.color_after(world, r, Some(rec), depth, rec.mat.spec_emitted(rec.u, rec.v, &rec.p)));
    }

    /// A ray that hits a surface which scatters it gets what the surface
    /// emits and, attenuated, what arrives along the scattered ray.
    pub proof fn lemma_color_of_scattered(
        &self,
        world: &Hittable,
        r: &Ray,
        depth: nat,
        rec: hit_record,
        attenuation: Vec3,
        scattered: Ray,
        inner: Vec3,
    )
        requires
            depth > 0,
            world.can_hit(r, Self::spec_search(), hit_record::blank(), Some(rec)),
            rec.mat.scatter_outcome(
                r,
                &rec,
                (Vec3::zero(), Ray::new(Vec3::zero(), Vec3::zero())),
                true,
                attenuation,
                scattered,
            ),
            self.possible_color(world, &scattered, (depth - 1) as nat, inner),
        ensures
            self.possible_color(
                world,
                r,
                depth,
                Self::spec_combine(rec.mat.spec_emitted(rec.u, rec.v, &rec.p), attenuation, inner),
            ),
    {
        reveal_with_fuel(Camera::possible_color, 2);
        reveal_with_fuel(Camera::color_after, 2);
        reveal_with_fuel(Camera::color_at_hit, 2);
        let c = Self::spec_combine(rec.mat.spec_emitted(rec.u, rec.v, &rec.p), attenuation, inner);
        assert(self.color_after(world, r, Some(rec), depth, c));
    }

    /// In a world that holds nothing, every ray that is followed at all
    /// gets exactly the background.
    pub proof fn lemma_empty_world_gets_background(&self, world: &Hittable, r: &Ray, depth: nat, c: Vec3)
        requires
            depth > 0,
            world matches Hittable::List(l) && l.objects@.len() == 0,
            self.possible_color(world, r, depth, c),
        ensures
            c == self.background,
    {
        reveal_with_fuel(Camera::possible_color, 2);
        reveal_with_fuel(Camera::color_after, 2);
        reveal_with_fuel(Hittable::can_hit, 2);
        reveal_with_fuel(HittableList::can_hit, 2);
        reveal_with_fuel(can_reach, 2);
    }

    /// A ray that is not followed at all gets black, which is the
    /// background only if the background is black.
    pub proof fn lemma_depth_zero_gets_black(&self, world: &Hittable, r: &Ray, c: Vec3)
        requires
            self.possible_color(world, r, 0, c),
        ensures
            c == Vec3::zero(),
            self.background == Vec3::zero() ==> c == self.background,
    {
    }

    /// In a world without fog, a ray that misses everything gets exactly
    /// the background.
    pub proof fn lemma_miss_gets_background(&self, world: &Hittable, r: &Ray, depth: nat, c: Vec3)
        requires
            depth > 0,
            world.deterministic(),
            world.spec_hit(r, Self::spec_search()) is None,
            self.possible_color(world, r, depth, c),
        ensures
            c == self.background,
    {
        reveal_with_fuel(Camera::possible_color, 2);
        reveal_with_fuel(Camera::color_after, 2);
        let answer = choose|answer: Option<hit_record>|
            #![trigger world.can_hit(r, Self::spec_search(), hit_record::blank(), answer)]
            world.can_hit(r, Self::spec_search(), hit_record::blank(), answer) && self.color_after(
                world,
                r,
                answer,
                depth,
                c,
            );
        world.lemma_one_outcome(r, Self::spec_search(), hit_record::blank(), answer);
    }

    /// In a world without fog, a ray whose first hit is on a light gets
    /// exactly what the light emits there: a light never scatters.
    pub proof fn lemma_light_gets_emission(&self, world: &Hittable, r: &Ray, depth: nat, rec: hit_record, c: Vec3)
        requires
            depth > 0,
            world.deterministic(),
            world.spec_hit(r, Self::spec_search()) == Some(rec),
            rec.mat.is_light(),
            self.possible_color(world, r, depth, c),
        ensures
            c == rec.mat.spec_emitted(rec.u, rec.v, &rec.p),
    {
        reveal(Material::scatter_outcome);
        reveal_with_fuel(Camera::possible_color, 2);
        reveal_with_fuel(Camera::color_after, 2);
        reveal_with_fuel(Camera::color_at_hit, 2);
        let answer = choose|answer: Option<hit_record>|
            #![trigger world.can_hit(r, Self::spec_search(), hit_record::blank(), answer)]
            world.can_hit(r, Self::spec_search(), hit_record::blank(), answer) && self.color_after(
                world,
                r,
                answer,
                depth,
                c,
            );
        world.lemma_one_outcome(r, Self::spec_search(), hit_record::blank(), answer);
    }

    /// The light that arrives along `r`, followed over at most `depth`
    /// bounces: a `possible_color`, which at depth 0 is black.
    pub fn ray_color(&self, r: &Ray, depth: usize, world: &Arc<Hittable>, rng: &mut Sampler) -> (c: [Fixed; 3])
        requires
            world.wf(),
        ensures
            depth == 0 ==> Vec3::from_array(c) == Vec3::zero(),
            self.possible_color(world, r, depth as nat, Vec3::from_array(c)),
        decreases depth,
    {
        if depth == 0 {
            return [0, 0, 0];
        }
        let mut rec = hit_record::blank();
        if !world.hit(r, Interval::new(T_MIN, INF), &mut rec, rng) {
            proof {
                self.lemma_color_of_miss(world, r, depth as nat);
            }
            return [self.background.x, self.background.y, self.background.z];
        }
        let mut scattered = Ray::new(Vec3::zero(), Vec3::zero());
        let mut attenuation = Vec3::zero();
        let color_from_emission = rec.mat.emitted(rec.u, rec.v, &rec.p);
        if !rec.mat.scatter(r, &rec, &mut attenuation, &mut scattered, rng) {
            proof {
                self.lemma_color_of_absorbed(world, r, depth as nat, rec, attenuation, scattered);
            }
            return [color_from_emission.x, color_from_emission.y, color_from_emission.z];
        }
        let inner = self.ray_color(&scattered, depth - 1, world, rng);
        let color_from_scatter = Vec3::from_array(inner).times(attenuation);
        let total = color_from_emission.plus(color_from_scatter);
        proof {
            self.lemma_color_of_scattered(
                world,
                r,
                depth as nat,
                rec,
                attenuation,
                scattered,
                Vec3::from_array(inner),
            );
        }
        [total.x, total.y, total.z]
    }

    /// The camera with every derived field computed from the settings.
    ///
    /// The basis is `w = normalize(lookfrom - lookat)`,
    /// `u = normalize(vup x w)`, `v = w x u`. The viewport is
    /// `2 * tan(vfov / 2) * focus_dist` high and as wide as the aspect ratio
    /// of the image asks; it is centred `focus_dist` in front of the camera.
    /// `pixel00_loc` is the centre of the top left pixel. The lens has the
    /// radius `focus_dist * tan(defocus_angle / 2)`.
    #[verifier::opaque]
    pub open spec fn spec_initialized(&self) -> Camera {
        let h = ftan(fdiv(degrees_to_radians(self.vfov), TWO));
        let viewport_height = fmul(fmul(TWO, h), self.focus_dist);
        let viewport_width = fmul(viewport_height, fdiv(from_count(self.width), from_count(self.height)));
        let w = self.lookfrom.minus(self.lookat).normalize();
        let u = Vec3::cross(self.vup, w).normalize();
        let v = Vec3::cross(w, u);
        let viewport_u = u.scale(viewport_width);
        let viewport_v = v.scale(viewport_height).negated();
        let pixel_delta_u = viewport_u.over(from_count(self.width));
        let pixel_delta_v = viewport_v.over(from_count(self.height));
        let viewport_upper_left = self.lookfrom.minus(viewport_u.over(TWO)).minus(viewport_v.over(TWO)).minus(
            w.scale(self.focus_dist),
        );
        let defocus_radius = fmul(self.focus_dist, ftan(degrees_to_radians(fdiv(self.defocus_angle, TWO))));
        Camera {
            aspect_ratio: fdiv(from_count(self.width), from_count(self.height)),
            width: self.width,
            height: self.height,
            camera_center: self.lookfrom,
            pixel_delta_u,
            pixel_delta_v,
            pixel00_loc: viewport_upper_left.plus(pixel_delta_u.over(TWO)).plus(pixel_delta_v.over(TWO)),
            samples_per_pixel: self.samples_per_pixel,
            pixel_samples_scale: fdiv(ONE, from_count(self.samples_per_pixel)),
            max_depth: self.max_depth,
            vfov: self.vfov,
            lookfrom: self.lookfrom,
            lookat: self.lookat,
            vup: self.vup,
            u,
            v,
            w,
            defocus_angle: self.defocus_angle,
            focus_dist: self.focus_dist,
            defocus_disk_u: u.scale(defocus_radius),
            defocus_disk_v: v.scale(defocus_radius),
            background: self.background,
        }
    }

    /// Computes the derived fields and returns a black image of the
    /// camera's size. The buffer of the image, three bytes for each pixel,
    /// must be addressable.
    pub fn initialize(&mut self) -> (img: Image)
        requires
            3 * old(self).width * old(self).height <= usize::MAX,
        ensures
            *final(self) == old(self).spec_initialized(),
            img.wf(),
            img.width == old(self).width,
            img.height == old(self).height,
            forall|k: int| 0 <= k < img.data@.len() ==> img.data@[k] == 0,
    {
        proof {
            reveal(Camera::spec_initialized);
        }
        self.pixel_samples_scale = fdiv(ONE, from_count(self.samples_per_pixel));
        let img = Image::new(self.width, self.height);
        self.aspect_ratio = fdiv(from_count(self.width), from_count(self.height));
        self.camera_center = self.lookfrom;
        let theta: i64 = degrees_to_radians(self.vfov);
        let h: i64 = ftan(fdiv(theta, TWO));
        let viewport_height: i64 = fmul(fmul(TWO, h), self.focus_dist);
        let viewport_width: i64 = fmul(viewport_height, fdiv(from_count(self.width), from_count(self.height)));
        self.w = self.lookfrom.minus(self.lookat).normalize();
        self.u = Vec3::cross(self.vup, self.w).normalize();
        self.v = Vec3::cross(self.w, self.u);
        let viewport_u = self.u.scale(viewport_width);
        let viewport_v = self.v.scale(viewport_height).negated();
        self.pixel_delta_u = viewport_u.over(from_count(self.width));
        self.pixel_delta_v = viewport_v.over(from_count(self.height));
        let viewport_upper_left = self.camera_center.minus(viewport_u.over(TWO)).minus(viewport_v.over(TWO)).minus(
            self.w.scale(self.focus_dist),
        );
        self.pixel00_loc = viewport_upper_left.plus(self.pixel_delta_u.over(TWO)).plus(self.pixel_delta_v.over(TWO));
        let defocus_radius: i64 = fmul(self.focus_dist, ftan(degrees_to_radians(fdiv(self.defocus_angle, TWO))));
        self.defocus_disk_u = self.u.scale(defocus_radius);
        self.defocus_disk_v = self.v.scale(defocus_radius);
        img
    }

    /// Whether `sum` can be the sum of `n` samples of pixel `(x, y)` in a
    /// world without fog: each sample is the light that arrives along a
    /// camera ray through the pixel, followed over at most `max_depth`
    /// bounces.
    pub open spec fn possible_sum(&self, world: &Hittable, x: usize, y: usize, n: nat, sum: Vec3) -> bool
        decreases n,
    {
        if n == 0 {
            sum == Vec3::zero()
        } else {
            exists|before: Vec3, r: Ray, c: Vec3|
                #![trigger self.is_camera_ray(x, y, r), before.spec_plus(c)]
                {
                    &&& self.possible_sum(world, x, y, (n - 1) as nat, before)
                    &&& self.is_camera_ray(x, y, r)
                    &&& self.possible_color(world, &r, self.max_depth as nat, c)
                    &&& sum == before.spec_plus(c)
                }
        }
    }

    /// Whether `c` can be the colour of pixel `(x, y)` in a world without
    /// fog: the sum of `samples_per_pixel` samples, times
    /// `pixel_samples_scale`.
    pub open spec fn possible_pixel(&self, world: &Hittable, x: usize, y: usize, c: Vec3) -> bool {
        exists|sum: Vec3|
            #![trigger sum.spec_scale(self.pixel_samples_scale)]
            self.possible_sum(world, x, y, self.samples_per_pixel as nat, sum) && c == sum.spec_scale(
                self.pixel_samples_scale,
            )
    }

    /// One more sample makes a possible sum of one sample more.
    pub proof fn lemma_one_more_sample(&self, world: &Hittable, x: usize, y: usize, n: nat, before: Vec3, r: Ray, c: Vec3)
        requires
            self.possible_sum(world, x, y, n, before),
            self.is_camera_ray(x, y, r),
            self.possible_color(world, &r, self.max_depth as nat, c),
        ensures
            self.possible_sum(world, x, y, n + 1, before.spec_plus(c)),
    {
        let sum = before.spec_plus(c);
        assert(self.possible_sum(world, x, y, ((n + 1) - 1) as nat, before));
    }

    /// The pixel columns `x_min..x_max` and rows `y_min..y_max` of tile
    /// `(i, j)`, cut off at the edges of the image.
    pub open spec fn spec_tile_bounds(&self, i: usize, j: usize) -> (usize, usize, usize, usize) {
        let cw = spec_chunk(self.width, WIDTH_PARTITION);
        let ch = spec_chunk(self.height, HEIGHT_PARTITION);
        (
            spec_tile_edge(i, cw, self.width) as usize,
            spec_tile_edge((i + 1) as usize, cw, self.width) as usize,
            spec_tile_edge(j, ch, self.height) as usize,
            spec_tile_edge((j + 1) as usize, ch, self.height) as usize,
        )
    }

    /// The pixel columns and rows of tile `(i, j)`, cut off at the edges of the image.
    pub fn tile_bounds(&self, i: usize, j: usize) -> (b: (usize, usize, usize, usize))
        requires
            i < WIDTH_PARTITION,
            j < HEIGHT_PARTITION,
        ensures
            b == self.spec_tile_bounds(i, j),
            b.1 <= self.width,
            b.3 <= self.height,
            forall|x: usize, y: usize|
                b.0 <= x < b.1 && b.2 <= y < b.3 <==> #[trigger] in_tile(self.width, self.height, i, j, x, y),
    {
        let chunk_width: usize = chunk(self.width, WIDTH_PARTITION);
        let chunk_height: usize = chunk(self.height, HEIGHT_PARTITION);
        (
            tile_edge(i, chunk_width, self.width),
            tile_edge(i + 1, chunk_width, self.width),
            tile_edge(j, chunk_height, self.height),
            tile_edge(j + 1, chunk_height, self.height),
        )
    }

    /// Renders the pixels of the columns `x_min..x_max` and the rows
    /// `y_min..y_max`, as far as they lie in the image. The result holds one
    /// entry for each of them, row by row: the pixel's column, its row, and
    /// the mean of `samples_per_pixel` camera rays through it.
    pub fn render_sub(
        &self,
        world: &Arc<Hittable>,
        x_min: usize,
        x_max: usize,
        y_min: usize,
        y_max: usize,
        rng: &mut Sampler,
    ) -> (buff: Vec<(usize, usize, Vec3)>)
        requires
            world.wf(),
        ensures
            is_tile_layout(
                buff@,
                x_min,
                if x_max < self.width {
                    x_max
                } else {
                    self.width
                },
                y_min,
                if y_max < self.height {
                    y_max
                } else {
                    self.height
                },
            ),
            forall|k: int|
                0 <= k < buff@.len() ==> self.possible_pixel(
                    world,
                    (#[trigger] buff@[k]).0,
                    buff@[k].1,
                    buff@[k].2,
                ),
    {
        let x_max: usize = if x_max < self.width {
            x_max
        } else {
            self.width
        };
        let y_max: usize = if y_max < self.height {
            y_max
        } else {
            self.height
        };
        let ghost w: int = spec_extent(x_min, x_max);
        let mut buff: Vec<(usize, usize, Vec3)> = Vec::new();
        let mut y: usize = y_min;
        while y < y_max
            invariant
                world.wf(),
                y_min <= y,
                y_min <= y_max ==> y <= y_max,
                y_max < y_min ==> y == y_min,
                w == spec_extent(x_min, x_max),
                buff@.len() == (y - y_min) * w,
                forall|k: int| 0 <= k < buff@.len() ==> (#[trigger] buff@[k]).0 == x_min + k % w && buff@[k].1 == y_min + k / w,
                forall|k: int|
                    0 <= k < buff@.len() ==> self.possible_pixel(
                        world,
                        (#[trigger] buff@[k]).0,
                        buff@[k].1,
                        buff@[k].2,
                    ),
            decreases y_max - y,
        {
            let mut x: usize = x_min;
            while x < x_max
                invariant
                    world.wf(),
                    y_min <= y < y_max,
                    x_min <= x,
                    x_min <= x_max ==> x <= x_max,
                    x_max < x_min ==> x == x_min,
                    w == spec_extent(x_min, x_max),
                    buff@.len() == (y - y_min) * w + (x - x_min),
                    forall|k: int| 0 <= k < buff@.len() ==> (#[trigger] buff@[k]).0 == x_min + k % w && buff@[k].1 == y_min + k / w,
                    forall|k: int|
                        0 <= k < buff@.len() ==> self.possible_pixel(
                            world,
                            (#[trigger] buff@[k]).0,
                            buff@[k].1,
                            buff@[k].2,
                        ),
                decreases x_max - x,
            {
                let mut pixel_color = Vec3::zero();
                let mut sample: usize = 0;
                while sample < self.samples_per_pixel
                    invariant
                        world.wf(),
                        sample <= self.samples_per_pixel,
                        self.possible_sum(world, x, y, sample as nat, pixel_color),
                    decreases self.samples_per_pixel - sample,
                {
                    let r = self.get_ray(x, y, rng);
                    let c = Vec3::from_array(self.ray_color(&r, self.max_depth, world, rng));
                    proof {
                        self.lemma_one_more_sample(world, x, y, sample as nat, pixel_color, r, c);
                    }
                    pixel_color = pixel_color.plus(c);
                    sample += 1;
                }
                let ghost before = buff@;
                let scaled = pixel_color.scale(self.pixel_samples_scale);
                proof {
                    let k = buff@.len() as int;
                    assert(k == w * (y - y_min) + (x - x_min)) by (nonlinear_arith)
                        requires
                            k == (y - y_min) * w + (x - x_min),
                    ;
                    vstd::arithmetic::div_mod::lemma_fundamental_div_mod_converse(k, w, y - y_min, x - x_min);
                }
                buff.push((x, y, scaled));
                proof {
                    assert(self.possible_pixel(world, x, y, scaled));
                    assert forall|k: int| 0 <= k < buff@.len() implies self.possible_pixel(
                        world,
                        (#[trigger] buff@[k]).0,
                        buff@[k].1,
                        buff@[k].2,
                    ) by {
                        if k < before.len() {
                            assert(buff@[k] == before[k]);
                        }
                    }
                }
                x += 1;
            }
            proof {
                assert(x - x_min == w);
                assert((y + 1 - y_min) * w == (y - y_min) * w + w) by (nonlinear_arith);
            }
            y += 1;
        }
        proof {
            let h = spec_extent(y_min, y_max);
            assert(y - y_min == h);
            assert(buff@.len() == w * h) by (nonlinear_arith)
                requires
                    buff@.len() == (y - y_min) * w,
                    y - y_min == h,
            ;
        }
        buff
    }

    /// Whether pixel `(x, y)` of `img` shows a colour that the pixel can
    /// have in the world without fog `world`: its three bytes are those of
    /// a `possible_pixel`.
    pub open spec fn shows(&self, world: &Hittable, img: &Image, x: usize, y: usize) -> bool {
        exists|c: Vec3|
            #![trigger spec_bytes_of(c)]
            self.possible_pixel(world, x, y, c) && img.spec_pixel(x, y) == spec_bytes_of(c)
    }

    /// Whether every pixel of the tiles that come before tile `(i, j)`, row
    /// by row, shows a colour it can have.
    pub open spec fn tiles_done(&self, world: &Hittable, img: &Image, i: usize, j: usize) -> bool {
        forall|x: usize, y: usize, i1: usize, j1: usize|
            #[trigger] in_tile(self.width, self.height, i1, j1, x, y) && (j1 < j || (j1 == j && i1 < i))
                ==> self.shows(world, img, x, y)
    }

    /// Renders the whole image, tile by tile: computes the derived fields,
    /// renders each of the `WIDTH_PARTITION * HEIGHT_PARTITION` tiles with
    /// `render_sub` and writes its pixels into the image. In a world
    /// without fog every pixel of the image ends up with the bytes of a
    /// colour that it can have.
    pub fn render(&mut self, world: &Arc<Hittable>, rng: &mut Sampler) -> (img: Image)
        requires
            3 * old(self).width * old(self).height <= usize::MAX,
            world.wf(),
        ensures
            *final(self) == old(self).spec_initialized(),
            img.wf(),
            img.width == old(self).width,
            img.height == old(self).height,
            forall|x: usize, y: usize|
                x < img.width && y < img.height ==> #[trigger] final(self).shows(world, &img, x, y),
    {
        let mut img = self.initialize();
        proof {
            reveal(Camera::spec_initialized);
        }
        let mut j: usize = 0;
        while j < HEIGHT_PARTITION
            invariant
                j <= HEIGHT_PARTITION,
                world.wf(),
                img.wf(),
                img.width == self.width,
                img.height == self.height,
                self.tiles_done(world, &img, 0, j),
            decreases HEIGHT_PARTITION - j,
        {
            let mut i: usize = 0;
            while i < WIDTH_PARTITION
                invariant
                    i <= WIDTH_PARTITION,
                    j < HEIGHT_PARTITION,
                    world.wf(),
                    img.wf(),
                    img.width == self.width,
                    img.height == self.height,
                    self.tiles_done(world, &img, i, j),
                decreases WIDTH_PARTITION - i,
            {
                let (x_min, x_max, y_min, y_max) = self.tile_bounds(i, j);
                let buff = self.render_sub(world, x_min, x_max, y_min, y_max, rng);
                let mut k: usize = 0;
                while k < buff.len()
                    invariant
                        k <= buff@.len(),
                        i < WIDTH_PARTITION,
                        j < HEIGHT_PARTITION,
                        is_tile_layout(buff@, x_min, x_max, y_min, y_max),
                        (x_min, x_max, y_min, y_max) == self.spec_tile_bounds(i, j),
                        x_max <= self.width,
                        y_max <= self.height,
                        forall|x: usize, y: usize|
                            x_min <= x < x_max && y_min <= y < y_max <==> #[trigger] in_tile(
                                self.width,
                                self.height,
                                i,
                                j,
                                x,
                                y,
                            ),
                        img.wf(),
                        img.width == self.width,
                        img.height == self.height,
                        self.tiles_done(world, &img, i, j),
                        forall|m: int|
                            0 <= m < buff@.len() ==> self.possible_pixel(
                                world,
                                (#[trigger] buff@[m]).0,
                                buff@[m].1,
                                buff@[m].2,
                            ),
                        forall|m: int|
                            0 <= m < k ==> self.shows(world, &img, (#[trigger] buff@[m]).0, buff@[m].1),
                    decreases buff@.len() - k,
                {
                    let entry = buff[k];
                    let ghost before = img;
                    proof {
                        lemma_layout_in_tile(buff@, x_min, x_max, y_min, y_max, k as int);
                    }
                    write_color(entry.2, &mut img, entry.0, entry.1);
                    proof {
                        self.lemma_write_keeps_tiles(world, &before, &img, i, j, entry.0, entry.1);
                        assert(spec_bytes_of(entry.2) == img.spec_pixel(entry.0, entry.1));
                        assert(self.shows(world, &img, entry.0, entry.1));
                        assert forall|m: int| 0 <= m < k + 1 implies self.shows(
                            world,
                            &img,
                            (#[trigger] buff@[m]).0,
                            buff@[m].1,
                        ) by {
                            if m < k {
                                lemma_layout_distinct(buff@, x_min, x_max, y_min, y_max, m, k as int);
                                lemma_layout_in_tile(buff@, x_min, x_max, y_min, y_max, m);
                                self.lemma_shows_unchanged(world, &before, &img, buff@[m].0, buff@[m].1);
                            }
                        }
                    }
                    k += 1;
                }
                proof {
                    assert forall|x: usize, y: usize, i1: usize, j1: usize|
                        #[trigger] in_tile(self.width, self.height, i1, j1, x, y) && (j1 < j || (j1 == j && i1 < i
                            + 1)) implies self.shows(world, &img, x, y) by {
                        if j1 == j && i1 == i {
                            let m = lemma_layout_covers(buff@, x_min, x_max, y_min, y_max, x, y);
                            assert(self.shows(world, &img, buff@[m].0, buff@[m].1));
                        }
                    }
                }
                i += 1;
            }
            j += 1;
        }
        proof {
            assert forall|x: usize, y: usize| x < img.width && y < img.height implies #[trigger] self.shows(
                world,
                &img,
                x,
                y,
            ) by {
                lemma_pixel_has_one_tile(self.width, self.height, x, y);
            }
        }
        img
    }

    /// A pixel that a write leaves alone shows what it showed.
    pub proof fn lemma_shows_unchanged(&self, world: &Hittable, before: &Image, after: &Image, x: usize, y: usize)
        requires
            self.shows(world, before, x, y),
            after.spec_pixel(x, y) == before.spec_pixel(x, y),
        ensures
            self.shows(world, after, x, y),
    {
        let c = choose|c: Vec3|
            #![trigger spec_bytes_of(c)]
            self.possible_pixel(world, x, y, c) && before.spec_pixel(x, y) == spec_bytes_of(c);
        assert(after.spec_pixel(x, y) == spec_bytes_of(c));
    }

    /// Writing a pixel of tile `(i, j)` changes no pixel of the tiles before
    /// it.
    pub proof fn lemma_write_keeps_tiles(
        &self,
        world: &Hittable,
        before: &Image,
        after: &Image,
        i: usize,
        j: usize,
        x: usize,
        y: usize,
    )
        requires
            self.tiles_done(world, before, i, j),
            in_tile(self.width, self.height, i, j, x, y),
            before.width == self.width,
            before.height == self.height,
            forall|x1: usize, y1: usize|
                x1 < self.width && y1 < self.height && (x1 != x || y1 != y) ==> #[trigger] after.spec_pixel(x1, y1)
                    == before.spec_pixel(x1, y1),
        ensures
            self.tiles_done(world, after, i, j),
    {
        assert forall|x1: usize, y1: usize, i1: usize, j1: usize|
            #[trigger] in_tile(self.width, self.height, i1, j1, x1, y1) && (j1 < j || (j1 == j && i1 < i))
            implies self.shows(world, after, x1, y1) by {
            lemma_tile_in_image(self.width, self.height, i1, j1, x1, y1);
            lemma_tile_in_image(self.width, self.height, i, j, x, y);
            if x1 == x && y1 == y {
                lemma_pixel_has_one_tile(self.width, self.height, x, y);
            }
            self.lemma_shows_unchanged(world, before, after, x1, y1);
        }
    }
}

/// A pixel of a tile is a pixel of the image.
pub proof fn lemma_tile_in_image(width: usize, height: usize, i: usize, j: usize, x: usize, y: usize)
    requires
        in_tile(width, height, i, j, x, y),
    ensures
        x < width,
        y < height,
{
}

/// Different entries of a tile layout are different pixels.
pub proof fn lemma_layout_distinct(
    buff: Seq<(usize, usize, Vec3)>,
    x_min: usize,
    x_max: usize,
    y_min: usize,
    y_max: usize,
    m: int,
    k: int,
)
    requires
        is_tile_layout(buff, x_min, x_max, y_min, y_max),
        0 <= m < k < buff.len(),
    ensures
        buff[m].0 != buff[k].0 || buff[m].1 != buff[k].1,
{
    let w = spec_extent(x_min, x_max);
    lemma_layout_in_tile(buff, x_min, x_max, y_min, y_max, k);
    vstd::arithmetic::div_mod::lemma_fundamental_div_mod(m, w);
    vstd::arithmetic::div_mod::lemma_fundamental_div_mod(k, w);
}

/// Every pixel of a tile has its entry in the tile's layout.
pub proof fn lemma_layout_covers(
    buff: Seq<(usize, usize, Vec3)>,
    x_min: usize,
    x_max: usize,
    y_min: usize,
    y_max: usize,
    x: usize,
    y: usize,
) -> (k: int)
    requires
        is_tile_layout(buff, x_min, x_max, y_min, y_max),
        x_min <= x < x_max,
        y_min <= y < y_max,
    ensures
        0 <= k < buff.len(),
        buff[k].0 == x,
        buff[k].1 == y,
{
    let w = spec_extent(x_min, x_max);
    let h = spec_extent(y_min, y_max);
    let k = (y - y_min) * w + (x - x_min);
    assert(0 <= k < w * h) by (nonlinear_arith)
        requires
            k == (y - y_min) * w + (x - x_min),
            0 <= y - y_min < h,
            0 <= x - x_min < w,
    ;
    assert(k == w * (y - y_min) + (x - x_min)) by (nonlinear_arith)
        requires
            k == (y - y_min) * w + (x - x_min),
    ;
    vstd::arithmetic::div_mod::lemma_fundamental_div_mod_converse(k, w, y - y_min, x - x_min);
    k
}

/// The number of pixels from `lo` up to, but not including, `hi`.
pub open spec fn spec_extent(lo: usize, hi: usize) -> int {
    if lo < hi {
        hi - lo
    } else {
        0
    }
}

/// Whether `buff` holds the pixels of the columns `x_min..x_max` and the rows
/// `y_min..y_max` exactly once each, row by row.
pub open spec fn is_tile_layout(
    buff: Seq<(usize, usize, Vec3)>,
    x_min: usize,
    x_max: usize,
    y_min: usize,
    y_max: usize,
) -> bool {
    &&& buff.len() == spec_extent(x_min, x_max) * spec_extent(y_min, y_max)
    &&& forall|k: int|
        0 <= k < buff.len() ==> (#[trigger] buff[k]).0 == x_min + k % spec_extent(x_min, x_max) && buff[k].1 == y_min
            + k / spec_extent(x_min, x_max)
}

/// Every entry of a tile layout is a pixel of the tile.
pub proof fn lemma_layout_in_tile(
    buff: Seq<(usize, usize, Vec3)>,
    x_min: usize,
    x_max: usize,
    y_min: usize,
    y_max: usize,
    k: int,
)
    requires
        is_tile_layout(buff, x_min, x_max, y_min, y_max),
        0 <= k < buff.len(),
    ensures
        x_min <= buff[k].0 < x_max,
        y_min <= buff[k].1 < y_max,
{
    let w = spec_extent(x_min, x_max);
    let h = spec_extent(y_min, y_max);
    assert(w > 0 && h > 0) by (nonlinear_arith)
        requires
            0 <= k < w * h,
            w >= 0,
            h >= 0,
    ;
    vstd::arithmetic::div_mod::lemma_fundamental_div_mod(k, w);
    assert(0 <= k / w < h) by (nonlinear_arith)
        requires
            k == w * (k / w) + k % w,
            0 <= k % w < w,
            0 <= k < w * h,
            w > 0,
    ;
}
} // verus!
