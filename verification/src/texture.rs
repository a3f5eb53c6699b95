//! Textures: colour as a function of surface coordinates and position.
use std::sync::Arc;
use vstd::prelude::*;
use crate::error::SceneError;
use crate::fixed::{Fixed, ONE, HALF, fadd, fsub, fmul, fdiv, from_int, floor_int,
    spec_fadd, spec_fsub, spec_fmul, spec_fdiv, spec_from_int, spec_floor_int};
use crate::perlin::{perlin, is_index_table};
use crate::raytracer::Sampler;
use crate::trig::{fsin, spec_fsin};
use crate::vec3::Vec3;

verus! {

/// The real number 10.
pub const TEN: i64 = 0xa00_0000;

/// The number of octaves a noise texture sums.
pub const TURBULENCE_DEPTH: i32 = 7;

/// One colour everywhere.
#[derive(Debug, PartialEq)]
pub struct solid_color {
    pub albedo: Vec3,
}

/// A three-dimensional checker pattern of two textures.
#[derive(Debug, PartialEq)]
pub struct checker_texture {
    pub inv_scale: Fixed,
    pub even: Arc<texture>,
    pub odd: Arc<texture>,
}

/// An image of `width * height` pixels, three bytes each, row by row.
#[derive(Debug, PartialEq)]
pub struct image_texture {
    pub data: Vec<u8>,
    pub width: u32,
    pub height: u32,
    pub bytes_per_pixel: u32,
    pub bytes_per_scanline: usize,
}

/// Marble-like noise.
#[derive(Debug, PartialEq)]
pub struct noise_texture {
    pub noise: perlin,
    pub scale: Fixed,
}

#[derive(Debug, PartialEq)]
pub enum texture {
    Solid(solid_color),
    Checker(checker_texture),
    Image(image_texture),
    Noise(noise_texture),
}

impl solid_color {
    /// The texture of the one colour `c`.
    pub open spec fn spec_new(c: Vec3) -> solid_color {
        solid_color { albedo: c }
    }

    /// The texture of the one colour `c`.
    #[verifier::when_used_as_spec(spec_new)]
    pub fn new(c: Vec3) -> (t: solid_color)
        ensures
            t == Self::spec_new(c),
    {
        solid_color { albedo: c }
    }

    /// The texture of the one colour `(r, g, b)`.
    pub open spec fn spec_new_from_rgb(r: i64, g: i64, b: i64) -> solid_color {
        solid_color { albedo: Vec3 { x: r, y: g, z: b } }
    }

    /// The texture of the one colour `(r, g, b)`.
    #[verifier::when_used_as_spec(spec_new_from_rgb)]
    pub fn new_from_rgb(r: Fixed, g: Fixed, b: Fixed) -> (t: solid_color)
        ensures
            t == Self::spec_new_from_rgb(r, g, b),
    {
        solid_color { albedo: Vec3::new(r, g, b) }
    }

    /// The colour, whatever the coordinates.
    pub open spec fn spec_value(&self, u: i64, v: i64, p: &Vec3) -> Vec3 {
        self.albedo
    }

    /// The colour, whatever the coordinates.
    #[verifier::when_used_as_spec(spec_value)]
    pub fn value(&self, u: Fixed, v: Fixed, p: &Vec3) -> (c: Vec3)
        ensures
            c == self.albedo,
    {
        self.albedo
    }
}

/// Whether the cell of the checker pattern that holds `p` is an even one:
/// the whole parts of the three scaled coordinates add up to an even number.
pub open spec fn spec_is_even_cell(inv_scale: i64, p: &Vec3) -> bool {
    (floor_int(fmul(inv_scale, p.x)) + floor_int(fmul(inv_scale, p.y)) + floor_int(fmul(inv_scale, p.z))) % 2 == 0
}

/// Whether the cell of the checker pattern that holds `p` is an even one:
/// the whole parts of the three scaled coordinates add up to an even number.
#[verifier::when_used_as_spec(spec_is_even_cell)]
pub fn is_even_cell(inv_scale: Fixed, p: &Vec3) -> (b: bool)
    ensures
        b == spec_is_even_cell(inv_scale, p),
{
    let xinteger: i64 = floor_int(fmul(inv_scale, p.x));
    let yinteger: i64 = floor_int(fmul(inv_scale, p.y));
    let zinteger: i64 = floor_int(fmul(inv_scale, p.z));
    let shifted: u64 = (xinteger + yinteger + zinteger + 0x400_0000_0000) as u64;
    shifted % 2 == 0
}

impl checker_texture {
    /// Whether everything inside is well formed.
    pub open spec fn wf(&self) -> bool
        decreases self,
    {
        self.even.wf() && self.odd.wf()
    }

    /// Tests `wf`.
    pub fn is_well_formed(&self) -> (ok: bool)
        ensures
            ok == self.wf(),
        decreases self,
    {
        self.even.is_well_formed() && self.odd.is_well_formed()
    }

    /// The texture of the one colour `c`.
    pub open spec fn spec_new(scale: i64, even: Arc<texture>, odd: Arc<texture>) -> checker_texture {
        checker_texture { inv_scale: fdiv(ONE, scale), even, odd }
    }

    /// A checker pattern whose cells are `scale` wide.
    #[verifier::when_used_as_spec(spec_new)]
    pub fn new(scale: Fixed, even: Arc<texture>, odd: Arc<texture>) -> (t: checker_texture)
        ensures
            t == Self::spec_new(scale, even, odd),
    {
        checker_texture { inv_scale: fdiv(ONE, scale), even, odd }
    }

    /// A checker pattern of two colours: `c1` on the even cells.
    pub open spec fn spec_new_from_colors(scale: i64, c1: Vec3, c2: Vec3) -> checker_texture {
        checker_texture {
            inv_scale: fdiv(ONE, scale),
            even: Arc::new(texture::Solid(solid_color::new(c1))),
            odd: Arc::new(texture::Solid(solid_color::new(c2))),
        }
    }

    /// A checker pattern of two colours: `c1` on the even cells.
    #[verifier::when_used_as_spec(spec_new_from_colors)]
    pub fn new_from_colors(scale: Fixed, c1: Vec3, c2: Vec3) -> (t: checker_texture)
        ensures
            t == Self::spec_new_from_colors(scale, c1, c2),
            t.wf(),
    {
        checker_texture {
            inv_scale: fdiv(ONE, scale),
            even: Arc::new(texture::Solid(solid_color::new(c1))),
            odd: Arc::new(texture::Solid(solid_color::new(c2))),
        }
    }

    /// The value of the even texture on even cells, of the odd one on the
    /// others.
    pub open spec fn spec_value(&self, u: i64, v: i64, p: &Vec3) -> Vec3
        decreases self,
    {
        if is_even_cell(self.inv_scale, p) {
            self.even.spec_value(u, v, p)
        } else {
            self.odd.spec_value(u, v, p)
        }
    }

    /// The colour at surface coordinates `(u, v)` and position `p`.
    pub fn value(&self, u: Fixed, v: Fixed, p: &Vec3) -> (c: Vec3)
        requires
            self.wf(),
        ensures
            c == self.spec_value(u, v, p),
        decreases self,
    {
        if is_even_cell(self.inv_scale, p) {
            self.even.value(u, v, p)
        } else {
            self.odd.value(u, v, p)
        }
    }
}

/// A pixel coordinate: the whole part of `s * extent`, moved into
/// `0..extent`.
pub open spec fn spec_pixel_coord(s: i64, extent: u32) -> usize {
    let raw = floor_int(fmul(s, from_int(extent as i64)));
    if raw < 0 {
        0
    } else if raw >= extent {
        (extent - 1) as usize
    } else {
        raw as usize
    }
}

/// A pixel coordinate: the whole part of `s * extent`, moved into
/// `0..extent`.
#[verifier::when_used_as_spec(spec_pixel_coord)]
pub fn pixel_coord(s: Fixed, extent: u32) -> (c: usize)
    requires
        extent > 0,
    ensures
        c == spec_pixel_coord(s, extent),
        c < extent,
{
    let raw: i64 = floor_int(fmul(s, from_int(extent as i64)));
    if raw < 0 {
        0
    } else if raw >= extent as i64 {
        (extent - 1) as usize
    } else {
        raw as usize
    }
}

/// A colour channel: the byte divided by 255.
pub open spec fn spec_channel(byte: u8) -> i64 {
    fdiv(from_int(byte as i64), from_int(255))
}

/// A colour channel: the byte divided by 255.
#[verifier::when_used_as_spec(spec_channel)]
pub fn channel(byte: u8) -> (c: Fixed)
    ensures
        c == spec_channel(byte),
{
    fdiv(from_int(byte as i64), from_int(255))
}

impl image_texture {
    /// Whether the buffer holds three bytes for each pixel and the strides
    /// agree with the width.
    pub open spec fn wf(&self) -> bool {
        &&& self.data@.len() == 3 * self.width * self.height
        &&& self.bytes_per_pixel == 3
        &&& self.bytes_per_scanline == 3 * self.width
    }

    /// Tests `wf`.
    pub fn is_well_formed(&self) -> (ok: bool)
        ensures
            ok == self.wf(),
    {
        let row: u64 = 3 * (self.width as u64);
        assert(row * self.height <= 0x3_0000_0000 * 0x1_0000_0000) by (nonlinear_arith)
            requires
                row <= 0x3_0000_0000,
                self.height <= 0x1_0000_0000,
        ;
        assert(3 * self.width * self.height == row * self.height) by (nonlinear_arith)
            requires
                row == 3 * self.width,
        ;
        let total: u128 = (row as u128) * (self.height as u128);
        self.data.len() as u128 == total && self.bytes_per_pixel == 3 && self.bytes_per_scanline as u64 == row
    }

    /// An image from its decoded pixels: `data` holds `height` rows of
    /// `width` pixels, each pixel as its red, green and blue byte. A buffer
    /// of any other length is refused.
    pub fn new(data: Vec<u8>, width: u32, height: u32) -> (r: Result<image_texture, SceneError>)
        ensures
            data@.len() == 3 * width * height && 3 * width <= usize::MAX <==> r is Ok,
            r matches Ok(t) ==> t.wf() && t.data@ == data@ && t.width == width && t.height == height,
            r matches Err(e) ==> e == SceneError::ImageSize,
    {
        let row: u64 = 3 * (width as u64);
        assert(row * height <= 0x3_0000_0000 * 0x1_0000_0000) by (nonlinear_arith)
            requires
                row <= 0x3_0000_0000,
                height <= 0x1_0000_0000,
        ;
        let total: u128 = (row as u128) * (height as u128);
        if data.len() as u128 != total || row > usize::MAX as u64 {
            return Err(SceneError::ImageSize);
        }
        assert(3 * width * height == row * height) by (nonlinear_arith)
            requires
                row == 3 * width,
        ;
        Ok(image_texture { data, width, height, bytes_per_pixel: 3, bytes_per_scanline: row as usize })
    }

    /// The offset of the pixel that `(u, v)` selects: column
    /// `pixel_coord(u, width)`, row `pixel_coord(1 - v, height)`.
    pub open spec fn spec_pixel_index(&self, u: i64, v: i64) -> int {
        self.bytes_per_pixel * pixel_coord(u, self.width) + self.bytes_per_scanline * pixel_coord(
            fsub(ONE, v),
            self.height,
        )
    }

    /// The colour of the pixel that `(u, v)` selects, with `v` counted from
    /// the bottom row; cyan for an image without pixels.
    #[verifier::opaque]
    pub open spec fn spec_value(&self, u: i64, v: i64, p: &Vec3) -> Vec3 {
        if self.data@.len() == 0 {
            Vec3 { x: 0, y: ONE, z: ONE }
        } else {
            let at = self.spec_pixel_index(u, v);
            Vec3 { x: channel(self.data@[at]), y: channel(self.data@[at + 1]), z: channel(self.data@[at + 2]) }
        }
    }

    /// The colour at surface coordinates `(u, v)` and position `p`.
    pub fn value(&self, u: Fixed, v: Fixed, p: &Vec3) -> (c: Vec3)
        requires
            self.wf(),
        ensures
            c == self.spec_value(u, v, p),
    {
        proof {
            reveal(image_texture::spec_value);
        }
        if self.data.is_empty() {
            return Vec3::new(0, ONE, ONE);
        }
        assert(self.width > 0 && self.height > 0) by (nonlinear_arith)
            requires
                3 * self.width * self.height > 0,
        ;
        let i: usize = pixel_coord(u, self.width);
        let j: usize = pixel_coord(fsub(ONE, v), self.height);
        let stride: usize = self.bytes_per_scanline;
        let total: usize = self.data.len();
        assert(stride * j >= 0 && 3 * i + stride * j + 3 <= stride * self.height) by (nonlinear_arith)
            requires
                stride == 3 * self.width,
                i < self.width,
                j < self.height,
        ;
        assert(stride * self.height == 3 * self.width * self.height) by (nonlinear_arith)
            requires
                stride == 3 * self.width,
        ;
        assert(3 * i + stride * j + 3 <= total);
        let pixel_index: usize = 3 * i + stride * j;
        Vec3::new(
            channel(self.data[pixel_index]),
            channel(self.data[pixel_index + 1]),
            channel(self.data[pixel_index + 2]),
        )
    }
}

impl noise_texture {
    /// Whether everything inside is well formed.
    pub open spec fn wf(&self) -> bool {
        self.noise.wf()
    }

    /// Tests `wf`.
    pub fn is_well_formed(&self) -> (ok: bool)
        ensures
            ok == self.wf(),
    {
        self.noise.is_well_formed()
    }

    /// Noise of unit frequency, with random gradients and index tables.
    pub fn new(rng: &mut Sampler) -> (t: noise_texture)
        ensures
            t.wf(),
            t.scale == ONE,
            is_index_table(t.noise.perm_x@) && is_index_table(t.noise.perm_y@) && is_index_table(t.noise.perm_z@),
            forall|i: int| 0 <= i < t.noise.randvec@.len() ==> perlin::is_gradient(#[trigger] t.noise.randvec@[i]),
    {
        noise_texture { noise: perlin::new(rng), scale: ONE }
    }

    /// Noise of frequency `scale`, with random gradients and index tables.
    pub fn new_with_scale(scale: Fixed, rng: &mut Sampler) -> (t: noise_texture)
        ensures
            t.wf(),
            t.scale == scale,
            is_index_table(t.noise.perm_x@) && is_index_table(t.noise.perm_y@) && is_index_table(t.noise.perm_z@),
            forall|i: int| 0 <= i < t.noise.randvec@.len() ==> perlin::is_gradient(#[trigger] t.noise.randvec@[i]),
    {
        noise_texture { noise: perlin::new(rng), scale }
    }

    /// Grey of brightness `(1 + sin(scale * p.z + 10 * turbulence(p))) / 2`.
    #[verifier::opaque]
    pub open spec fn spec_value(&self, u: i64, v: i64, p: &Vec3) -> Vec3 {
        (Vec3 { x: HALF, y: HALF, z: HALF }).scale(
            fadd(ONE, fsin(fadd(fmul(self.scale, p.z), fmul(TEN, self.noise.spec_turb(p, TURBULENCE_DEPTH))))),
        )
    }

    /// The colour at surface coordinates `(u, v)` and position `p`.
    pub fn value(&self, u: Fixed, v: Fixed, p: &Vec3) -> (c: Vec3)
        requires
            self.wf(),
        ensures
            c == self.spec_value(u, v, p),
    {
        proof {
            reveal(noise_texture::spec_value);
        }
        Vec3::new(HALF, HALF, HALF).scale(
            fadd(ONE, fsin(fadd(fmul(self.scale, p.z), fmul(TEN, self.noise.turb(p, TURBULENCE_DEPTH))))),
        )
    }
}

impl texture {
    /// Whether every image and every noise table inside is well formed.
    pub open spec fn wf(&self) -> bool
        decreases self,
    {
        match self {
            texture::Solid(_) => true,
            texture::Checker(t) => t.wf(),
            texture::Image(t) => t.wf(),
            texture::Noise(t) => t.wf(),
        }
    }

    /// Tests `wf`.
    pub fn is_well_formed(&self) -> (ok: bool)
        ensures
            ok == self.wf(),
        decreases self,
    {
        match self {
            texture::Solid(_) => true,
            texture::Checker(t) => t.is_well_formed(),
            texture::Image(t) => t.is_well_formed(),
            texture::Noise(t) => t.is_well_formed(),
        }
    }

    /// The colour at surface coordinates `(u, v)` and position `p`.
    pub open spec fn spec_value(&self, u: i64, v: i64, p: &Vec3) -> Vec3
        decreases self,
    {
        match self {
            texture::Solid(t) => t.spec_value(u, v, p),
            texture::Checker(t) => t.spec_value(u, v, p),
            texture::Image(t) => t.spec_value(u, v, p),
            texture::Noise(t) => t.spec_value(u, v, p),
        }
    }

    /// The colour at surface coordinates `(u, v)` and position `p`.
    pub fn value(&self, u: Fixed, v: Fixed, p: &Vec3) -> (c: Vec3)
        requires
            self.wf(),
        ensures
            c == self.spec_value(u, v, p),
        decreases self,
    {
        match self {
            texture::Solid(t) => t.value(u, v, p),
            texture::Checker(t) => t.value(u, v, p),
            texture::Image(t) => t.value(u, v, p),
            texture::Noise(t) => t.value(u, v, p),
        }
    }
}
} // verus!
