//! From linear colour to bytes of an image.
use vstd::prelude::*;
use crate::fixed::{Fixed, ONE, fsqrt, spec_fsqrt};
use crate::interval::Interval;
use crate::vec3::Vec3;

verus! {

/// The brightest intensity that is written, just below 1 (0.999).
pub const MAX_INTENSITY: i64 = 16760439;

/// An image of `width * height` pixels, row by row from the top, each pixel
/// as its red, green and blue byte.
#[derive(Debug, PartialEq, Eq)]
pub struct Image {
    pub width: usize,
    pub height: usize,
    pub data: Vec<u8>,
}

/// The gamma-2 tone curve: the square root of a linear component, and 0 for
/// a negative one.
pub open spec fn spec_linear_to_gamma_corrected(linear_component: i64) -> i64 {
    if linear_component < 0 {
        0
    } else {
        fsqrt(linear_component)
    }
}

/// The gamma-2 tone curve: the square root of a linear component, and 0 for
/// a negative one.
#[verifier::when_used_as_spec(spec_linear_to_gamma_corrected)]
pub fn linear_to_gamma_corrected(linear_component: Fixed) -> (r: Fixed)
    ensures
        r == spec_linear_to_gamma_corrected(linear_component),
{
    if linear_component < 0 {
        0
    } else {
        fsqrt(linear_component)
    }
}

/// The byte of a linear colour component: the component is gamma
/// corrected, clamped to [0, 0.999], multiplied by 256 and rounded down.
pub open spec fn spec_quantize(c: i64) -> u8 {
    ((256 * (Interval { min: 0, max: MAX_INTENSITY }).clamp(linear_to_gamma_corrected(c))) / (ONE as int)) as u8
}

/// The byte of a linear colour component: the component is gamma
/// corrected, clamped to [0, 0.999], multiplied by 256 and rounded down.
#[verifier::when_used_as_spec(spec_quantize)]
pub fn quantize(c: Fixed) -> (b: u8)
    ensures
        b == spec_quantize(c),
{
    let intensity = Interval::new(0, MAX_INTENSITY);
    let clamped: i64 = intensity.clamp(linear_to_gamma_corrected(c));
    let scaled: i64 = 256 * clamped;
    (scaled / ONE) as u8
}

impl Image {
    /// Whether the buffer holds three bytes for each pixel.
    pub open spec fn wf(&self) -> bool {
        self.data@.len() == 3 * self.width * self.height
    }

    /// The offset of the first byte of pixel `(i, j)`: column `i` of row
    /// `j`.
    pub open spec fn spec_offset(&self, i: usize, j: usize) -> int {
        3 * (j * self.width + i)
    }

    /// The three bytes of pixel `(i, j)`.
    pub open spec fn spec_pixel(&self, i: usize, j: usize) -> (u8, u8, u8) {
        (
            self.data@[self.spec_offset(i, j)],
            self.data@[self.spec_offset(i, j) + 1],
            self.data@[self.spec_offset(i, j) + 2],
        )
    }

    /// Whether the buffer of an image of `width * height` pixels is
    /// addressable.
    pub fn fits(width: usize, height: usize) -> (ok: bool)
        ensures
            ok == (3 * width * height <= usize::MAX),
    {
        assert(width * height <= 0xffff_ffff_ffff_ffff * 0xffff_ffff_ffff_ffff) by (nonlinear_arith)
            requires
                0 <= width <= 0xffff_ffff_ffff_ffff,
                0 <= height <= 0xffff_ffff_ffff_ffff,
        ;
        let pixels: u128 = (width as u128) * (height as u128);
        assert(3 * (width * height) == 3 * width * height) by (nonlinear_arith);
        pixels <= (usize::MAX as u128) / 3
    }

    /// A black image. Its buffer must be addressable.
    pub fn new(width: usize, height: usize) -> (img: Image)
        requires
            3 * width * height <= usize::MAX,
        ensures
            img.wf(),
            img.width == width,
            img.height == height,
            forall|k: int| 0 <= k < img.data@.len() ==> img.data@[k] == 0,
    {
        assert(width * height <= 3 * width * height) by (nonlinear_arith);
        assert(3 * (width * height) == 3 * width * height) by (nonlinear_arith);
        let len: usize = 3 * (width * height);
        let mut data: Vec<u8> = Vec::new();
        let mut k: usize = 0;
        while k < len
            invariant
                k <= len,
                data@.len() == k,
                forall|m: int| 0 <= m < k ==> data@[m] == 0,
            decreases len - k,
        {
            data.push(0);
            k += 1;
        }
        Image { width, height, data }
    }

    /// The three bytes of pixel `(i, j)`.
    pub fn get_pixel(&self, i: usize, j: usize) -> (rgb: [u8; 3])
        requires
            self.wf(),
            i < self.width,
            j < self.height,
        ensures
            (rgb[0], rgb[1], rgb[2]) == self.spec_pixel(i, j),
    {
        let total: usize = self.data.len();
        proof {
            lemma_pixel_in_bounds(self.width, self.height, i, j);
        }
        let at: usize = 3 * (j * self.width + i);
        [self.data[at], self.data[at + 1], self.data[at + 2]]
    }
}

/// The three bytes of a pixel lie inside the buffer.
pub proof fn lemma_pixel_in_bounds(width: usize, height: usize, i: usize, j: usize)
    requires
        i < width,
        j < height,
    ensures
        0 <= j * width <= j * width + i < width * height,
        3 * (j * width + i) + 3 <= 3 * width * height,
{
    assert(j * width + i < width * height) by (nonlinear_arith)
        requires
            i < width,
            j < height,
    ;
    assert(j * width >= 0) by (nonlinear_arith);
    assert(3 * (width * height) == 3 * width * height) by (nonlinear_arith);
}

/// The three bytes of a colour.
pub open spec fn spec_bytes_of(c: Vec3) -> (u8, u8, u8) {
    (quantize(c.x), quantize(c.y), quantize(c.z))
}

/// Different pixels lie at different offsets, three bytes apart at least.
pub proof fn lemma_pixels_apart(width: usize, i: usize, j: usize, x: usize, y: usize)
    requires
        i < width,
        x < width,
        i != x || j != y,
    ensures
        3 * (j * width + i) + 3 <= 3 * (y * width + x) || 3 * (y * width + x) + 3 <= 3 * (j * width + i),
{
    if j < y {
        assert(j * width + i < y * width + x) by (nonlinear_arith)
            requires
                j < y,
                i < width,
                x >= 0,
        ;
    } else if y < j {
        assert(y * width + x < j * width + i) by (nonlinear_arith)
            requires
                y < j,
                x < width,
                i >= 0,
        ;
    }
}

/// Writes the colour `pixel_color` to pixel `(i, j)` of `img`: each
/// component is quantized to a byte, and nothing else changes.
pub fn write_color(pixel_color: Vec3, img: &mut Image, i: usize, j: usize)
    requires
        old(img).wf(),
        i < old(img).width,
        j < old(img).height,
    ensures
        final(img).wf(),
        final(img).width == old(img).width,
        final(img).height == old(img).height,
        final(img).data@ == old(img).data@.update(old(img).spec_offset(i, j), quantize(pixel_color.x)).update(
            old(img).spec_offset(i, j) + 1,
            quantize(pixel_color.y),
        ).update(old(img).spec_offset(i, j) + 2, quantize(pixel_color.z)),
        final(img).spec_pixel(i, j) == spec_bytes_of(pixel_color),
        forall|x: usize, y: usize|
            x < old(img).width && y < old(img).height && (x != i || y != j) ==> #[trigger] final(img).spec_pixel(x, y)
                == old(img).spec_pixel(x, y),
{
    let r: u8 = quantize(pixel_color.x);
    let g: u8 = quantize(pixel_color.y);
    let b: u8 = quantize(pixel_color.z);
    let total: usize = img.data.len();
    proof {
        lemma_pixel_in_bounds(img.width, img.height, i, j);
    }
    let at: usize = 3 * (j * img.width + i);
    img.data.set(at, r);
    img.data.set(at + 1, g);
    img.data.set(at + 2, b);
    proof {
        assert forall|x: usize, y: usize|
            x < old(img).width && y < old(img).height && (x != i || y != j) implies #[trigger] img.spec_pixel(x, y)
            == old(img).spec_pixel(x, y) by {
            lemma_pixels_apart(img.width, i, j, x, y);
            lemma_pixel_in_bounds(img.width, img.height, x, y);
        }
    }
}
} // verus!
