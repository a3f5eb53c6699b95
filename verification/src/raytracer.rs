//! Constants, angle conversion and the random source.
use vstd::prelude::*;
use crate::fixed::{Fixed, ONE, fadd, fsub, fmul, fdiv, from_int, spec_fadd, spec_fsub, spec_fmul, spec_fdiv, spec_from_int};

verus! {

/// The largest fixed-point value, used as an unbounded upper limit.
pub const infinity: i64 = 0x7fff_ffff_ffff_ffff;

/// The circle constant, rounded to the nearest unit.
pub const pi: i64 = 52707179;

#[verifier::external_type_specification]
#[verifier::external_body]
pub struct ExStdRng(rand::rngs::StdRng);

/// The random source that sampling functions draw from. Each render worker
/// owns one.
pub struct Sampler {
    rng: rand::rngs::StdRng,
}

/// `SeedableRng::seed_from_u64` for `StdRng`: builds a generator from a
/// 64-bit seed. Nothing is claimed of the generator.
#[verifier::external_body]
fn rng_from_seed(seed: u64) -> (rng: rand::rngs::StdRng) {
    rand::SeedableRng::seed_from_u64(seed)
}

/// `RngCore::next_u32`: the generator's next 32-bit word. Nothing is claimed
/// of the word beyond its type.
#[verifier::external_body]
fn rng_next_u32(rng: &mut rand::rngs::StdRng) -> (word: u32) {
    rand::RngCore::next_u32(rng)
}

/// `Rng::gen_range` over the inclusive range `min..=max`: the result lies in
/// the range. The call panics on an empty range, which `requires` excludes.
#[verifier::external_body]
fn rng_gen_range(rng: &mut rand::rngs::StdRng, min: usize, max: usize) -> (r: usize)
    requires
        min <= max,
    ensures
        min <= r <= max,
{
    rand::Rng::gen_range(rng, min..=max)
}

impl Sampler {
    /// A random source seeded with `seed`.
    pub fn new(seed: u64) -> (s: Sampler) {
        Sampler { rng: rng_from_seed(seed) }
    }

    /// The next 32-bit word of the source.
    pub fn next_word(&mut self) -> (word: u32) {
        rng_next_u32(&mut self.rng)
    }
}

/// The top 24 bits of a random word, as a fixed-point value in [0, 1).
pub open spec fn spec_unit_from_word(word: u32) -> i64 {
    (word / 256) as i64
}

/// Turns a 32-bit word into a fixed-point value in [0, 1) by keeping its top
/// 24 bits.
#[verifier::when_used_as_spec(spec_unit_from_word)]
pub fn unit_from_word(word: u32) -> (r: Fixed)
    ensures
        r == spec_unit_from_word(word),
        0 <= r < ONE,
{
    let top: u32 = word / 256;
    top as i64
}

/// The angle of `degrees` degrees in radians: `degrees * pi / 180`.
pub open spec fn spec_degrees_to_radians(degrees: i64) -> i64 {
    fdiv(fmul(degrees, pi), from_int(180))
}

/// Converts an angle in degrees to radians: `degrees * pi / 180`.
#[verifier::when_used_as_spec(spec_degrees_to_radians)]
pub fn degrees_to_radians(degrees: Fixed) -> (r: Fixed)
    ensures
        r == spec_degrees_to_radians(degrees),
{
    fdiv(fmul(degrees, pi), from_int(180))
}

/// A random real in [0, 1).
pub fn random_double(rng: &mut Sampler) -> (r: Fixed)
    ensures
        0 <= r < ONE,
{
    let word: u32 = rng.next_word();
    unit_from_word(word)
}

/// The point of `[min, max)` that the unit sample `s` selects:
/// `min + (max - min) * s`.
pub open spec fn spec_range_point(min: i64, max: i64, s: i64) -> i64 {
    fadd(min, fmul(fsub(max, min), s))
}

/// The point of `[min, max)` that the unit sample `s` selects:
/// `min + (max - min) * s`.
#[verifier::when_used_as_spec(spec_range_point)]
pub fn range_point(min: Fixed, max: Fixed, s: Fixed) -> (r: Fixed)
    ensures
        r == spec_range_point(min, max, s),
{
    fadd(min, fmul(fsub(max, min), s))
}

/// A random real in [min, max): `range_point` of a unit sample.
pub fn random_double_range(min: Fixed, max: Fixed, rng: &mut Sampler) -> (r: Fixed)
    ensures
        exists|s: i64| 0 <= s < ONE && r == range_point(min, max, s),
{
    let s: i64 = random_double(rng);
    range_point(min, max, s)
}

/// A random integer in `min..=max`.
pub fn random_int_range(min: usize, max: usize, rng: &mut Sampler) -> (r: usize)
    requires
        min <= max,
    ensures
        min <= r <= max,
{
    rng_gen_range(&mut rng.rng, min, max)
}
} // verus!
