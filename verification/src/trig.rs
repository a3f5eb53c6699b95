//! Elementary functions over fixed-point reals.
//!
//! Each function is a fixed polynomial after a range reduction; its contract
//! states that polynomial. The sine and cosine are clamped to [-1, 1].
use vstd::prelude::*;
use crate::fixed::{Fixed, ONE, TWO, INF, NEG_INF, fadd, fsub, fmul, fdiv, fneg, fabs, fsqrt, from_int, floor_int,
    spec_fadd, spec_fsub, spec_fmul, spec_fdiv, spec_fneg, spec_fabs, spec_fsqrt, spec_from_int, spec_floor_int};

verus! {

pub const PI: i64 = 52707179;

pub const TWO_PI: i64 = 105414357;

pub const HALF_PI: i64 = 26353589;

/// The natural logarithm of 2.
pub const LN2: i64 = 11629080;

/// Coefficients of the arctangent polynomial, lowest degree first.
pub const ATAN_C1: i64 = 16777205;

pub const ATAN_C3: i64 = -5591822;

pub const ATAN_C5: i64 = 3346473;

pub const ATAN_C7: i64 = -2333465;

pub const ATAN_C9: i64 = 1617660;

pub const ATAN_C11: i64 = -938012;

pub const ATAN_C13: i64 = 366771;

pub const ATAN_C15: i64 = -68016;

/// Clamps `v` into [-1, 1].
pub open spec fn spec_clamp_unit(v: i64) -> i64 {
    if v > ONE {
        ONE
    } else if v < -ONE {
        (-ONE) as i64
    } else {
        v
    }
}

/// Clamps `v` into [-1, 1].
#[verifier::when_used_as_spec(spec_clamp_unit)]
pub fn clamp_unit(v: Fixed) -> (r: Fixed)
    ensures
        r == spec_clamp_unit(v),
        -ONE <= r <= ONE,
{
    if v > ONE {
        ONE
    } else if v < -ONE {
        -ONE
    } else {
        v
    }
}

/// The angle `x` brought into [-pi/2, pi/2] without changing its sine: first
/// shifted by whole turns into [-pi, pi), then mirrored at ±pi/2.
pub open spec fn spec_reduce_angle(x: i64) -> i64 {
    let k = floor_int(fdiv(fadd(x, PI), TWO_PI));
    let y = fsub(x, fmul(from_int(k), TWO_PI));
    if y > HALF_PI {
        fsub(PI, y)
    } else if y < -HALF_PI {
        fsub((-PI) as i64, y)
    } else {
        y
    }
}

/// The angle `x` brought into [-pi/2, pi/2] without changing its sine: first
/// shifted by whole turns into [-pi, pi), then mirrored at ±pi/2.
#[verifier::when_used_as_spec(spec_reduce_angle)]
pub fn reduce_angle(x: Fixed) -> (r: Fixed)
    ensures
        r == spec_reduce_angle(x),
{
    let k: i64 = floor_int(fdiv(fadd(x, PI), TWO_PI));
    let y: i64 = fsub(x, fmul(from_int(k), TWO_PI));
    if y > HALF_PI {
        fsub(PI, y)
    } else if y < -HALF_PI {
        fsub(-PI, y)
    } else {
        y
    }
}

/// One Horner step of the sine series: `1 - (y2 / d) * p`.
pub open spec fn spec_sin_step(y2: i64, d: i64, p: i64) -> i64 {
    fsub(ONE, fmul(fdiv(y2, from_int(d)), p))
}

/// One Horner step of the sine series: `1 - (y2 / d) * p`.
#[verifier::when_used_as_spec(spec_sin_step)]
pub fn sin_step(y2: Fixed, d: i64, p: Fixed) -> (r: Fixed)
    ensures
        r == spec_sin_step(y2, d, p),
{
    fsub(ONE, fmul(fdiv(y2, from_int(d)), p))
}

/// The sine of `x` radians: the Taylor polynomial of degree 11 at the reduced
/// angle, clamped to [-1, 1].
pub open spec fn spec_fsin(x: i64) -> i64 {
    let y = reduce_angle(x);
    let y2 = fmul(y, y);
    let p = sin_step(y2, 6, sin_step(y2, 20, sin_step(y2, 42, sin_step(y2, 72, sin_step(y2, 110, ONE)))));
    clamp_unit(fmul(y, p))
}

/// The sine of `x` radians: the Taylor polynomial of degree 11 at the reduced
/// angle, clamped to [-1, 1].
#[verifier::when_used_as_spec(spec_fsin)]
pub fn fsin(x: Fixed) -> (r: Fixed)
    ensures
        r == spec_fsin(x),
        -ONE <= r <= ONE,
{
    let y: i64 = reduce_angle(x);
    let y2: i64 = fmul(y, y);
    let p: i64 = sin_step(y2, 6, sin_step(y2, 20, sin_step(y2, 42, sin_step(y2, 72, sin_step(y2, 110, ONE)))));
    clamp_unit(fmul(y, p))
}

/// The cosine of `x` radians: the sine of `x + pi/2`.
pub open spec fn spec_fcos(x: i64) -> i64 {
    fsin(fadd(x, HALF_PI))
}

/// The cosine of `x` radians: the sine of `x + pi/2`.
#[verifier::when_used_as_spec(spec_fcos)]
pub fn fcos(x: Fixed) -> (r: Fixed)
    ensures
        r == spec_fcos(x),
        -ONE <= r <= ONE,
{
    fsin(fadd(x, HALF_PI))
}

/// The tangent of `x` radians: sine over cosine.
pub open spec fn spec_ftan(x: i64) -> i64 {
    fdiv(fsin(x), fcos(x))
}

/// The tangent of `x` radians: sine over cosine.
#[verifier::when_used_as_spec(spec_ftan)]
pub fn ftan(x: Fixed) -> (r: Fixed)
    ensures
        r == spec_ftan(x),
{
    fdiv(fsin(x), fcos(x))
}

/// One Horner step of the arctangent polynomial: `c + z2 * p`.
pub open spec fn spec_atan_step(z2: i64, c: i64, p: i64) -> i64 {
    fadd(c, fmul(z2, p))
}

/// One Horner step of the arctangent polynomial: `c + z2 * p`.
#[verifier::when_used_as_spec(spec_atan_step)]
pub fn atan_step(z2: Fixed, c: Fixed, p: Fixed) -> (r: Fixed)
    ensures
        r == spec_atan_step(z2, c, p),
{
    fadd(c, fmul(z2, p))
}

/// The arctangent of `z` for `z` in [0, 1]: an odd polynomial of degree 15.
pub open spec fn spec_atan_unit(z: i64) -> i64 {
    let z2 = fmul(z, z);
    let p = atan_step(z2, ATAN_C1,
        atan_step(z2, ATAN_C3,
        atan_step(z2, ATAN_C5,
        atan_step(z2, ATAN_C7,
        atan_step(z2, ATAN_C9,
        atan_step(z2, ATAN_C11,
        atan_step(z2, ATAN_C13, ATAN_C15)))))));
    fmul(z, p)
}

/// The arctangent of `z` for `z` in [0, 1]: an odd polynomial of degree 15.
#[verifier::when_used_as_spec(spec_atan_unit)]
pub fn atan_unit(z: Fixed) -> (r: Fixed)
    ensures
        r == spec_atan_unit(z),
{
    let z2: i64 = fmul(z, z);
    let p: i64 = atan_step(z2, ATAN_C1,
        atan_step(z2, ATAN_C3,
        atan_step(z2, ATAN_C5,
        atan_step(z2, ATAN_C7,
        atan_step(z2, ATAN_C9,
        atan_step(z2, ATAN_C11,
        atan_step(z2, ATAN_C13, ATAN_C15)))))));
    fmul(z, p)
}

/// The angle of the point `(x, y)` in (-pi, pi], and `0` at the origin. The
/// smaller magnitude is divided by the larger, so that the polynomial is only
/// used on [0, 1]; the quadrant is restored from the signs.
pub open spec fn spec_fatan2(y: i64, x: i64) -> i64 {
    if x == 0 && y == 0 {
        0
    } else {
        let ax = fabs(x);
        let ay = fabs(y);
        let a = if ax >= ay {
            atan_unit(fdiv(ay, ax))
        } else {
            fsub(HALF_PI, atan_unit(fdiv(ax, ay)))
        };
        let b = if x < 0 {
            fsub(PI, a)
        } else {
            a
        };
        if y < 0 {
            fneg(b)
        } else {
            b
        }
    }
}

/// The angle of the point `(x, y)` in (-pi, pi], and `0` at the origin. The
/// smaller magnitude is divided by the larger, so that the polynomial is only
/// used on [0, 1]; the quadrant is restored from the signs.
#[verifier::when_used_as_spec(spec_fatan2)]
pub fn fatan2(y: Fixed, x: Fixed) -> (r: Fixed)
    ensures
        r == spec_fatan2(y, x),
{
    if x == 0 && y == 0 {
        0
    } else {
        let ax: i64 = fabs(x);
        let ay: i64 = fabs(y);
        let a: i64 = if ax >= ay {
            atan_unit(fdiv(ay, ax))
        } else {
            fsub(HALF_PI, atan_unit(fdiv(ax, ay)))
        };
        let b: i64 = if x < 0 {
            fsub(PI, a)
        } else {
            a
        };
        if y < 0 {
            fneg(b)
        } else {
            b
        }
    }
}

/// The arccosine of `v` clamped to [-1, 1]: the angle of the point
/// `(v, sqrt(1 - v^2))`.
pub open spec fn spec_facos(v: i64) -> i64 {
    let c = clamp_unit(v);
    fatan2(fsqrt(fsub(ONE, fmul(c, c))), c)
}

/// The arccosine of `v` clamped to [-1, 1]: the angle of the point
/// `(v, sqrt(1 - v^2))`.
#[verifier::when_used_as_spec(spec_facos)]
pub fn facos(v: Fixed) -> (r: Fixed)
    ensures
        r == spec_facos(v),
{
    let c: i64 = clamp_unit(v);
    fatan2(fsqrt(fsub(ONE, fmul(c, c))), c)
}

/// Halves `m` until it is below 2, counting the halvings in `e`.
pub open spec fn halve_below_two(m: i64, e: i64) -> (i64, i64)
    decreases m,
{
    if m >= TWO && e < 64 {
        halve_below_two((m / 2) as i64, (e + 1) as i64)
    } else {
        (m, e)
    }
}

/// Doubles `m` until it is at least 1, counting the doublings in `e`.
pub open spec fn double_to_one(m: i64, e: i64) -> (i64, i64)
    decreases e + 64,
{
    if 0 < m < ONE && e > -64 {
        double_to_one((m * 2) as i64, (e - 1) as i64)
    } else {
        (m, e)
    }
}

/// Writes a positive `x` as `m * 2^e` with `m` in [1, 2).
pub open spec fn spec_split_power(x: i64) -> (i64, i64) {
    if x >= TWO {
        halve_below_two(x, 0)
    } else {
        double_to_one(x, 0)
    }
}

/// Writes a positive `x` as `m * 2^e` with `m` in [1, 2).
pub fn split_power(x: Fixed) -> (r: (Fixed, i64))
    ensures
        r == spec_split_power(x),
        -64 <= r.1 <= 64,
{
    let mut m: i64 = x;
    let mut e: i64 = 0;
    if x >= TWO {
        while m >= TWO && e < 64
            invariant
                0 <= e <= 64,
                halve_below_two(m, e) == halve_below_two(x, 0),
            decreases m,
        {
            m = m / 2;
            e = e + 1;
        }
    } else {
        while 0 < m && m < ONE && e > -64
            invariant
                -64 <= e <= 0,
                double_to_one(m, e) == double_to_one(x, 0),
            decreases e + 64,
        {
            m = m * 2;
            e = e - 1;
        }
    }
    (m, e)
}

/// One Horner step of the logarithm series: `1 / d + s2 * p`.
pub open spec fn spec_ln_step(s2: i64, d: i64, p: i64) -> i64 {
    fadd(fdiv(ONE, from_int(d)), fmul(s2, p))
}

/// One Horner step of the logarithm series: `1 / d + s2 * p`.
#[verifier::when_used_as_spec(spec_ln_step)]
pub fn ln_step(s2: Fixed, d: i64, p: Fixed) -> (r: Fixed)
    ensures
        r == spec_ln_step(s2, d, p),
{
    fadd(fdiv(ONE, from_int(d)), fmul(s2, p))
}

/// The natural logarithm of `x`, and `NEG_INF` for `x <= 0`. With
/// `x = m * 2^e` and `s = (m - 1) / (m + 1)`, the result is
/// `e * ln 2 + 2 * (s + s^3 / 3 + ... + s^11 / 11)`.
pub open spec fn spec_fln(x: i64) -> i64 {
    if x <= 0 {
        NEG_INF
    } else {
        let (m, e) = spec_split_power(x);
        let s = fdiv(fsub(m, ONE), fadd(m, ONE));
        let s2 = fmul(s, s);
        let p = ln_step(s2, 1, ln_step(s2, 3, ln_step(s2, 5, ln_step(s2, 7, ln_step(s2, 9, fdiv(ONE, from_int(11)))))));
        fadd(fmul(from_int(e), LN2), fmul(TWO, fmul(s, p)))
    }
}

/// The natural logarithm of `x`, and `NEG_INF` for `x <= 0`. With
/// `x = m * 2^e` and `s = (m - 1) / (m + 1)`, the result is
/// `e * ln 2 + 2 * (s + s^3 / 3 + ... + s^11 / 11)`.
#[verifier::when_used_as_spec(spec_fln)]
pub fn fln(x: Fixed) -> (r: Fixed)
    ensures
        r == spec_fln(x),
{
    if x <= 0 {
        NEG_INF
    } else {
        let (m, e) = split_power(x);
        let s: i64 = fdiv(fsub(m, ONE), fadd(m, ONE));
        let s2: i64 = fmul(s, s);
        let p: i64 = ln_step(s2, 1, ln_step(s2, 3, ln_step(s2, 5, ln_step(s2, 7, ln_step(s2, 9, fdiv(ONE, from_int(11)))))));
        fadd(fmul(from_int(e), LN2), fmul(TWO, fmul(s, p)))
    }
}
} // verus!
