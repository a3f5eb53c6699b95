//! Saturating fixed-point arithmetic with 24 fractional bits.
//!
//! A value `a: Fixed` stands for the real number `a / 2^24`. Results that
//! leave the range are clamped to `INF` or `NEG_INF`, which play the part of
//! the two infinities. Products and quotients round toward zero.
use vstd::prelude::*;

verus! {

/// A real number in units of 2^-24.
pub type Fixed = i64;

/// Number of fractional bits.
pub const FRAC_BITS: u32 = 24;

/// The real number 1.
pub const ONE: i64 = 0x100_0000;

/// The largest value, standing for +infinity.
pub const INF: i64 = 0x7fff_ffff_ffff_ffff;

/// The smallest value that arithmetic produces, standing for -infinity.
pub const NEG_INF: i64 = -0x7fff_ffff_ffff_ffff;

/// The real number 1/2.
pub const HALF: i64 = 0x80_0000;

/// The real number 2.
pub const TWO: i64 = 0x200_0000;

/// Clamps an integer into `[NEG_INF, INF]`.
pub open spec fn sat(x: int) -> i64 {
    if x > INF {
        INF
    } else if x < NEG_INF {
        NEG_INF
    } else {
        x as i64
    }
}

/// The magnitude of an integer.
pub open spec fn mag(x: int) -> nat {
    if x < 0 {
        (-x) as nat
    } else {
        x as nat
    }
}

/// A magnitude with its sign put back.
pub open spec fn with_sign(negative: bool, m: int) -> int {
    if negative {
        -m
    } else {
        m
    }
}

/// The sum `a + b`, clamped.
pub open spec fn spec_fadd(a: i64, b: i64) -> i64 {
    sat(a + b)
}

/// The difference `a - b`, clamped.
pub open spec fn spec_fsub(a: i64, b: i64) -> i64 {
    sat(a - b)
}

/// The negative of `a`, clamped.
pub open spec fn spec_fneg(a: i64) -> i64 {
    sat(-a)
}

/// The magnitude of `a`, clamped.
pub open spec fn spec_fabs(a: i64) -> i64 {
    sat(mag(a as int) as int)
}

/// The product `a * b / 2^24`, rounded toward zero and clamped.
pub open spec fn spec_fmul(a: i64, b: i64) -> i64 {
    sat(with_sign((a < 0) != (b < 0), ((mag(a as int) * mag(b as int)) / (ONE as nat)) as int))
}

/// The quotient `a * 2^24 / b`, rounded toward zero and clamped. Division by
/// zero gives the infinity of the dividend's sign, and `0 / 0` is `0`.
pub open spec fn spec_fdiv(a: i64, b: i64) -> i64 {
    if b == 0 {
        if a > 0 {
            INF
        } else if a < 0 {
            NEG_INF
        } else {
            0
        }
    } else {
        sat(with_sign((a < 0) != (b < 0), ((mag(a as int) * (ONE as nat)) / mag(b as int)) as int))
    }
}

/// The smaller of `a` and `b`.
pub open spec fn spec_fmin(a: i64, b: i64) -> i64 {
    if a < b {
        a
    } else {
        b
    }
}

/// The larger of `a` and `b`.
pub open spec fn spec_fmax(a: i64, b: i64) -> i64 {
    if a > b {
        a
    } else {
        b
    }
}

/// The whole number `n` as a fixed-point value.
pub open spec fn spec_from_int(n: i64) -> i64 {
    sat(n * ONE)
}

/// The largest whole number not above `a / 2^24`.
pub open spec fn spec_floor_int(a: i64) -> i64 {
    (a as int / ONE as int) as i64
}

/// `a` rounded down to a whole number, still in fixed-point units.
pub open spec fn spec_ffloor(a: i64) -> i64 {
    (a - a as int % ONE as int) as i64
}

/// Whether `r` is the integer square root of `n`: the largest `r >= 0` with
/// `r * r <= n`.
pub open spec fn is_isqrt(n: int, r: int) -> bool {
    r >= 0 && r * r <= n < (r + 1) * (r + 1)
}

/// The integer square root of `n`, and `0` for negative `n`.
pub open spec fn isqrt(n: int) -> int {
    if n < 0 {
        0
    } else {
        choose|r: int| is_isqrt(n, r)
    }
}

/// The square root of `a / 2^24` in fixed-point units, rounded down; `0` for
/// negative `a`.
pub open spec fn spec_fsqrt(a: i64) -> i64 {
    isqrt(a * ONE) as i64
}

/// Two integer square roots of one number are equal.
pub proof fn lemma_isqrt_unique(n: int, r1: int, r2: int)
    requires
        is_isqrt(n, r1),
        is_isqrt(n, r2),
    ensures
        r1 == r2,
{
    if r1 < r2 {
        assert((r1 + 1) * (r1 + 1) <= r2 * r2) by (nonlinear_arith)
            requires
                0 <= r1,
                r1 + 1 <= r2,
        ;
    }
    if r2 < r1 {
        assert((r2 + 1) * (r2 + 1) <= r1 * r1) by (nonlinear_arith)
            requires
                0 <= r2,
                r2 + 1 <= r1,
        ;
    }
}

/// Whatever satisfies `is_isqrt` is the value of `isqrt`.
pub proof fn lemma_isqrt_is(n: int, r: int)
    requires
        is_isqrt(n, r),
    ensures
        isqrt(n) == r,
{
    assert(n >= 0) by (nonlinear_arith)
        requires
            r * r <= n,
    ;
    let c = choose|c: int| is_isqrt(n, c);
    lemma_isqrt_unique(n, r, c);
}

/// The sum `a + b`, clamped.
#[verifier::when_used_as_spec(spec_fadd)]
pub fn fadd(a: i64, b: i64) -> (r: i64)
    ensures
        r == spec_fadd(a, b),
{
    let s: i128 = a as i128 + b as i128;
    clamp_wide(s)
}

/// The difference `a - b`, clamped.
#[verifier::when_used_as_spec(spec_fsub)]
pub fn fsub(a: i64, b: i64) -> (r: i64)
    ensures
        r == spec_fsub(a, b),
{
    let s: i128 = a as i128 - b as i128;
    clamp_wide(s)
}

/// The negative of `a`, clamped.
#[verifier::when_used_as_spec(spec_fneg)]
pub fn fneg(a: i64) -> (r: i64)
    ensures
        r == spec_fneg(a),
{
    let s: i128 = -(a as i128);
    clamp_wide(s)
}

/// The magnitude of `a`, clamped.
#[verifier::when_used_as_spec(spec_fabs)]
pub fn fabs(a: i64) -> (r: i64)
    ensures
        r == spec_fabs(a),
{
    if a < 0 {
        fneg(a)
    } else {
        a
    }
}

/// The smaller of `a` and `b`.
#[verifier::when_used_as_spec(spec_fmin)]
pub fn fmin(a: i64, b: i64) -> (r: i64)
    ensures
        r == spec_fmin(a, b),
{
    if a < b {
        a
    } else {
        b
    }
}

/// The larger of `a` and `b`.
#[verifier::when_used_as_spec(spec_fmax)]
pub fn fmax(a: i64, b: i64) -> (r: i64)
    ensures
        r == spec_fmax(a, b),
{
    if a > b {
        a
    } else {
        b
    }
}

/// Clamps a wide integer into the fixed-point range.
pub fn clamp_wide(s: i128) -> (r: i64)
    ensures
        r == sat(s as int),
{
    if s > INF as i128 {
        INF
    } else if s < NEG_INF as i128 {
        NEG_INF
    } else {
        s as i64
    }
}

/// The magnitude of `a` as an unsigned wide integer.
pub fn magnitude(a: i64) -> (m: u128)
    ensures
        m == mag(a as int),
        m <= 0x8000_0000_0000_0000,
{
    if a < 0 {
        (-(a as i128)) as u128
    } else {
        a as u128
    }
}

/// Puts a sign on a magnitude and clamps the result.
pub fn signed_clamp(negative: bool, m: u128) -> (r: i64)
    ensures
        r == sat(with_sign(negative, m as int)),
{
    if m > INF as u128 {
        if negative {
            NEG_INF
        } else {
            INF
        }
    } else if negative {
        -(m as i64)
    } else {
        m as i64
    }
}

/// The product `a * b / 2^24`, rounded toward zero and clamped.
#[verifier::when_used_as_spec(spec_fmul)]
pub fn fmul(a: i64, b: i64) -> (r: i64)
    ensures
        r == spec_fmul(a, b),
{
    let ma: u128 = magnitude(a);
    let mb: u128 = magnitude(b);
    assert(ma * mb <= 0x8000_0000_0000_0000 * 0x8000_0000_0000_0000) by (nonlinear_arith)
        requires
            ma <= 0x8000_0000_0000_0000,
            mb <= 0x8000_0000_0000_0000,
    ;
    let p: u128 = ma * mb;
    signed_clamp((a < 0) != (b < 0), p / (ONE as u128))
}

/// The quotient `a * 2^24 / b`, rounded toward zero and clamped. Division by
/// zero gives the infinity of the dividend's sign, and `0 / 0` is `0`.
#[verifier::when_used_as_spec(spec_fdiv)]
pub fn fdiv(a: i64, b: i64) -> (r: i64)
    ensures
        r == spec_fdiv(a, b),
{
    if b == 0 {
        if a > 0 {
            INF
        } else if a < 0 {
            NEG_INF
        } else {
            0
        }
    } else {
        let ma: u128 = magnitude(a);
        let mb: u128 = magnitude(b);
        assert(ma * 0x100_0000 <= 0x8000_0000_0000_0000 * 0x100_0000) by (nonlinear_arith)
            requires
                ma <= 0x8000_0000_0000_0000,
        ;
        let n: u128 = ma * 0x100_0000;
        signed_clamp((a < 0) != (b < 0), n / mb)
    }
}

/// The whole number `n` as a fixed-point value.
#[verifier::when_used_as_spec(spec_from_int)]
pub fn from_int(n: i64) -> (r: i64)
    ensures
        r == spec_from_int(n),
{
    let s: i128 = n as i128 * 0x100_0000;
    clamp_wide(s)
}

/// The count `n` as a fixed-point value.
pub open spec fn spec_from_count(n: usize) -> i64 {
    sat(n * ONE)
}

/// The count `n` as a fixed-point value.
#[verifier::when_used_as_spec(spec_from_count)]
pub fn from_count(n: usize) -> (r: i64)
    ensures
        r == spec_from_count(n),
{
    let wide: u64 = n as u64;
    if wide > 0x7f_ffff_ffff {
        INF
    } else {
        (wide as i64) * 0x100_0000
    }
}

/// The largest whole number not above `a / 2^24`.
#[verifier::when_used_as_spec(spec_floor_int)]
pub fn floor_int(a: i64) -> (r: i64)
    ensures
        r == spec_floor_int(a),
        -0x80_0000_0000 <= r <= 0x7f_ffff_ffff,
{
    if a >= 0 {
        a / ONE
    } else {
        let m: i64 = -(a + 1);
        -(m / ONE) - 1
    }
}

/// `a` rounded down to a whole number, still in fixed-point units.
#[verifier::when_used_as_spec(spec_ffloor)]
pub fn ffloor(a: i64) -> (r: i64)
    ensures
        r == spec_ffloor(a),
{
    let n: i64 = floor_int(a);
    n * ONE
}

/// The square root of `a / 2^24` in fixed-point units, rounded down; `0` for
/// negative `a`.
#[verifier::when_used_as_spec(spec_fsqrt)]
pub fn fsqrt(a: i64) -> (r: i64)
    ensures
        r == spec_fsqrt(a),
        a > 0 ==> is_isqrt(a * ONE, r as int),
        a <= 0 ==> r == 0,
{
    if a <= 0 {
        proof {
            if a == 0 {
                assert(is_isqrt(0, 0));
                lemma_isqrt_is(0, 0);
            }
        }
        return 0;
    }
    let n: u128 = a as u128 * 0x100_0000;
    let mut lo: u128 = 0;
    let mut hi: u128 = 0x1000_0000_0000;
    assert(n < hi * hi) by (nonlinear_arith)
        requires
            n < 0x8000_0000_0000_0000 * 0x100_0000,
            hi == 0x1000_0000_0000,
    ;
    while hi - lo > 1
        invariant
            lo < hi <= 0x1000_0000_0000,
            lo * lo <= n < hi * hi,
        decreases hi - lo,
    {
        let mid: u128 = lo + (hi - lo) / 2;
        assert(mid * mid < 0x1000_0000_0000 * 0x1000_0000_0000) by (nonlinear_arith)
            requires
                mid < 0x1000_0000_0000,
        ;
        if mid * mid <= n {
            lo = mid;
        } else {
            hi = mid;
        }
    }
    proof {
        assert(hi == lo + 1);
        lemma_isqrt_is(n as int, lo as int);
    }
    lo as i64
}

/// A product with zero is zero.
pub proof fn lemma_fmul_zero(a: i64)
    ensures
        fmul(a, 0) == 0,
        fmul(0, a) == 0,
{
    assert(mag(a as int) * mag(0) == 0) by (nonlinear_arith);
    assert(mag(0) * mag(a as int) == 0) by (nonlinear_arith);
}

/// A square root is not negative.
pub proof fn lemma_fsqrt_nonneg(a: i64)
    ensures
        fsqrt(a) >= 0,
{
    let n = a * ONE;
    if n >= 0 {
        lemma_isqrt_exists(n);
        let r = isqrt(n);
        assert(r < 0x1000_0000_0000) by (nonlinear_arith)
            requires
                r >= 0,
                r * r <= n,
                n < 0x8000_0000_0000_0000 * 0x100_0000,
        ;
    }
}

/// Every number that is not negative has an integer square root.
pub proof fn lemma_isqrt_exists(n: int)
    requires
        n >= 0,
    ensures
        is_isqrt(n, isqrt(n)),
    decreases n,
{
    if n == 0 {
        assert(is_isqrt(0, 0));
    } else {
        lemma_isqrt_exists(n - 1);
        let r = isqrt(n - 1);
        if (r + 1) * (r + 1) <= n {
            assert((r + 2) * (r + 2) > n) by (nonlinear_arith)
                requires
                    r >= 0,
                    n - 1 < (r + 1) * (r + 1),
            ;
            assert(is_isqrt(n, r + 1));
        } else {
            assert(is_isqrt(n, r));
        }
    }
}

/// A square is not negative.
pub proof fn lemma_fmul_square(a: i64)
    ensures
        fmul(a, a) >= 0,
{
    assert((mag(a as int) * mag(a as int)) / (ONE as nat) >= 0);
}

/// Division by a divisor that is not negative keeps the order of the
/// dividends.
pub proof fn lemma_fdiv_monotone(x: i64, y: i64, a: i64)
    requires
        x <= y,
        a >= 0,
    ensures
        fdiv(x, a) <= fdiv(y, a),
{
    if a > 0 {
        let d = mag(a as int) as int;
        let mx = mag(x as int) * (ONE as nat);
        let my = mag(y as int) * (ONE as nat);
        assert(mx >= 0 && my >= 0) by (nonlinear_arith)
            requires
                mx == mag(x as int) * (ONE as nat),
                my == mag(y as int) * (ONE as nat),
        ;
        vstd::arithmetic::div_mod::lemma_div_pos_is_pos(mx as int, d);
        vstd::arithmetic::div_mod::lemma_div_pos_is_pos(my as int, d);
        if x >= 0 {
            assert(mx <= my) by (nonlinear_arith)
                requires
                    mx == mag(x as int) * (ONE as nat),
                    my == mag(y as int) * (ONE as nat),
                    mag(x as int) <= mag(y as int),
            ;
            vstd::arithmetic::div_mod::lemma_div_is_ordered(mx as int, my as int, d);
        } else if y < 0 {
            assert(my <= mx) by (nonlinear_arith)
                requires
                    mx == mag(x as int) * (ONE as nat),
                    my == mag(y as int) * (ONE as nat),
                    mag(y as int) <= mag(x as int),
            ;
            vstd::arithmetic::div_mod::lemma_div_is_ordered(my as int, mx as int, d);
        }
    }
}
} // verus!
