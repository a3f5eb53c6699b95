use raytracer::fixed::{
    fabs, fadd, fdiv, ffloor, floor_int, fmax, fmin, fmul, fneg, from_count, from_int, fsqrt, fsub, HALF, INF,
    NEG_INF, ONE, TWO,
};
use raytracer::raytracer::{degrees_to_radians, pi, range_point, unit_from_word};
use raytracer::trig::{clamp_unit, facos, fatan2, fcos, fln, fsin, ftan, reduce_angle, split_power, HALF_PI, PI};

fn fx(v: f64) -> i64 {
    (v * ONE as f64).round() as i64
}

fn fl(a: i64) -> f64 {
    a as f64 / ONE as f64
}

#[test]
fn addition_and_subtraction_are_exact_in_range() {
    assert_eq!(fadd(fx(1.5), fx(2.25)), fx(3.75));
    assert_eq!(fsub(fx(1.5), fx(2.25)), fx(-0.75));
    assert_eq!(fneg(fx(1.5)), fx(-1.5));
    assert_eq!(fabs(fx(-1.5)), fx(1.5));
}

#[test]
fn addition_saturates_at_the_infinities() {
    assert_eq!(fadd(INF, ONE), INF);
    assert_eq!(fadd(INF, INF), INF);
    assert_eq!(fsub(NEG_INF, ONE), NEG_INF);
    assert_eq!(fneg(i64::MIN), INF);
    assert_eq!(fabs(i64::MIN), INF);
    assert_eq!(fsub(INF, INF), 0);
}

#[test]
fn product_rounds_toward_zero() {
    assert_eq!(fmul(fx(1.5), TWO), fx(3.0));
    assert_eq!(fmul(fx(-1.5), TWO), fx(-3.0));
    assert_eq!(fmul(1, HALF), 0);
    assert_eq!(fmul(-1, HALF), 0);
    assert_eq!(fmul(3, HALF), 1);
    assert_eq!(fmul(-3, HALF), -1);
    assert_eq!(fmul(12345, ONE), 12345);
    assert_eq!(fmul(0, INF), 0);
}

#[test]
fn product_saturates() {
    assert_eq!(fmul(INF, TWO), INF);
    assert_eq!(fmul(INF, -TWO), NEG_INF);
    assert_eq!(fmul(from_int(1 << 30), from_int(1 << 30)), INF);
    assert_eq!(fmul(i64::MIN, i64::MIN), INF);
}

#[test]
fn quotient_rounds_toward_zero() {
    assert_eq!(fdiv(fx(3.0), TWO), fx(1.5));
    assert_eq!(fdiv(ONE, from_int(3)), 5592405);
    assert_eq!(fdiv(-ONE, from_int(3)), -5592405);
    assert_eq!(fdiv(ONE, from_int(-3)), -5592405);
    assert_eq!(fdiv(ONE, from_int(10)), 1677721);
}

#[test]
fn quotient_by_zero_is_an_infinity_or_zero() {
    assert_eq!(fdiv(ONE, 0), INF);
    assert_eq!(fdiv(-ONE, 0), NEG_INF);
    assert_eq!(fdiv(0, 0), 0);
    assert_eq!(fdiv(INF, 1), INF);
}

#[test]
fn square_root_is_exact_on_squares_and_rounds_down() {
    assert_eq!(fsqrt(from_int(4)), from_int(2));
    assert_eq!(fsqrt(ONE), ONE);
    assert_eq!(fsqrt(fx(0.25)), fx(0.5));
    assert_eq!(fsqrt(0), 0);
    assert_eq!(fsqrt(-ONE), 0);
    assert_eq!(fsqrt(TWO), 23726566);
    let r = fsqrt(INF) as i128;
    let n = INF as i128 * ONE as i128;
    assert!(r * r <= n && n < (r + 1) * (r + 1));
}

#[test]
fn square_root_is_the_integer_root_for_many_inputs() {
    let mut a: i64 = 1;
    while a < INF / 3 {
        let r = fsqrt(a) as i128;
        let n = a as i128 * ONE as i128;
        assert!(r * r <= n && n < (r + 1) * (r + 1), "a = {}", a);
        a = a * 3 + 1;
    }
}

#[test]
fn minimum_and_maximum() {
    assert_eq!(fmin(3, 5), 3);
    assert_eq!(fmin(5, 3), 3);
    assert_eq!(fmax(3, 5), 5);
    assert_eq!(fmax(-3, -5), -3);
}

#[test]
fn whole_parts() {
    assert_eq!(floor_int(fx(2.75)), 2);
    assert_eq!(floor_int(fx(-2.75)), -3);
    assert_eq!(floor_int(fx(-2.0)), -2);
    assert_eq!(floor_int(-1), -1);
    assert_eq!(floor_int(0), 0);
    assert_eq!(ffloor(fx(2.75)), fx(2.0));
    assert_eq!(ffloor(fx(-2.75)), fx(-3.0));
    assert_eq!(floor_int(i64::MIN), -(1 << 39));
    assert_eq!(floor_int(INF), (1 << 39) - 1);
}

#[test]
fn whole_numbers_as_fixed_point() {
    assert_eq!(from_int(3), 3 * ONE);
    assert_eq!(from_int(-3), -3 * ONE);
    assert_eq!(from_int(i64::MAX), INF);
    assert_eq!(from_int(i64::MIN), NEG_INF);
    assert_eq!(from_count(800), 800 * ONE);
    assert_eq!(from_count(usize::MAX), INF);
    assert_eq!(from_count((1 << 39) - 1), ((1i64 << 39) - 1) * ONE);
    assert_eq!(from_count(1 << 39), INF);
}

#[test]
fn unit_samples_keep_the_top_bits_of_a_word() {
    assert_eq!(unit_from_word(0), 0);
    assert_eq!(unit_from_word(u32::MAX), ONE - 1);
    assert_eq!(unit_from_word(0x8000_0000), HALF);
    assert_eq!(unit_from_word(255), 0);
    assert_eq!(unit_from_word(256), 1);
}

#[test]
fn range_point_interpolates() {
    assert_eq!(range_point(-ONE, ONE, 0), -ONE);
    assert_eq!(range_point(-ONE, ONE, HALF), 0);
    assert_eq!(range_point(-ONE, ONE, ONE - 1), ONE - 2);
    assert_eq!(range_point(fx(1.0), fx(101.0), HALF), fx(51.0));
}

#[test]
fn degrees_become_radians() {
    assert_eq!(pi, PI);
    assert!((fl(degrees_to_radians(from_int(180))) - std::f64::consts::PI).abs() < 1e-6);
    assert!((fl(degrees_to_radians(from_int(90))) - std::f64::consts::FRAC_PI_2).abs() < 1e-6);
    assert_eq!(degrees_to_radians(0), 0);
    assert_eq!(degrees_to_radians(from_int(180)), fdiv(fmul(from_int(180), pi), from_int(180)));
}

#[test]
fn angle_reduction_keeps_the_sine() {
    assert_eq!(reduce_angle(0), 0);
    assert_eq!(reduce_angle(HALF_PI), HALF_PI);
    assert_eq!(reduce_angle(PI), -1);
    let mut x = -50.0;
    while x < 50.0 {
        let y = fl(reduce_angle(fx(x)));
        assert!(y.abs() <= std::f64::consts::FRAC_PI_2 + 1e-6);
        assert!((y.sin() - x.sin()).abs() < 1e-5, "x = {}", x);
        x += 0.37;
    }
}

#[test]
fn sine_and_cosine_are_close_to_the_real_ones() {
    let mut x = -30.0;
    while x < 30.0 {
        assert!((fl(fsin(fx(x))) - x.sin()).abs() < 1e-5, "sin {}", x);
        assert!((fl(fcos(fx(x))) - x.cos()).abs() < 1e-5, "cos {}", x);
        x += 0.0173;
    }
    assert_eq!(fsin(0), 0);
    assert_eq!(fcos(0), ONE);
    assert_eq!(clamp_unit(ONE + 5), ONE);
    assert_eq!(clamp_unit(-ONE - 5), -ONE);
    assert_eq!(clamp_unit(17), 17);
}

#[test]
fn tangent_is_sine_over_cosine() {
    for deg in [10.0f64, 20.0, 40.0, 45.0, 60.0, 80.0] {
        let x = deg.to_radians();
        assert!((fl(ftan(fx(x))) - x.tan()).abs() < 1e-4, "tan {}", deg);
        assert_eq!(ftan(fx(x)), fdiv(fsin(fx(x)), fcos(fx(x))));
    }
}

#[test]
fn arctangent_covers_all_quadrants() {
    assert_eq!(fatan2(0, 0), 0);
    assert_eq!(fatan2(0, ONE), 0);
    let mut y = -3.0;
    while y < 3.0 {
        let mut x = -3.0;
        while x < 3.0 {
            let got = fl(fatan2(fx(y), fx(x)));
            let want = fl(fx(y)).atan2(fl(fx(x)));
            let diff = (got - want).abs();
            assert!(diff < 1e-5 || (diff - 2.0 * std::f64::consts::PI).abs() < 1e-5, "atan2({}, {})", y, x);
            x += 0.113;
        }
        y += 0.127;
    }
}

#[test]
fn arccosine_is_close_to_the_real_one() {
    let mut v = -1.0;
    while v <= 1.0 {
        assert!((fl(facos(fx(v))) - fl(fx(v)).acos()).abs() < 1e-4, "acos {}", v);
        v += 0.01;
    }
    assert_eq!(facos(ONE), 0);
    assert_eq!(facos(from_int(7)), 0);
    assert!((fl(facos(from_int(-7))) - std::f64::consts::PI).abs() < 1e-6);
}

#[test]
fn logarithm_is_close_to_the_real_one() {
    assert_eq!(fln(0), NEG_INF);
    assert_eq!(fln(-ONE), NEG_INF);
    assert_eq!(fln(ONE), 0);
    for v in [1e-6f64, 0.001, 0.1, 0.3, 0.5, 0.9, 0.999, 1.5, 2.0, 10.0, 12345.0] {
        let a = fx(v);
        assert!((fl(fln(a)) - fl(a).ln()).abs() < 1e-5, "ln {}", v);
    }
}

#[test]
fn power_split_normalises_the_mantissa() {
    assert_eq!(split_power(ONE), (ONE, 0));
    assert_eq!(split_power(TWO), (ONE, 1));
    assert_eq!(split_power(HALF), (ONE, -1));
    assert_eq!(split_power(fx(6.0)), (fx(1.5), 2));
    assert_eq!(split_power(1), (ONE, -24));
    assert_eq!(split_power(INF).1, 38);
}
