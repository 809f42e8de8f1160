use motion::formulas::dot::{dot, length, length2};
use motion::formulas::elastic_collision::calculate;
use motion::formulas::pitagoras::calculate_pt;
use motion::formulas::pow::powf;
use motion::formulas::sqrt::sqrt;
use motion::scalar::Scalar;
use motion::vec::vec_2d::{vec2, Vec2d};

fn s(x: f32) -> Scalar {
    Scalar::from_bits(x.to_bits())
}

fn f(x: Scalar) -> f32 {
    f32::from_bits(x.to_bits())
}

fn v(x: f32, y: f32) -> Vec2d {
    Vec2d::new(s(x), s(y))
}

fn close(got: f32, want: f32, tolerance: f32) -> bool {
    (got - want).abs() <= tolerance * want.abs()
}

/// The root as the bit pattern gives it, on hardware numbers.
fn hardware_root(number: f32) -> f32 {
    if number < 0.0 {
        return f32::NAN;
    }
    f32::from_bits((number.to_bits() + 0x3f80_0000) >> 1)
}

/// The power by squaring, on hardware numbers.
fn hardware_power(base: f32, exponent: i32) -> f32 {
    if exponent == 0 {
        return 1.0;
    }
    let mut result = 1.0;
    let mut exp = exponent.unsigned_abs();
    let mut base_current = base;
    while exp > 0 {
        if exp & 1 != 0 {
            result *= base_current;
        }
        base_current *= base_current;
        exp >>= 1;
    }
    if exponent < 0 {
        return 1.0 / result;
    }
    result
}

#[test]
fn root_of_powers_of_four_is_exact() {
    assert_eq!(f(sqrt(s(4.0))), 2.0);
    assert_eq!(f(sqrt(s(16.0))), 4.0);
    assert_eq!(f(sqrt(s(1.0))), 1.0);
    assert_eq!(f(sqrt(s(0.25))), 0.5);
}

#[test]
fn root_is_an_approximation() {
    assert_eq!(f(sqrt(s(9.0))), 3.125);
    assert_eq!(f(sqrt(s(25.0))), 5.125);
    assert_eq!(f(sqrt(s(2.0))), 1.5);
    for &x in [0.5f32, 3.0, 10.0, 123.456, 1.0e10, 1.0e-10, 7.0e37].iter() {
        assert!(close(f(sqrt(s(x))), x.sqrt(), 0.07), "{x}");
    }
}

#[test]
fn root_below_zero_is_nan() {
    assert!(sqrt(s(-1.0)).is_nan());
    assert!(sqrt(s(-1.0e-45)).is_nan());
    assert!(sqrt(s(f32::NEG_INFINITY)).is_nan());
}

#[test]
fn root_of_nan_is_nan() {
    assert!(sqrt(s(f32::NAN)).is_nan());
    assert!(sqrt(Scalar::from_bits(0xffc0_0001)).is_nan());
}

#[test]
fn root_takes_the_pattern_of_what_is_not_below_zero() {
    for &x in [0.0f32, 1.0e-45, 1.0e-38, 0.3, 1.0, 2.0, 3.0, 4.0, 1.0e30, f32::MAX, f32::INFINITY]
        .iter()
    {
        assert_eq!(sqrt(s(x)).to_bits(), hardware_root(x).to_bits(), "{x}");
    }
    // the negative zero is not below zero: its pattern is halved as it stands
    assert_eq!(sqrt(s(-0.0)).to_bits(), (0x8000_0000u32 + 0x3f80_0000) >> 1);
}

#[test]
fn powers_of_two_and_five() {
    assert_eq!(f(powf(s(2.0), 3)), 8.0);
    assert_eq!(f(powf(s(2.0), 0)), 1.0);
    assert!(close(f(powf(s(5.0), -2)), 0.04, 1.0e-6));
    assert_eq!(f(powf(s(2.0), -1)), 0.5);
    assert_eq!(f(powf(s(-3.0), 3)), -27.0);
    assert_eq!(f(powf(s(f32::NAN), 0)), 1.0);
}

#[test]
fn powers_agree_with_hardware() {
    let bases = [0.0f32, 1.0, -1.0, 2.0, 0.5, 1.0001, -1.5, 3.3, 10.0, 1.0e-3];
    let exponents = [0, 1, 2, 3, 7, 10, 31, 100, -1, -2, -5, -64, i32::MAX, i32::MIN];
    for &b in bases.iter() {
        for &e in exponents.iter() {
            let want = hardware_power(b, e);
            let got = powf(s(b), e);
            if want.is_nan() {
                assert!(got.is_nan(), "{b} ^ {e}");
            } else {
                assert_eq!(got.to_bits(), want.to_bits(), "{b} ^ {e}");
            }
        }
    }
}

#[test]
fn dot_and_lengths() {
    assert_eq!(f(dot(v(3.0, 4.0), v(1.0, 2.0))), 11.0);
    assert_eq!(f(length2(v(3.0, 4.0))), 25.0);
    assert_eq!(f(length(v(3.0, 4.0))), 5.125);
    assert_eq!(f(v(3.0, 4.0) * v(1.0, 2.0)), 11.0);
}

#[test]
fn magnitude_of_three_four_is_about_five() {
    assert!(close(f(v(3.0, 4.0).magnitude()), 5.0, 0.03));
    assert!(close(f(v(1.0, 2.0).distance(v(4.0, 6.0))), 5.0, 0.03));
}

#[test]
fn hypotenuse() {
    assert_eq!(f(calculate_pt(s(3.0), s(4.0))), 5.125);
    assert!(close(f(calculate_pt(s(6.0), s(8.0))), 10.0, 0.07));
    assert_eq!(calculate_pt(s(1.5), s(-2.5)).to_bits(), hardware_root(1.5 * 1.5 + 2.5 * 2.5).to_bits());
}

#[test]
fn equal_masses_swap_velocities() {
    let v1 = v(1.0, 0.0);
    let v2 = v(-1.0, 0.0);
    let after1 = calculate(v1, s(1.0), s(1.0), v2);
    let after2 = calculate(v2, s(1.0), s(1.0), v1);
    assert_eq!(after1, v(-1.0, 0.0));
    assert_eq!(after2, v(1.0, 0.0));
}

#[test]
fn elastic_collision_agrees_with_hardware() {
    let (v1x, v1y, v2x, v2y, m1, m2) = (3.0f32, 4.0f32, 1.0f32, 2.0f32, 2.0f32, 3.0f32);
    let got = calculate(v(v1x, v1y), s(m1), s(m2), v(v2x, v2y));
    let want_x = (v1x * (m1 - m2) + 2.0 * v2x * m2) / (m1 + m2);
    let want_y = (v1y * (m1 - m2) + 2.0 * v2y * m2) / (m1 + m2);
    assert_eq!(got.x.to_bits(), want_x.to_bits());
    assert_eq!(got.y.to_bits(), want_y.to_bits());
    assert_eq!(f(got.x), 0.6);
}

#[test]
fn masses_that_cancel_give_no_number() {
    let got = calculate(v(1.0, 0.0), s(1.0), s(-1.0), v(0.0, 0.0));
    assert!(f(got.x).is_infinite());
    assert!(got.y.is_nan());
}

#[test]
fn vectors_by_components() {
    let a = v(1.0, 2.0);
    let b = v(4.0, 6.0);
    assert_eq!(a.component(b), v(3.0, 4.0));
    assert_eq!(b.component(a), v(-3.0, -4.0));
    assert_eq!(a + b, v(5.0, 8.0));
    assert_eq!(v(5.0, 7.0) - v(3.0, 2.0), v(2.0, 5.0));
    assert_eq!(v(10.0, 20.0) / s(2.0), v(5.0, 10.0));
    assert_eq!(vec2(s(1.0), s(2.0)), a);
    assert_eq!(f(a.x), 1.0);
    assert_eq!(f(a.y), 2.0);
    assert!(v(f32::NAN, 0.0) != v(f32::NAN, 0.0));
}

#[test]
fn distance_is_symmetric() {
    let points = [
        v(0.0, 0.0),
        v(1.0, 2.0),
        v(4.0, 6.0),
        v(-3.5, 1.0e10),
        v(1.0e-40, -0.0),
        v(f32::INFINITY, 1.0),
        v(f32::NAN, 2.0),
        v(3.4e38, -3.4e38),
    ];
    for a in points.iter() {
        for b in points.iter() {
            assert_eq!(a.distance(*b).to_bits(), b.distance(*a).to_bits());
        }
    }
}

#[test]
fn root_squares_to_between_the_number_and_nine_eighths_of_it() {
    let mut state: u64 = 0x2545_f491_4f6c_dd1d;
    for _ in 0..20_000 {
        state ^= state << 13;
        state ^= state >> 7;
        state ^= state << 17;
        // a positive normal number
        let bits = 0x0080_0000 + ((state >> 20) as u32) % (0x7f80_0000 - 0x0080_0000);
        let x = f32::from_bits(bits) as f64;
        let r = f(sqrt(Scalar::from_bits(bits))) as f64;
        assert!(r * r <= 1.125 * x, "{bits:#x}");
        assert!(r * r >= x * (1.0 - 1.0 / 8_388_608.0), "{bits:#x}");
    }
}

#[test]
fn one_is_neutral_and_small_powers_are_what_they_say() {
    for &x in [0.0f32, -0.0, 1.0, -2.5, 1.0e-45, 3.4e38, f32::INFINITY, f32::NEG_INFINITY].iter() {
        assert_eq!((s(1.0) * s(x)).to_bits(), x.to_bits());
        assert_eq!((s(x) * s(1.0)).to_bits(), x.to_bits());
        assert_eq!(powf(s(x), 1).to_bits(), x.to_bits());
        assert_eq!(powf(s(x), 2).to_bits(), (x * x).to_bits());
        assert_eq!(f(powf(s(x), 0)), 1.0);
    }
}
