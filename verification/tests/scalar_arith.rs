use motion::scalar::Scalar;
use std::ops::Neg;

fn s(x: f32) -> Scalar {
    Scalar::from_bits(x.to_bits())
}

fn f(x: Scalar) -> f32 {
    f32::from_bits(x.to_bits())
}

fn same(got: Scalar, want: f32) -> bool {
    if want.is_nan() {
        got.is_nan()
    } else {
        got.to_bits() == want.to_bits()
    }
}

const SAMPLES: [f32; 40] = [
    0.0,
    -0.0,
    1.0,
    -1.0,
    2.0,
    0.5,
    3.0,
    4.0,
    5.0,
    25.0,
    0.1,
    -0.1,
    0.04,
    9.807,
    -9.807,
    0.016,
    1.0 / 60.0,
    60.0,
    1.5,
    1.0000001,
    0.99999994,
    16777216.0,
    16777217.0,
    33554430.0,
    1.0e-38,
    1.1754944e-38,
    1.1754942e-38,
    1.0e-45,
    3.0e-45,
    1.0e-40,
    3.4028235e38,
    1.7014117e38,
    1.0e20,
    1.0e-20,
    123456.79,
    -7.25,
    f32::INFINITY,
    f32::NEG_INFINITY,
    f32::NAN,
    6.0e-39,
];

#[test]
fn product_agrees_with_hardware() {
    for &a in SAMPLES.iter() {
        for &b in SAMPLES.iter() {
            let got = s(a) * s(b);
            assert!(same(got, a * b), "{a:?} * {b:?}: got {:?}, want {:?}", f(got), a * b);
        }
    }
}

#[test]
fn sum_agrees_with_hardware() {
    for &a in SAMPLES.iter() {
        for &b in SAMPLES.iter() {
            let got = s(a) + s(b);
            assert!(same(got, a + b), "{a:?} + {b:?}: got {:?}, want {:?}", f(got), a + b);
        }
    }
}

#[test]
fn difference_agrees_with_hardware() {
    for &a in SAMPLES.iter() {
        for &b in SAMPLES.iter() {
            let got = s(a) - s(b);
            assert!(same(got, a - b), "{a:?} - {b:?}: got {:?}, want {:?}", f(got), a - b);
        }
    }
}

#[test]
fn quotient_agrees_with_hardware() {
    for &a in SAMPLES.iter() {
        for &b in SAMPLES.iter() {
            let got = s(a) / s(b);
            assert!(same(got, a / b), "{a:?} / {b:?}: got {:?}, want {:?}", f(got), a / b);
        }
    }
}

#[test]
fn negation_flips_the_sign_bit() {
    for &a in SAMPLES.iter() {
        assert_eq!(s(a).neg().to_bits(), a.to_bits() ^ 0x8000_0000);
    }
}

/// A small generator of bit patterns that reaches every class of number.
fn patterns(count: usize) -> Vec<u32> {
    let mut state: u64 = 0x9e37_79b9_7f4a_7c15;
    let mut out = Vec::new();
    for i in 0..count {
        state ^= state << 13;
        state ^= state >> 7;
        state ^= state << 17;
        let raw = (state >> 16) as u32;
        let bits = match i % 4 {
            // anything
            0 => raw,
            // moderate exponents, where sums and products stay finite
            1 => (raw & 0x807f_ffff) | ((100 + (raw >> 23) % 56) << 23),
            // subnormals and the smallest normals
            2 => raw & 0x80ff_ffff,
            // the largest finite numbers
            _ => (raw & 0x807f_ffff) | ((250 + (raw >> 23) % 5) << 23),
        };
        out.push(bits);
    }
    out
}

#[test]
fn arithmetic_agrees_with_hardware_on_many_patterns() {
    let ps = patterns(600);
    for &x in ps.iter() {
        for &y in ps.iter() {
            let (a, b) = (f32::from_bits(x), f32::from_bits(y));
            let (sa, sb) = (Scalar::from_bits(x), Scalar::from_bits(y));
            assert!(same(sa * sb, a * b), "{x:#x} * {y:#x}");
            assert!(same(sa + sb, a + b), "{x:#x} + {y:#x}");
            assert!(same(sa - sb, a - b), "{x:#x} - {y:#x}");
            assert!(same(sa / sb, a / b), "{x:#x} / {y:#x}");
        }
    }
}

#[test]
fn whole_numbers_convert_as_hardware_does() {
    let wholes: [u32; 14] = [
        0,
        1,
        2,
        60,
        144,
        16_777_215,
        16_777_216,
        16_777_217,
        16_777_218,
        16_777_219,
        33_554_431,
        2_147_483_647,
        4_294_967_167,
        u32::MAX,
    ];
    for &w in wholes.iter() {
        assert_eq!(Scalar::from_u32(w).to_bits(), (w as f32).to_bits(), "{w}");
    }
}

#[test]
fn order_agrees_with_hardware() {
    for &a in SAMPLES.iter() {
        for &b in SAMPLES.iter() {
            assert_eq!(s(a) < s(b), a < b, "{a:?} < {b:?}");
            assert_eq!(s(a) <= s(b), a <= b, "{a:?} <= {b:?}");
            assert_eq!(s(a) > s(b), a > b, "{a:?} > {b:?}");
            assert_eq!(s(a) >= s(b), a >= b, "{a:?} >= {b:?}");
            assert_eq!(s(a) == s(b), a == b, "{a:?} == {b:?}");
            assert_eq!(s(a) != s(b), a != b, "{a:?} != {b:?}");
        }
    }
}

#[test]
fn zeros_are_equal_and_nan_is_not() {
    assert!(s(0.0) == s(-0.0));
    assert!(s(f32::NAN) != s(f32::NAN));
    assert!(!(s(f32::NAN) < s(1.0)));
    assert!(!(s(1.0) < s(f32::NAN)));
}

#[test]
fn classes_of_scalars() {
    assert!(s(f32::NAN).is_nan());
    assert!(s(f32::INFINITY).is_infinite());
    assert!(s(f32::NEG_INFINITY).is_infinite());
    assert!(s(1.0).is_finite());
    assert!(!s(f32::INFINITY).is_finite());
    assert!(s(-0.0).is_zero());
    assert!(s(-0.0).is_sign_negative());
    assert!(!s(0.0).is_sign_negative());
    assert_eq!(s(-2.5).magnitude_bits(), 2.5f32.to_bits());
    assert_eq!(s(-2.5).signed_rank(), -(2.5f32.to_bits() as i64));
    assert_eq!(Scalar::from_parts(true, 2.5f32.to_bits()).to_bits(), (-2.5f32).to_bits());
    assert_eq!(s(1.0).unpack(), (0x80_0000, 126));
    assert_eq!(s(1.0e-45).unpack(), (1, 0));
}

#[test]
fn operations_without_a_number_give_the_quiet_nan() {
    assert_eq!((s(0.0) * s(f32::INFINITY)).to_bits(), 0x7fc0_0000);
    assert_eq!((s(f32::INFINITY) - s(f32::INFINITY)).to_bits(), 0x7fc0_0000);
    assert_eq!((s(0.0) / s(0.0)).to_bits(), 0x7fc0_0000);
    assert_eq!((s(f32::INFINITY) / s(f32::NEG_INFINITY)).to_bits(), 0x7fc0_0000);
    assert_eq!((s(f32::NAN) + s(1.0)).to_bits(), 0x7fc0_0000);
}

#[test]
fn ties_round_to_the_even_pattern() {
    // 2^24 + 1 lies in the middle between 2^24 and 2^24 + 2
    assert_eq!(f(s(16_777_216.0) + s(1.0)), 16_777_216.0);
    // 2^24 + 3 lies in the middle between 2^24 + 2 and 2^24 + 4
    assert_eq!(f(s(16_777_218.0) + s(1.0)), 16_777_220.0);
    // the largest number plus half of its last place is infinite
    assert_eq!(f(s(f32::MAX) + s(1.0141205e31)), f32::INFINITY);
    assert_eq!(f(s(f32::MAX) + s(1.0141204e31)), f32::MAX);
}
