//! An approximate square root, taken on the bit pattern.

use vstd::prelude::*;
use vstd::arithmetic::power2::{pow2, lemma_pow2_adds, lemma2_to64};
use crate::order::less;
use crate::rounding::{mag_value, lemma_mag_value_order, lemma_mag_value_scaled};
use crate::scalar::{Scalar, NAN_BITS, ZERO_BITS};

verus! {

/// The offset that halving the pattern of 1 has to leave in place: the pattern
/// of 1 itself.
pub const ROOT_BIAS: u32 = 0x3f80_0000;

/// The approximate root: of a number below zero, and of a NaN, the quiet NaN;
/// of anything else the scalar whose pattern is half of the sum of the
/// number's pattern and `ROOT_BIAS`. Halving the pattern halves the exponent
/// and reads the fraction along the chord of the root.
pub open spec fn root(x: Scalar) -> Scalar {
    if x.nan() || less(x, Scalar { bits: ZERO_BITS }) {
        Scalar::nan_value()
    } else {
        Scalar { bits: ((x.bits + ROOT_BIAS) / 2) as u32 }
    }
}

/// The approximate square root of `number`. It is a NaN for a NaN and for
/// every number with the sign bit set but the negative zero, and only then.
pub fn sqrt(number: Scalar) -> (r: Scalar)
    ensures
        r == root(number),
        r.nan() <==> number.nan() || (number.negative() && !number.zero()),
{
    proof {
        lemma_mag_value_order(0, number.mag());
    }
    if number.is_nan() {
        return Scalar::from_bits(NAN_BITS);
    }
    if number < Scalar::from_bits(ZERO_BITS) {
        return Scalar::from_bits(NAN_BITS);
    }
    Scalar::from_bits((number.bits + ROOT_BIAS) / 2)
}

/// How far the approximate root is from the root, for a positive normal
/// number `x`: the square of `root(x)` is at most 9/8 of `x`, and falls short
/// of `x` by at most one part in 2^23. So the approximation lies at most
/// about 6.1 percent above the root, and next to nothing below.
///
/// Both sides are counted in units of 2^-298: the square of a magnitude in
/// units of 2^-149, and `x` in units of 2^-149 times 2^149.
pub proof fn lemma_root_is_close(x: Scalar)
    requires
        0x0080_0000 <= x.bits < 0x7f80_0000,
    ensures
        ({
            let r = root(x);
            let square = mag_value(r.mag()) * mag_value(r.mag());
            let exact = mag_value(x.mag()) * pow2(149);
            &&& r.finite()
            &&& !r.negative()
            &&& 8 * square <= 9 * exact
            &&& 0x7f_ffff * exact <= 0x80_0000 * square
        }),
{
    let b = x.bits as nat;
    let e = b / 0x80_0000;
    let f = b % 0x80_0000;
    let g = f / 2;
    let rb = (b + 0x3f80_0000) / 2;
    let k = (e + 127) / 2;
    assert(root(x).bits == rb);
    assert(root(x).mag() == rb);
    assert(x.mag() == b);
    // the significands, and the powers of two that scale them
    let sig_x = (0x80_0000 + f) as int;
    let sig_r: int = if e % 2 == 1 {
        (0x80_0000 + g) as int
    } else {
        (0xc0_0000 + g) as int
    };
    assert(rb == (k - 1) * 0x80_0000 + sig_r);
    lemma_mag_value_scaled((k - 1) as nat, sig_r as nat);
    lemma_mag_value_scaled((e - 1) as nat, sig_x as nat);
    let scale = pow2((k - 1) as nat) as int;
    let twice = pow2((2 * k - 2) as nat) as int;
    lemma2_to64();
    lemma_pow2_adds((k - 1) as nat, (k - 1) as nat);
    lemma_pow2_adds((e - 1) as nat, 149);
    assert(twice == scale * scale);
    // `x` times 2^149 is its significand times `twice` times a power of two
    let shift: int = if e % 2 == 1 {
        0x80_0000
    } else {
        0x100_0000
    };
    if e % 2 == 1 {
        lemma_pow2_adds((2 * k - 2) as nat, 23);
    } else {
        lemma_pow2_adds((2 * k - 2) as nat, 24);
    }
    assert(pow2((e - 1) as nat) * pow2(149) == twice * shift);
    let square = mag_value(rb) * mag_value(rb);
    let exact = mag_value(b) * pow2(149);
    assert(square == (sig_r * sig_r) * twice) by (nonlinear_arith)
        requires
            square == (sig_r * scale) * (sig_r * scale),
            twice == scale * scale,
    ;
    let tail = pow2((e - 1) as nat) * pow2(149);
    assert(exact == (sig_x * shift) * twice) by (nonlinear_arith)
        requires
            exact == (sig_x * pow2((e - 1) as nat)) * pow2(149),
            tail == pow2((e - 1) as nat) * pow2(149),
            tail == twice * shift,
    ;
    // what is left is a matter of the significands alone
    let c = f % 2;
    assert(8 * (sig_r * sig_r) <= 9 * (sig_x * shift) && 0x7f_ffff * (sig_x * shift) <= 0x80_0000 * (
    sig_r * sig_r)) by (nonlinear_arith)
        requires
            0 <= g < 0x40_0000,
            0 <= c <= 1,
            sig_x == 0x80_0000 + 2 * g + c,
            (sig_r == 0x80_0000 + g && shift == 0x80_0000) || (sig_r == 0xc0_0000 + g && shift
                == 0x100_0000),
    ;
    let rr = sig_r * sig_r;
    let xs = sig_x * shift;
    assert(8 * (rr * twice) <= 9 * (xs * twice) && 0x7f_ffff * (xs * twice) <= 0x80_0000 * (rr
        * twice)) by (nonlinear_arith)
        requires
            8 * rr <= 9 * xs,
            0x7f_ffff * xs <= 0x80_0000 * rr,
            twice >= 0,
    ;
}

} // verus!
