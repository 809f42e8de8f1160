//! Binary32 scalars held as bit patterns, with arithmetic in integers.
//!
//! A `Scalar` is the 32-bit pattern of an IEEE 754 binary32 number: a sign bit
//! above the 31 magnitude bits that `rounding` describes. Every operation is
//! computed in integer arithmetic and rounds to nearest, ties to even. An
//! operation that has no number to give returns the one quiet NaN, `NAN_BITS`.

use vstd::prelude::*;
use vstd::arithmetic::power2::pow2;
use crate::rounding::{INF_MAG, mag_value, mag_exp, mag_sig, round_mag, lemma_mag_value_split, lemma_mag_value_order};

verus! {

/// The sign bit of a pattern.
pub const SIGN_BIT: u32 = 0x8000_0000;

/// The pattern of the quiet NaN that operations return.
pub const NAN_BITS: u32 = 0x7fc0_0000;

/// The pattern of 0.
pub const ZERO_BITS: u32 = 0;

/// The pattern of 1/2.
pub const HALF_BITS: u32 = 0x3f00_0000;

/// The pattern of 1.
pub const ONE_BITS: u32 = 0x3f80_0000;

/// The pattern of 2.
pub const TWO_BITS: u32 = 0x4000_0000;

/// A binary32 number, held as its bit pattern.
#[derive(Clone, Copy, Debug)]
pub struct Scalar {
    pub bits: u32,
}

impl Scalar {
    /// The low 31 bits: biased exponent and fraction.
    pub open spec fn mag(self) -> nat {
        (self.bits % 0x8000_0000) as nat
    }

    /// The sign bit is set (also on a zero, an infinity or a NaN).
    pub open spec fn negative(self) -> bool {
        self.bits >= 0x8000_0000
    }

    /// Not a number: the exponent bits are all set, and a fraction bit is.
    pub open spec fn nan(self) -> bool {
        self.mag() > INF_MAG
    }

    /// An infinity: the exponent bits are all set, and no fraction bit is.
    pub open spec fn infinite(self) -> bool {
        self.mag() == INF_MAG
    }

    /// A number: a zero, a subnormal or a normal number.
    pub open spec fn finite(self) -> bool {
        self.mag() < INF_MAG
    }

    /// One of the two zeros.
    pub open spec fn zero(self) -> bool {
        self.mag() == 0
    }

    /// The number that a pattern stands for, in units of 2^-149. Both zeros
    /// are 0; an infinity counts as 2^128 with its sign. A NaN has no value,
    /// and what this gives for one has no meaning.
    pub open spec fn value(self) -> int {
        if self.negative() {
            -(mag_value(self.mag()) as int)
        } else {
            mag_value(self.mag()) as int
        }
    }

    /// An integer that is ordered as the values are: the magnitude bits, with
    /// the sign.
    pub open spec fn rank(self) -> int {
        if self.negative() {
            -(self.mag() as int)
        } else {
            self.mag() as int
        }
    }

    /// The pattern with the given sign and magnitude bits.
    pub open spec fn signed(negative: bool, mag: nat) -> Scalar {
        Scalar {
            bits: (if negative {
                0x8000_0000 + mag
            } else {
                mag
            }) as u32,
        }
    }

    /// The pattern nearest to `n / d` units, with the given sign.
    pub open spec fn rounded(negative: bool, n: nat, d: nat) -> Scalar {
        Scalar::signed(negative, round_mag(n, d))
    }

    /// The quiet NaN that operations return.
    pub open spec fn nan_value() -> Scalar {
        Scalar { bits: 0x7fc0_0000 }
    }

    /// The scalar whose bit pattern is `bits`.
    pub fn from_bits(bits: u32) -> (r: Scalar)
        ensures
            r.bits == bits,
    {
        Scalar { bits }
    }

    /// The bit pattern of this scalar.
    pub fn to_bits(&self) -> (r: u32)
        ensures
            r == self.bits,
    {
        self.bits
    }

    /// The magnitude bits.
    pub fn magnitude_bits(&self) -> (m: u32)
        ensures
            m == self.mag(),
            m < 0x8000_0000,
    {
        self.bits % 0x8000_0000
    }

    /// Whether the sign bit is set.
    pub fn is_sign_negative(&self) -> (r: bool)
        ensures
            r == self.negative(),
    {
        self.bits >= SIGN_BIT
    }

    /// Whether this is a NaN.
    pub fn is_nan(&self) -> (r: bool)
        ensures
            r == self.nan(),
    {
        self.magnitude_bits() > INF_MAG
    }

    /// Whether this is an infinity.
    pub fn is_infinite(&self) -> (r: bool)
        ensures
            r == self.infinite(),
    {
        self.magnitude_bits() == INF_MAG
    }

    /// Whether this is a number.
    pub fn is_finite(&self) -> (r: bool)
        ensures
            r == self.finite(),
    {
        self.magnitude_bits() < INF_MAG
    }

    /// Whether this is one of the two zeros.
    pub fn is_zero(&self) -> (r: bool)
        ensures
            r == self.zero(),
    {
        self.magnitude_bits() == 0
    }

    /// The magnitude bits with the sign, as an integer: two scalars that are
    /// not NaN are ordered as these integers are.
    pub fn signed_rank(&self) -> (k: i64)
        ensures
            k == self.rank(),
    {
        let m: u32 = self.magnitude_bits();
        if self.bits >= SIGN_BIT {
            -(m as i64)
        } else {
            m as i64
        }
    }

    /// Sign and magnitude bits put together.
    pub fn from_parts(negative: bool, mag: u32) -> (r: Scalar)
        requires
            mag < 0x8000_0000,
        ensures
            r == Scalar::signed(negative, mag as nat),
            r.mag() == mag,
            r.negative() == negative,
    {
        if negative {
            Scalar { bits: SIGN_BIT + mag }
        } else {
            Scalar { bits: mag }
        }
    }

    /// The significand and the exponent of a finite scalar: its magnitude is
    /// `sig * 2^exp` units.
    pub fn unpack(&self) -> (r: (u64, u32))
        requires
            self.finite(),
        ensures
            r.0 == mag_sig(self.mag()),
            r.1 == mag_exp(self.mag()),
            r.0 < 0x100_0000,
            r.1 <= 253,
            r.1 > 0 ==> r.0 >= 0x80_0000,
            mag_value(self.mag()) == r.0 * pow2(r.1 as nat),
    {
        let m: u32 = self.magnitude_bits();
        proof {
            lemma_mag_value_split(m as nat);
        }
        if m < 0x100_0000 {
            (m as u64, 0)
        } else {
            ((0x80_0000 + m % 0x80_0000) as u64, m / 0x80_0000 - 1)
        }
    }
}

/// Values are ordered as ranks are.
pub proof fn lemma_rank_order(a: Scalar, b: Scalar)
    ensures
        a.rank() < b.rank() <==> a.value() < b.value(),
        a.rank() == b.rank() <==> a.value() == b.value(),
{
    lemma_mag_value_order(a.mag(), b.mag());
    lemma_mag_value_order(0, a.mag());
    lemma_mag_value_order(0, b.mag());
}

} // verus!
