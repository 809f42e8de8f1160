//! Whole powers by squaring.

use vstd::prelude::*;
use crate::arith::{product, quotient};
use crate::scalar::{Scalar, ONE_BITS};

verus! {

/// What squaring and multiplying leaves of `acc`: for every binary digit of
/// `n`, from the lowest up, `acc` takes the current square of `base` as a
/// factor where the digit is set, and the square is squared again.
pub open spec fn power_steps(acc: Scalar, base: Scalar, n: nat) -> Scalar
    decreases n,
{
    if n == 0 {
        acc
    } else {
        power_steps(
            if n % 2 == 1 {
                product(acc, base)
            } else {
                acc
            },
            product(base, base),
            n / 2,
        )
    }
}

/// `base` to a whole power: 1 for the exponent 0, and for a negative exponent
/// 1 divided by the power with the exponent's size.
pub open spec fn power(base: Scalar, exponent: int) -> Scalar {
    let one = Scalar { bits: ONE_BITS };
    if exponent == 0 {
        one
    } else if exponent > 0 {
        power_steps(one, base, exponent as nat)
    } else {
        quotient(one, power_steps(one, base, (-exponent) as nat))
    }
}

/// `base` raised to `exponent`.
pub fn powf(base: Scalar, exponent: i32) -> (r: Scalar)
    ensures
        r == power(base, exponent as int),
        exponent == 0 ==> r.bits == ONE_BITS,
{
    let one: Scalar = Scalar::from_bits(ONE_BITS);
    if exponent == 0 {
        return one;
    }
    let size: u32 = if exponent >= 0 {
        exponent as u32
    } else if exponent == i32::MIN {
        0x8000_0000
    } else {
        (-exponent) as u32
    };
    let mut result: Scalar = one;
    let mut exp: u32 = size;
    let mut base_current: Scalar = base;
    while exp > 0
        invariant
            power_steps(result, base_current, exp as nat) == power_steps(
                Scalar { bits: ONE_BITS },
                base,
                size as nat,
            ),
        decreases exp,
    {
        if exp % 2 == 1 {
            result = result * base_current;
        }
        base_current = base_current * base_current;
        exp = exp / 2;
    }
    if exponent < 0 {
        return one / result;
    }
    result
}

} // verus!
