//! Multiplication, addition, subtraction and division of scalars.

use vstd::prelude::*;
use vstd::arithmetic::power2::{pow2, lemma_pow2_pos, lemma_pow2_adds, lemma2_to64, lemma2_to64_rest};
use vstd::std_specs::ops::{AddSpecImpl, DivSpecImpl, MulSpecImpl, NegSpecImpl, SubSpecImpl};
use core::ops::{Add, Div, Mul, Neg, Sub};
use crate::rounding::{INF_MAG, mag_exp, mag_value, lemma_mag_value_order, lemma_round_mag_exact};
use crate::pack::{bit_length, pow2_u64, round_scaled, scaled_exactly, scaled_within, lemma_scaled_order};
use crate::scalar::{Scalar, NAN_BITS, SIGN_BIT};

verus! {

/// The product of two scalars: the exact product of their values, rounded.
/// Zero times infinity is NaN; the sign of every other product, zero and
/// infinity included, is negative where exactly one factor's is.
pub open spec fn product(a: Scalar, b: Scalar) -> Scalar {
    let negative = a.negative() != b.negative();
    if a.nan() || b.nan() {
        Scalar::nan_value()
    } else if a.infinite() || b.infinite() {
        if a.zero() || b.zero() {
            Scalar::nan_value()
        } else {
            Scalar::signed(negative, INF_MAG as nat)
        }
    } else {
        Scalar::rounded(negative, mag_value(a.mag()) * mag_value(b.mag()), pow2(149))
    }
}

impl MulSpecImpl for Scalar {
    open spec fn obeys_mul_spec() -> bool {
        true
    }

    open spec fn mul_req(self, rhs: Scalar) -> bool {
        true
    }

    open spec fn mul_spec(self, rhs: Scalar) -> Scalar {
        product(self, rhs)
    }
}

impl Mul for Scalar {
    type Output = Scalar;

    fn mul(self, rhs: Scalar) -> (r: Scalar)
        ensures
            r == product(self, rhs),
    {
        let negative: bool = self.is_sign_negative() != rhs.is_sign_negative();
        if self.is_nan() || rhs.is_nan() {
            return Scalar::from_bits(NAN_BITS);
        }
        if self.is_infinite() || rhs.is_infinite() {
            if self.is_zero() || rhs.is_zero() {
                return Scalar::from_bits(NAN_BITS);
            }
            return Scalar::from_parts(negative, INF_MAG);
        }
        let (sa, ea) = self.unpack();
        let (sb, eb) = rhs.unpack();
        assert(sa * sb < 0x100_0000 * 0x100_0000) by (nonlinear_arith)
            requires
                sa < 0x100_0000,
                sb < 0x100_0000,
        ;
        let sig: u64 = sa * sb;
        let e: u32 = ea + eb + 107;
        let ghost n = mag_value(self.mag()) * mag_value(rhs.mag());
        let ghost d = pow2(149);
        proof {
            let a = pow2(ea as nat) as int;
            let b = pow2(eb as nat) as int;
            let unit = pow2(256) as int;
            lemma_pow2_pos(149);
            lemma_pow2_adds(e as nat, 149);
            lemma_pow2_adds(ea as nat, eb as nat);
            lemma_pow2_adds((ea + eb) as nat, 256);
            let ed = pow2(e as nat) * pow2(149);
            assert(ed == a * b * unit);
            assert(sig * pow2(e as nat) * d == (sa * sb) * ed) by (nonlinear_arith)
                requires
                    sig == sa * sb,
                    ed == pow2(e as nat) * d,
            ;
            assert(n * unit == (sa * sb) * ed) by (nonlinear_arith)
                requires
                    n == (sa * a) * (sb * b),
                    ed == a * b * unit,
            ;
        }
        let m: u32 = round_scaled(sig, e, false, Ghost(n), Ghost(d));
        Scalar::from_parts(negative, m)
    }
}

/// The same number with the other sign: the sign bit is flipped, whatever
/// the magnitude bits hold.
pub open spec fn negation(a: Scalar) -> Scalar {
    Scalar::signed(!a.negative(), a.mag())
}

impl NegSpecImpl for Scalar {
    open spec fn obeys_neg_spec() -> bool {
        true
    }

    open spec fn neg_req(self) -> bool {
        true
    }

    open spec fn neg_spec(self) -> Scalar {
        negation(self)
    }
}

impl Neg for Scalar {
    type Output = Scalar;

    fn neg(self) -> (r: Scalar)
        ensures
            r == negation(self),
    {
        if self.bits >= SIGN_BIT {
            Scalar { bits: self.bits - SIGN_BIT }
        } else {
            Scalar { bits: self.bits + SIGN_BIT }
        }
    }
}

/// The sum of two scalars: the exact sum of their values, rounded. Infinities
/// of opposite sign have no sum. A sum that is exactly zero is +0, unless both
/// terms are negative (then both are -0, and so is the sum).
pub open spec fn sum(a: Scalar, b: Scalar) -> Scalar {
    if a.nan() || b.nan() {
        Scalar::nan_value()
    } else if a.infinite() {
        if b.infinite() && a.negative() != b.negative() {
            Scalar::nan_value()
        } else {
            Scalar::signed(a.negative(), INF_MAG as nat)
        }
    } else if b.infinite() {
        Scalar::signed(b.negative(), INF_MAG as nat)
    } else {
        let total = a.value() + b.value();
        if total == 0 {
            Scalar::signed(a.negative() && b.negative(), 0)
        } else if total < 0 {
            Scalar::rounded(true, (-total) as nat, 1)
        } else {
            Scalar::rounded(false, total as nat, 1)
        }
    }
}

/// The difference of two scalars: the sum of the first and the negated second.
pub open spec fn difference(a: Scalar, b: Scalar) -> Scalar {
    sum(a, negation(b))
}

/// The sum does not depend on the order of its terms.
pub proof fn lemma_sum_commutes(a: Scalar, b: Scalar)
    ensures
        sum(a, b) == sum(b, a),
{
}

/// The value of a finite scalar from its parts.
proof fn lemma_value_parts(a: Scalar, sig: nat, exp: nat)
    requires
        mag_value(a.mag()) == sig * pow2(exp),
    ensures
        a.value() == (if a.negative() {
            -(sig as int)
        } else {
            sig as int
        }) * pow2(exp),
{
    let s = sig as int;
    let p = pow2(exp) as int;
    assert((-s) * p == -(s * p)) by (nonlinear_arith);
}

/// The sum of two integers that share a power of two as their scale.
proof fn lemma_sum_scaled(ta: int, tb: int, diff: nat, low: nat)
    ensures
        ta * pow2(diff + low) + tb * pow2(low) == (ta * pow2(diff) + tb) * pow2(low),
{
    lemma_pow2_adds(diff, low);
    let pd = pow2(diff) as int;
    let pl = pow2(low) as int;
    assert(ta * (pd * pl) + tb * pl == (ta * pd + tb) * pl) by (nonlinear_arith);
}

/// An integer total, scaled, as `round_scaled` takes it.
proof fn lemma_total_scaled(t: int, low: nat)
    ensures
        t > 0 ==> t * pow2(low) > 0 && scaled_exactly((t * pow2(low)) as nat, 1, t as nat, low + 256),
        t < 0 ==> t * pow2(low) < 0 && scaled_exactly(
            (-(t * pow2(low))) as nat,
            1,
            (-t) as nat,
            low + 256,
        ),
        t == 0 ==> t * pow2(low) == 0,
{
    lemma_pow2_pos(low);
    lemma_pow2_adds(low, 256);
    let pl = pow2(low) as int;
    let unit = pow2(256) as int;
    assert(t > 0 ==> t * pl > 0) by (nonlinear_arith)
        requires
            pl > 0,
    ;
    assert(t < 0 ==> t * pl < 0) by (nonlinear_arith)
        requires
            pl > 0,
    ;
    assert(t == 0 ==> t * pl == 0) by (nonlinear_arith);
    assert((t * pl) * unit == t * (pl * unit) * 1) by (nonlinear_arith);
    assert((-(t * pl)) * unit == (-t) * (pl * unit) * 1) by (nonlinear_arith);
}

/// The sum of two finite scalars of which the first has the exponent that is
/// not the smaller.
fn add_finite(a: Scalar, b: Scalar) -> (r: Scalar)
    requires
        a.finite(),
        b.finite(),
        mag_exp(a.mag()) >= mag_exp(b.mag()),
    ensures
        r == sum(a, b),
{
    let (sa, ea) = a.unpack();
    let (sb, eb) = b.unpack();
    let diff: u32 = ea - eb;
    proof {
        lemma_value_parts(a, sa as nat, ea as nat);
        lemma_value_parts(b, sb as nat, eb as nat);
        lemma2_to64();
        lemma2_to64_rest();
    }
    if diff <= 32 {
        let factor: u64 = pow2_u64(diff);
        proof {
            if diff < 32 {
                vstd::arithmetic::power2::lemma_pow2_strictly_increases(diff as nat, 32);
            }
            assert(sa * factor < 0x100_0000 * 0x1_0000_0000) by (nonlinear_arith)
                requires
                    sa < 0x100_0000,
                    factor <= 0x1_0000_0000,
            ;
        }
        let lifted: u64 = sa * factor;
        let ta: i64 = if a.is_sign_negative() {
            -(lifted as i64)
        } else {
            lifted as i64
        };
        let tb: i64 = if b.is_sign_negative() {
            -(sb as i64)
        } else {
            sb as i64
        };
        let t: i64 = ta + tb;
        proof {
            let sign_a: int = if a.negative() {
                -1
            } else {
                1
            };
            assert(ta == (sign_a * sa) * pow2(diff as nat)) by (nonlinear_arith)
                requires
                    ta == sign_a * lifted,
                    lifted == sa * factor,
                    factor == pow2(diff as nat),
            ;
            lemma_sum_scaled(sign_a * sa, tb as int, diff as nat, eb as nat);
            assert(a.value() + b.value() == t * pow2(eb as nat));
            lemma_total_scaled(t as int, eb as nat);
        }
        if t == 0 {
            Scalar::from_parts(a.is_sign_negative() && b.is_sign_negative(), 0)
        } else if t < 0 {
            let m: u32 = round_scaled(
                (-t) as u64,
                eb + 256,
                false,
                Ghost((-(a.value() + b.value())) as nat),
                Ghost(1),
            );
            Scalar::from_parts(true, m)
        } else {
            let m: u32 = round_scaled(
                t as u64,
                eb + 256,
                false,
                Ghost((a.value() + b.value()) as nat),
                Ghost(1),
            );
            Scalar::from_parts(false, m)
        }
    } else if sb == 0 {
        proof {
            assert(sb * pow2(eb as nat) == 0) by (nonlinear_arith)
                requires
                    sb == 0,
            ;
            lemma_pow2_pos(ea as nat);
            assert(sa * pow2(ea as nat) > 0) by (nonlinear_arith)
                requires
                    sa > 0,
                    pow2(ea as nat) > 0,
            ;
            assert(mag_value(a.mag()) * 1 == mag_value(a.mag())) by (nonlinear_arith);
            lemma_round_mag_exact(mag_value(a.mag()), 1, a.mag());
        }
        a
    } else {
        // the smaller term is less than an eighth of the last place of the
        // larger: only that it is there, and its sign, count
        let same: bool = a.is_sign_negative() == b.is_sign_negative();
        let sig: u64 = if same {
            sa * 8
        } else {
            sa * 8 - 1
        };
        let ghost n = if same {
            mag_value(a.mag()) + mag_value(b.mag())
        } else {
            (mag_value(a.mag()) - mag_value(b.mag())) as nat
        };
        proof {
            lemma_far_apart(sa as nat, ea as nat, sb as nat, eb as nat, same);
        }
        let m: u32 = round_scaled(sig, ea - 3 + 256, true, Ghost(n), Ghost(1));
        Scalar::from_parts(a.is_sign_negative(), m)
    }
}

/// Two magnitudes whose exponents lie far apart: the sum and the difference
/// lie strictly between two neighbouring eighths of the last place of the
/// larger.
proof fn lemma_far_apart(sa: nat, ea: nat, sb: nat, eb: nat, same: bool)
    requires
        0x80_0000 <= sa < 0x100_0000,
        0 < sb < 0x100_0000,
        ea >= eb + 27,
    ensures
        sa * pow2(ea) > sb * pow2(eb),
        same ==> scaled_within(sa * pow2(ea) + sb * pow2(eb), 1, sa * 8, (ea - 3 + 256) as nat),
        !same ==> scaled_within(
            (sa * pow2(ea) - sb * pow2(eb)) as nat,
            1,
            (sa * 8 - 1) as nat,
            (ea - 3 + 256) as nat,
        ),
{
    let grain = pow2((ea - 3) as nat) as int;
    let unit = pow2(256) as int;
    let big = (sa * pow2(ea)) as int;
    let small = (sb * pow2(eb)) as int;
    lemma2_to64();
    lemma_pow2_adds(3, (ea - 3) as nat);
    lemma_pow2_adds((ea - 3) as nat, 256);
    lemma_pow2_adds(24, eb);
    lemma_pow2_pos(eb);
    lemma_pow2_pos((ea - 3) as nat);
    lemma_pow2_pos(256);
    if eb + 24 < ea - 3 {
        vstd::arithmetic::power2::lemma_pow2_strictly_increases(eb + 24, (ea - 3) as nat);
    }
    assert(big == (sa * 8) * grain) by (nonlinear_arith)
        requires
            big == sa * pow2(ea),
            pow2(ea) == 8 * grain,
    ;
    assert(0 < small < grain) by (nonlinear_arith)
        requires
            small == sb * pow2(eb),
            0 < sb < 0x100_0000,
            pow2(eb) > 0,
            0x100_0000 * pow2(eb) <= grain,
    ;
    assert(big >= 8 * grain) by (nonlinear_arith)
        requires
            big == (sa * 8) * grain,
            sa >= 1,
            grain > 0,
    ;
    let ge = pow2((ea - 3 + 256) as nat) as int;
    assert(ge == grain * unit);
    if same {
        let n = big + small;
        assert((sa * 8) * ge * 1 == big * unit && (sa * 8 + 1) * ge * 1 == (big + grain) * unit
            && n * unit == big * unit + small * unit) by (nonlinear_arith)
            requires
                big == (sa * 8) * grain,
                ge == grain * unit,
                n == big + small,
        ;
        assert(0 < small * unit < grain * unit) by (nonlinear_arith)
            requires
                0 < small < grain,
                unit > 0,
        ;
        assert((big + grain) * unit == big * unit + grain * unit) by (nonlinear_arith);
    } else {
        let n = big - small;
        assert((sa * 8 - 1) * ge * 1 == (big - grain) * unit && (sa * 8 - 1 + 1) * ge * 1 == big
            * unit && n * unit == big * unit - small * unit) by (nonlinear_arith)
            requires
                big == (sa * 8) * grain,
                ge == grain * unit,
                n == big - small,
        ;
        assert(0 < small * unit < grain * unit) by (nonlinear_arith)
            requires
                0 < small < grain,
                unit > 0,
        ;
        assert((big - grain) * unit == big * unit - grain * unit) by (nonlinear_arith);
    }
}

impl AddSpecImpl for Scalar {
    open spec fn obeys_add_spec() -> bool {
        true
    }

    open spec fn add_req(self, rhs: Scalar) -> bool {
        true
    }

    open spec fn add_spec(self, rhs: Scalar) -> Scalar {
        sum(self, rhs)
    }
}

impl Add for Scalar {
    type Output = Scalar;

    fn add(self, rhs: Scalar) -> (r: Scalar)
        ensures
            r == sum(self, rhs),
    {
        if self.is_nan() || rhs.is_nan() {
            return Scalar::from_bits(NAN_BITS);
        }
        if self.is_infinite() {
            if rhs.is_infinite() && self.is_sign_negative() != rhs.is_sign_negative() {
                return Scalar::from_bits(NAN_BITS);
            }
            return Scalar::from_parts(self.is_sign_negative(), INF_MAG);
        }
        if rhs.is_infinite() {
            return Scalar::from_parts(rhs.is_sign_negative(), INF_MAG);
        }
        let (_, ea) = self.unpack();
        let (_, eb) = rhs.unpack();
        if ea >= eb {
            add_finite(self, rhs)
        } else {
            proof {
                lemma_sum_commutes(self, rhs);
            }
            add_finite(rhs, self)
        }
    }
}

impl SubSpecImpl for Scalar {
    open spec fn obeys_sub_spec() -> bool {
        true
    }

    open spec fn sub_req(self, rhs: Scalar) -> bool {
        true
    }

    open spec fn sub_spec(self, rhs: Scalar) -> Scalar {
        difference(self, rhs)
    }
}

impl Sub for Scalar {
    type Output = Scalar;

    fn sub(self, rhs: Scalar) -> (r: Scalar)
        ensures
            r == difference(self, rhs),
    {
        self + rhs.neg()
    }
}

/// The quotient of two scalars: the exact quotient of their values, rounded.
/// Zero by zero and infinity by infinity have no quotient; any other number
/// by zero is infinite. The sign is negative where exactly one operand's is.
pub open spec fn quotient(a: Scalar, b: Scalar) -> Scalar {
    let negative = a.negative() != b.negative();
    if a.nan() || b.nan() {
        Scalar::nan_value()
    } else if a.infinite() {
        if b.infinite() {
            Scalar::nan_value()
        } else {
            Scalar::signed(negative, INF_MAG as nat)
        }
    } else if b.infinite() {
        Scalar::signed(negative, 0)
    } else if b.zero() {
        if a.zero() {
            Scalar::nan_value()
        } else {
            Scalar::signed(negative, INF_MAG as nat)
        }
    } else {
        Scalar::rounded(negative, mag_value(a.mag()) * pow2(149), mag_value(b.mag()))
    }
}

/// A non-zero significand lifted until its top bit is the 24th, and by how
/// many bits it was lifted.
fn normalize(sig: u64) -> (r: (u64, u32))
    requires
        0 < sig < 0x100_0000,
    ensures
        r.1 <= 23,
        r.0 == sig * pow2(r.1 as nat),
        0x80_0000 <= r.0 < 0x100_0000,
{
    let len: u32 = bit_length(sig);
    proof {
        lemma2_to64();
        if len > 24 {
            vstd::arithmetic::power2::lemma_pow2_strictly_increases(24, (len - 1) as nat);
        }
    }
    let up: u32 = 24 - len;
    let factor: u64 = pow2_u64(up);
    proof {
        lemma_pow2_adds(len as nat, up as nat);
        lemma_pow2_adds((len - 1) as nat, up as nat);
        assert(pow2((len - 1) as nat) * factor <= sig * factor < pow2(len as nat) * factor)
            by (nonlinear_arith)
            requires
                pow2((len - 1) as nat) <= sig < pow2(len as nat),
                factor > 0,
        ;
    }
    (sig * factor, up)
}

/// The quotient of two normalized significands, with 26 bits behind the point,
/// stands for the quotient of the magnitudes.
proof fn lemma_quotient_scaled(
    sa: nat,
    ea: nat,
    ha: nat,
    sb: nat,
    eb: nat,
    hb: nat,
    q: nat,
    rem: nat,
)
    requires
        sb > 0,
        ha <= 23,
        ea + hb + 379 >= eb + ha,
        sa * pow2(ha) * 0x400_0000 == q * (sb * pow2(hb)) + rem,
        rem < sb * pow2(hb),
    ensures
        ({
            let n = sa * pow2(ea) * pow2(149);
            let d = sb * pow2(eb);
            let e = (ea + hb + 379 - eb - ha) as nat;
            &&& d > 0
            &&& rem == 0 ==> scaled_exactly(n, d, q, e)
            &&& rem > 0 ==> scaled_within(n, d, q, e)
        }),
{
    let e = (ea + hb + 379 - eb - ha) as nat;
    let n = (sa * pow2(ea) * pow2(149)) as int;
    let d = (sb * pow2(eb)) as int;
    let unit = pow2(256) as int;
    let pe = pow2(e) as int;
    let top = pow2(ea + 405) as int;
    let z = pow2(ha + 26) as int;
    let na = (sa * pow2(ha)) as int;
    let nb = (sb * pow2(hb)) as int;
    lemma2_to64();
    lemma_pow2_pos(eb);
    lemma_pow2_pos(ha + 26);
    lemma_pow2_pos(ea + 405);
    lemma_pow2_adds(ha, 26);
    lemma_pow2_adds(ea, 149);
    lemma_pow2_adds(ea + 149, 256);
    lemma_pow2_adds(e, eb);
    lemma_pow2_adds(e + eb, ha + 26);
    lemma_pow2_adds(hb, ea + 405);
    assert(e + eb + ha + 26 == hb + ea + 405);
    assert(d > 0) by (nonlinear_arith)
        requires
            d == sb * pow2(eb),
            sb > 0,
            pow2(eb) > 0,
    ;
    // both sides, times `z`, as multiples of `top`
    let x = n * unit;
    let pea = pow2(ea) as int;
    let pha = pow2(ha) as int;
    let t = pea * pow2(149) * unit;
    assert(t == top);
    assert(x * z == (sa * pha * 0x400_0000) * t) by (nonlinear_arith)
        requires
            x == (sa * pea * pow2(149)) * unit,
            z == pha * 0x400_0000,
            t == pea * pow2(149) * unit,
    ;
    let y = q * pe * d;
    let y1 = (q + 1) * pe * d;
    let peb = pow2(eb) as int;
    let phb = pow2(hb) as int;
    let c = pe * peb * z;
    assert(c == phb * top);
    lemma_shuffle(q as int, pe, sb as int, peb, z);
    lemma_shuffle((q + 1) as int, pe, sb as int, peb, z);
    lemma_gather(q as int, sb as int, phb, top);
    lemma_gather((q + 1) as int, sb as int, phb, top);
    assert((q + 1) * nb == q * nb + nb) by (nonlinear_arith);
    lemma_scaled_order(q * nb, na * 0x400_0000, top);
    lemma_scaled_order(na * 0x400_0000, q * nb + nb, top);
    lemma_scaled_order(y, x, z);
    lemma_scaled_order(x, y1, z);
}

/// A product of five factors, regrouped.
proof fn lemma_shuffle(q: int, pe: int, sb: int, peb: int, z: int)
    by (nonlinear_arith)
    ensures
        (q * pe * (sb * peb)) * z == (q * sb) * (pe * peb * z),
{
}

/// A product of four factors, regrouped.
proof fn lemma_gather(q: int, sb: int, phb: int, top: int)
    by (nonlinear_arith)
    ensures
        (q * sb) * (phb * top) == (q * (sb * phb)) * top,
{
}

impl DivSpecImpl for Scalar {
    open spec fn obeys_div_spec() -> bool {
        true
    }

    open spec fn div_req(self, rhs: Scalar) -> bool {
        true
    }

    open spec fn div_spec(self, rhs: Scalar) -> Scalar {
        quotient(self, rhs)
    }
}

impl Div for Scalar {
    type Output = Scalar;

    fn div(self, rhs: Scalar) -> (r: Scalar)
        ensures
            r == quotient(self, rhs),
    {
        let negative: bool = self.is_sign_negative() != rhs.is_sign_negative();
        if self.is_nan() || rhs.is_nan() {
            return Scalar::from_bits(NAN_BITS);
        }
        if self.is_infinite() {
            if rhs.is_infinite() {
                return Scalar::from_bits(NAN_BITS);
            }
            return Scalar::from_parts(negative, INF_MAG);
        }
        if rhs.is_infinite() {
            return Scalar::from_parts(negative, 0);
        }
        if rhs.is_zero() {
            if self.is_zero() {
                return Scalar::from_bits(NAN_BITS);
            }
            return Scalar::from_parts(negative, INF_MAG);
        }
        let (sa, ea) = self.unpack();
        let (sb, eb) = rhs.unpack();
        proof {
            lemma_mag_value_order(0, rhs.mag());
        }
        if sa == 0 {
            proof {
                let d = mag_value(rhs.mag());
                assert(mag_value(self.mag()) * pow2(149) == 0 && mag_value(0) * d == 0)
                    by (nonlinear_arith)
                    requires
                        mag_value(self.mag()) == 0,
                        mag_value(0) == 0,
                ;
                lemma_round_mag_exact(0, d, 0);
            }
            return Scalar::from_parts(negative, 0);
        }
        let (na, ha) = normalize(sa);
        let (nb, hb) = normalize(sb);
        let num: u64 = na * 0x400_0000;
        let q: u64 = num / nb;
        let rem: u64 = num % nb;
        let e: u32 = ea + hb + 379 - eb - ha;
        proof {
            vstd::arithmetic::div_mod::lemma_fundamental_div_mod(num as int, nb as int);
            assert(q < 0x800_0000 && q >= 0x200_0000) by (nonlinear_arith)
                requires
                    num == nb * q + rem,
                    0 <= rem < nb,
                    num == na * 0x400_0000,
                    0x80_0000 <= na < 0x100_0000,
                    0x80_0000 <= nb < 0x100_0000,
            ;
            assert(num == q * nb + rem) by (nonlinear_arith)
                requires
                    num == nb * q + rem,
            ;
            lemma_quotient_scaled(
                sa as nat,
                ea as nat,
                ha as nat,
                sb as nat,
                eb as nat,
                hb as nat,
                q as nat,
                rem as nat,
            );
        }
        let m: u32 = round_scaled(
            q,
            e,
            rem != 0,
            Ghost(mag_value(self.mag()) * pow2(149)),
            Ghost(mag_value(rhs.mag())),
        );
        Scalar::from_parts(negative, m)
    }
}

/// The scalar nearest to a whole number.
pub open spec fn from_whole(v: nat) -> Scalar {
    Scalar::rounded(false, v * pow2(149), 1)
}

impl Scalar {
    /// The scalar nearest to `v`: `v` itself up to 2^24, and beyond that the
    /// nearest number with 24 significant bits.
    pub fn from_u32(v: u32) -> (r: Scalar)
        ensures
            r == from_whole(v as nat),
    {
        let ghost n = v as nat * pow2(149);
        proof {
            lemma_pow2_adds(149, 256);
            assert(n * pow2(256) == v * pow2(405) * 1) by (nonlinear_arith)
                requires
                    n == v * pow2(149),
                    pow2(405) == pow2(149) * pow2(256),
            ;
        }
        let m: u32 = round_scaled(v as u64, 405, false, Ghost(n), Ghost(1));
        Scalar::from_parts(false, m)
    }
}

} // verus!
