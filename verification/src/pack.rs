//! Rounding a scaled integer to magnitude bits, in machine arithmetic.
//!
//! The arithmetic operations reduce their exact result to a significand `sig`
//! and an exponent `e`, meaning `sig * 2^(e - SCALE_BIAS)` units, possibly with
//! a remainder below one step of `sig` that is known only to be non-zero.
//! `round_scaled` turns that into the nearest magnitude bits.

use vstd::prelude::*;
use vstd::arithmetic::power2::{pow2, lemma_pow2_pos, lemma_pow2_adds, lemma_pow2_unfold, lemma_pow2_strictly_increases, lemma2_to64, lemma2_to64_rest};
use vstd::arithmetic::div_mod::{lemma_fundamental_div_mod, lemma_mod_bound};
use crate::rounding::{INF_MAG, mag_value, round_mag, lemma_mag_value_scaled, lemma_round_mag_exact, lemma_round_mag_overflow, lemma_round_mag_between};

verus! {

/// The offset of the exponents handed to `round_scaled`.
pub const SCALE_BIAS: u32 = 256;

/// `n / d` units is `sig * 2^(e - SCALE_BIAS)` units.
pub open spec fn scaled_exactly(n: nat, d: nat, sig: nat, e: nat) -> bool {
    n * pow2(256) == sig * pow2(e) * d
}

/// `n / d` units lies strictly between `sig` and `sig + 1`, times
/// `2^(e - SCALE_BIAS)` units.
pub open spec fn scaled_within(n: nat, d: nat, sig: nat, e: nat) -> bool {
    sig * pow2(e) * d < n * pow2(256) < (sig + 1) * pow2(e) * d
}

/// 2 to the power `k`.
pub fn pow2_u64(k: u32) -> (p: u64)
    requires
        k < 64,
    ensures
        p == pow2(k as nat),
{
    let mut p: u64 = 1;
    let mut i: u32 = 0;
    proof {
        lemma2_to64();
    }
    while i < k
        invariant
            i <= k,
            k < 64,
            p == pow2(i as nat),
        decreases k - i,
    {
        proof {
            lemma_pow2_unfold((i + 1) as nat);
            lemma_pow2_strictly_increases((i + 1) as nat, 64);
            lemma2_to64();
        }
        p = p * 2;
        i = i + 1;
    }
    p
}

/// The number of bits needed to write `x`.
pub fn bit_length(x: u64) -> (len: u32)
    requires
        x < 0x8000_0000_0000_0000,
    ensures
        len <= 63,
        x < pow2(len as nat),
        len > 0 ==> pow2((len - 1) as nat) <= x,
        len == 0 <==> x == 0,
{
    let mut len: u32 = 0;
    let mut p: u64 = 1;
    proof {
        lemma2_to64();
        lemma2_to64_rest();
    }
    while p <= x
        invariant
            len <= 63,
            p == pow2(len as nat),
            x < 0x8000_0000_0000_0000,
            len > 0 ==> pow2((len - 1) as nat) <= x,
            len == 0 ==> p == 1,
            pow2(63) == 0x8000_0000_0000_0000,
        decreases 64 - len,
    {
        proof {
            lemma_pow2_unfold((len + 1) as nat);
            if len >= 62 {
                lemma_pow2_strictly_increases(62, (len + 1) as nat);
                lemma_pow2_unfold(63);
            }
        }
        p = p * 2;
        len = len + 1;
    }
    len
}

/// Multiplying by a positive factor keeps the order.
pub(crate) proof fn lemma_scaled_order(a: int, b: int, w: int)
    by (nonlinear_arith)
    requires
        w > 0,
    ensures
        a < b <==> a * w < b * w,
        a == b <==> a * w == b * w,
        a <= b <==> a * w <= b * w,
{
}

/// Moving a power of two from one side of a scaled product to the other.
proof fn lemma_regroup(a: int, grain: int, d: int, unit: int, scale: int, step: int)
    requires
        grain * unit == scale * step,
    ensures
        (a * grain * d) * unit == (a * step) * (scale * d),
{
    let gu = grain * unit;
    assert((a * grain * d) * unit == (a * d) * gu) by (nonlinear_arith)
        requires
            gu == grain * unit,
    ;
    assert((a * step) * (scale * d) == (a * d) * gu) by (nonlinear_arith)
        requires
            gu == scale * step,
    ;
}

/// Where a scaled integer falls between the multiples of `2^k`, once its low
/// `r` bits are split off; `k` is `e + r - SCALE_BIAS`.
proof fn lemma_bracket(n: nat, d: nat, sig: nat, e: nat, r: nat, sticky: bool)
    requires
        d > 0,
        r > 0,
        e + r >= 256,
        if sticky {
            scaled_within(n, d, sig, e)
        } else {
            scaled_exactly(n, d, sig, e)
        },
    ensures
        ({
            let step = pow2(r);
            let grain = pow2((e + r - 256) as nat);
            let mant = sig / step;
            let rem = sig % step;
            &&& mant * grain * d <= n < (mant + 1) * grain * d
            &&& !sticky ==> (2 * n < (2 * mant + 1) * grain * d <==> 2 * rem < step)
            &&& !sticky ==> (2 * n == (2 * mant + 1) * grain * d <==> 2 * rem == step)
            &&& sticky ==> (2 * rem < step ==> 2 * n < (2 * mant + 1) * grain * d)
            &&& sticky ==> (2 * rem >= step ==> 2 * n > (2 * mant + 1) * grain * d)
        }),
{
    let k = (e + r - 256) as nat;
    let step = pow2(r) as int;
    let grain = pow2(k) as int;
    let unit = pow2(256) as int;
    let scale = pow2(e) as int;
    let mant = (sig / pow2(r)) as int;
    let rem = (sig % pow2(r)) as int;
    let w = scale * d;
    let x = n * unit;
    lemma_pow2_pos(r);
    lemma_pow2_pos(k);
    lemma_pow2_pos(256);
    lemma_pow2_pos(e);
    lemma_pow2_adds(k, 256);
    lemma_pow2_adds(e, r);
    lemma_pow2_unfold(r);
    assert(grain * unit == scale * step);
    lemma_fundamental_div_mod(sig as int, step);
    lemma_mod_bound(sig as int, step);
    assert(sig == step * mant + rem);
    assert(w > 0) by (nonlinear_arith)
        requires
            w == scale * d,
            scale > 0,
            d > 0,
    ;
    let ms = mant * step;
    assert(sig == ms + rem) by (nonlinear_arith)
        requires
            sig == step * mant + rem,
            ms == mant * step,
    ;
    let low = mant * grain * d;
    let high = (mant + 1) * grain * d;
    let mid = (2 * mant + 1) * grain * d;
    lemma_regroup(mant, grain, d as int, unit, scale, step);
    lemma_regroup(mant + 1, grain, d as int, unit, scale, step);
    lemma_regroup(2 * mant + 1, grain, d as int, unit, scale, step);
    assert((mant + 1) * step == ms + step && (2 * mant + 1) * step == 2 * ms + step)
        by (nonlinear_arith)
        requires
            ms == mant * step,
    ;
    let s = sig as int;
    let sw = s * w;
    let sw1 = (s + 1) * w;
    assert(sw == sig * scale * d && sw1 == (sig + 1) * scale * d && (2 * s) * w == 2 * sw && (2 * s
        + 2) * w == 2 * sw1 && (2 * n) * unit == 2 * x) by (nonlinear_arith)
        requires
            sw == s * w,
            sw1 == (s + 1) * w,
            s == sig,
            w == scale * d,
            x == n * unit,
    ;
    // everything is compared as a multiple of `w`
    lemma_scaled_order(ms, s, w);
    lemma_scaled_order(s, ms + step, w);
    lemma_scaled_order(s + 1, ms + step, w);
    lemma_scaled_order(2 * s, 2 * ms + step, w);
    lemma_scaled_order(2 * s + 2, 2 * ms + step, w);
    lemma_scaled_order(2 * ms + step, 2 * s, w);
    lemma_scaled_order(low, n as int, unit);
    lemma_scaled_order(n as int, high, unit);
    lemma_scaled_order(2 * (n as int), mid, unit);
    lemma_scaled_order(mid, 2 * (n as int), unit);
}

/// A scaled integer that can be lifted by `up` bits without passing the units
/// is a multiple of `2^k`, with `k = e - SCALE_BIAS - up`.
proof fn lemma_exact(n: nat, d: nat, sig: nat, e: nat, up: nat)
    requires
        e >= 256 + up,
        scaled_exactly(n, d, sig, e),
    ensures
        n == (sig * pow2(up)) * pow2((e - 256 - up) as nat) * d,
{
    let k = (e - 256 - up) as nat;
    let unit = pow2(256) as int;
    let lift = pow2(up) as int;
    let grain = pow2(k) as int;
    let scale = pow2(e) as int;
    lemma_pow2_pos(256);
    lemma_pow2_adds(k, up);
    lemma_pow2_adds(k + up, 256);
    assert(scale == grain * lift * unit);
    let exact = (sig * lift) * grain * d;
    assert(exact * unit == sig * scale * d) by (nonlinear_arith)
        requires
            exact == (sig * lift) * grain * d,
            scale == grain * lift * unit,
    ;
    lemma_scaled_order(exact, n as int, unit);
}

/// A scaled integer whose exponent lies 64 or more below the units is less
/// than half a unit.
proof fn lemma_below_half(n: nat, d: nat, sig: nat, e: nat, sticky: bool)
    requires
        d > 0,
        sig < 0x8000_0000_0000_0000,
        e + 64 <= 256,
        if sticky {
            scaled_within(n, d, sig, e)
        } else {
            scaled_exactly(n, d, sig, e)
        },
    ensures
        2 * n < d,
{
    let unit = pow2(256) as int;
    let scale = pow2(e) as int;
    let rest = pow2((256 - e) as nat) as int;
    lemma2_to64_rest();
    lemma_pow2_pos(e);
    lemma_pow2_adds(e, (256 - e) as nat);
    if 256 - e > 64 {
        lemma_pow2_strictly_increases(64, (256 - e) as nat);
    }
    assert(rest >= 0x1_0000_0000_0000_0000);
    assert(unit == scale * rest);
    let w = scale * d;
    assert(w > 0) by (nonlinear_arith)
        requires
            w == scale * d,
            scale > 0,
            d > 0,
    ;
    let bound = (sig + 1) * w;
    assert(bound == (sig + 1) * scale * d && sig * w == sig * scale * d && sig * w < bound)
        by (nonlinear_arith)
        requires
            bound == (sig + 1) * w,
            w == scale * d,
            w > 0,
    ;
    assert(n * unit < bound);
    assert(bound <= 0x8000_0000_0000_0000 * w) by (nonlinear_arith)
        requires
            bound == (sig + 1) * w,
            sig + 1 <= 0x8000_0000_0000_0000,
            w > 0,
    ;
    assert(n * unit >= (2 * n) * (0x8000_0000_0000_0000 * scale)) by (nonlinear_arith)
        requires
            unit == scale * rest,
            rest >= 0x1_0000_0000_0000_0000,
            scale > 0,
            n >= 0,
    ;
    assert(0x8000_0000_0000_0000 * w == d * (0x8000_0000_0000_0000 * scale)) by (nonlinear_arith)
        requires
            w == scale * d,
    ;
    lemma_scaled_order(2 * (n as int), d as int, 0x8000_0000_0000_0000 * scale);
}

/// Which bits a rational takes that lies between `mant * 2^k` and the next
/// multiple of `2^k`.
proof fn lemma_finish(n: nat, d: nat, k: nat, mant: nat, up: bool)
    requires
        d > 0,
        mant < 0x100_0000,
        k > 0 ==> mant >= 0x80_0000,
        mant * pow2(k) * d <= n < (mant + 1) * pow2(k) * d,
        ({
            let middle = (2 * mant + 1) * pow2(k) * d;
            up <==> !(2 * n < middle || (2 * n == middle && mant % 2 == 0))
        }),
    ensures
        k >= 254 ==> round_mag(n, d) == INF_MAG,
        k <= 253 ==> round_mag(n, d) == k * 0x80_0000 + mant + if up {
            1nat
        } else {
            0nat
        },
{
    let grain = pow2(k);
    lemma_pow2_pos(k);
    if k >= 254 {
        lemma_mag_value_scaled(254, 0x80_0000);
        if k > 254 {
            lemma_pow2_strictly_increases(254, k);
        }
        assert(mag_value(INF_MAG as nat) * d <= mant * grain * d) by (nonlinear_arith)
            requires
                mag_value(INF_MAG as nat) == 0x80_0000 * pow2(254),
                pow2(254) <= grain,
                0x80_0000 <= mant,
                d > 0,
        ;
        lemma_round_mag_overflow(n, d);
    } else {
        let m = k * 0x80_0000 + mant;
        lemma_mag_value_scaled(k, mant);
        lemma_mag_value_scaled(k, mant + 1);
        assert((mag_value(m) + mag_value(m + 1)) * d == (2 * mant + 1) * grain * d)
            by (nonlinear_arith)
            requires
                mag_value(m) == mant * grain,
                mag_value(m + 1) == (mant + 1) * grain,
        ;
        lemma_round_mag_between(n, d, m);
    }
}

/// `sig` lifted by `up` bits, where 24 bits hold the result.
fn lift(sig: u64, len: u32, up: u32) -> (mant: u64)
    requires
        len > 0,
        len + up <= 24,
        pow2((len - 1) as nat) <= sig < pow2(len as nat),
    ensures
        mant == sig * pow2(up as nat),
        mant < 0x100_0000,
        len + up == 24 ==> mant >= 0x80_0000,
{
    let factor: u64 = pow2_u64(up);
    proof {
        lemma2_to64();
        lemma_pow2_adds(len as nat, up as nat);
        lemma_pow2_adds((len - 1) as nat, up as nat);
        if len + up < 24 {
            lemma_pow2_strictly_increases((len + up) as nat, 24);
        }
        assert(pow2((len - 1) as nat) * factor <= sig * factor < pow2(len as nat) * factor)
            by (nonlinear_arith)
            requires
                pow2((len - 1) as nat) <= sig < pow2(len as nat),
                factor > 0,
        ;
    }
    sig * factor
}

/// `sig` without its low `r` bits, and those bits, where 24 bits hold what is
/// left. The third part is `2^(r - 1)`, half of what the low bits can reach.
fn split_low(sig: u64, len: u32, r: u32) -> (parts: (u64, u64, u64))
    requires
        0 < r < 64,
        0 < len <= 24 + r,
        pow2((len - 1) as nat) <= sig < pow2(len as nat),
    ensures
        parts.0 == sig as nat / pow2(r as nat),
        parts.1 == sig as nat % pow2(r as nat),
        parts.2 == pow2((r - 1) as nat),
        pow2(r as nat) == 2 * parts.2,
        parts.0 < 0x100_0000,
        len == 24 + r ==> parts.0 >= 0x80_0000,
{
    let step: u64 = pow2_u64(r);
    let half: u64 = pow2_u64(r - 1);
    proof {
        lemma_pow2_pos(r as nat);
    }
    let mant: u64 = sig / step;
    let rem: u64 = sig % step;
    proof {
        lemma2_to64();
        lemma_pow2_unfold(r as nat);
        lemma_fundamental_div_mod(sig as int, step as int);
        lemma_pow2_adds(24, r as nat);
        lemma_pow2_adds(23, r as nat);
        if len < 24 + r {
            lemma_pow2_strictly_increases(len as nat, (24 + r) as nat);
        }
        assert(mant < 0x100_0000) by (nonlinear_arith)
            requires
                sig == step * mant + rem,
                sig < 0x100_0000 * step,
                step > 0,
        ;
        if len == 24 + r {
            assert(mant >= 0x80_0000) by (nonlinear_arith)
                requires
                    sig == step * mant + rem,
                    sig >= 0x80_0000 * step,
                    rem < step,
                    step > 0,
            ;
        }
    }
    (mant, rem, half)
}

/// A multiple of `2^k` lies below the next multiple, and below the middle
/// between the two.
proof fn lemma_exact_bracket(mant: nat, k: nat, d: nat)
    requires
        d > 0,
    ensures
        mant * pow2(k) * d < (mant + 1) * pow2(k) * d,
        2 * (mant * pow2(k) * d) < (2 * mant + 1) * pow2(k) * d,
{
    let grain = pow2(k);
    lemma_pow2_pos(k);
    assert(mant * grain * d < (mant + 1) * grain * d && 2 * (mant * grain * d) < (2 * mant + 1)
        * grain * d) by (nonlinear_arith)
        requires
            grain > 0,
            d > 0,
    ;
}

/// What `round_scaled` returns for a zero significand.
proof fn lemma_round_zero(n: nat, d: nat, e: nat)
    requires
        d > 0,
        scaled_exactly(n, d, 0, e),
    ensures
        round_mag(n, d) == 0,
{
    lemma_pow2_pos(256);
    assert(0 * pow2(e) * d == 0) by (nonlinear_arith);
    assert(n == 0) by (nonlinear_arith)
        requires
            n * pow2(256) == 0,
            pow2(256) > 0,
    ;
    assert(mag_value(0) * d == 0) by (nonlinear_arith)
        requires
            mag_value(0) == 0,
    ;
    lemma_round_mag_exact(n, d, 0);
}

/// What is less than half a unit lies between 0 and 1 units, below the middle.
proof fn lemma_half_bracket(n: nat, d: nat)
    requires
        2 * n < d,
    ensures
        0 * pow2(0) * d <= n < (0 + 1) * pow2(0) * d,
        2 * n < (2 * 0 + 1) * pow2(0) * d,
{
    lemma2_to64();
    assert(0 * pow2(0) * d == 0 && (0 + 1) * pow2(0) * d == d && (2 * 0 + 1) * pow2(0) * d == d)
        by (nonlinear_arith)
        requires
            pow2(0) == 1,
    ;
}

/// The magnitude bits nearest to `sig * 2^(e - SCALE_BIAS)` units, or, with
/// `sticky`, to any value strictly between that and the same with `sig + 1`.
pub(crate) fn round_scaled(sig: u64, e: u32, sticky: bool, Ghost(n): Ghost<nat>, Ghost(d): Ghost<nat>) -> (m:
    u32)
    requires
        sig < 0x8000_0000_0000_0000,
        e <= 1024,
        d > 0,
        sticky ==> sig >= 0x200_0000,
        if sticky {
            scaled_within(n, d, sig as nat, e as nat)
        } else {
            scaled_exactly(n, d, sig as nat, e as nat)
        },
    ensures
        m <= INF_MAG,
        m == round_mag(n, d),
{
    if sig == 0 {
        proof {
            lemma_round_zero(n, d, e as nat);
        }
        return 0;
    }
    let len: u32 = bit_length(sig);
    let by_len: i32 = len as i32 - 24;
    let by_exp: i32 = 256 - e as i32;
    let r: i32 = if by_len > by_exp {
        by_len
    } else {
        by_exp
    };
    let k: i32 = e as i32 - 256 + r;
    let mant: u64;
    let up: bool;
    if r <= 0 {
        // the significand fits: it is lifted, and nothing is lost
        proof {
            if sticky {
                lemma2_to64();
                lemma_pow2_strictly_increases(len as nat, 25);
            }
        }
        mant = lift(sig, len, (-r) as u32);
        up = false;
        proof {
            lemma_exact(n, d, sig as nat, e as nat, (-r) as nat);
            lemma_exact_bracket(mant as nat, k as nat, d);
        }
    } else if r >= 64 {
        // less than half a unit is left
        mant = 0;
        up = false;
        proof {
            lemma_below_half(n, d, sig as nat, e as nat, sticky);
            lemma_half_bracket(n, d);
        }
    } else {
        let (high, rem, half) = split_low(sig, len, r as u32);
        mant = high;
        up = rem > half || (rem == half && (sticky || mant % 2 == 1));
        proof {
            lemma_bracket(n, d, sig as nat, e as nat, r as nat, sticky);
        }
    }
    proof {
        lemma_finish(n, d, k as nat, mant as nat, up);
    }
    if k >= 254 {
        INF_MAG
    } else {
        let carry: u32 = if up {
            1
        } else {
            0
        };
        (k as u32) * 0x80_0000 + (mant as u32) + carry
    }
}

} // verus!
