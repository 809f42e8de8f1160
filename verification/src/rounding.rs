//! The grid of binary32 magnitudes, and rounding to the nearest point of it.
//!
//! A magnitude is the low 31 bits of a binary32 pattern: eight bits of biased
//! exponent above 23 bits of fraction. Magnitudes are measured in *units* of
//! 2^-149, the smallest positive subnormal, so that every finite magnitude is a
//! natural number. Infinity takes the place that 2^128 would have on the grid.

use vstd::prelude::*;
use vstd::arithmetic::power2::{pow2, lemma_pow2_pos, lemma_pow2_unfold, lemma2_to64};

verus! {

/// The magnitude bits of infinity; every finite magnitude lies below.
pub const INF_MAG: u32 = 0x7f80_0000;

/// The value of the magnitude bits `m`, in units of 2^-149.
///
/// Subnormals (`m < 2^23`) count units directly; above them a significand of 24
/// bits is scaled by the exponent field. `mag_value(INF_MAG)` is 2^277, the
/// point at which the finite grid would continue.
pub open spec fn mag_value(m: nat) -> nat {
    if m < 0x80_0000 {
        m
    } else {
        (0x80_0000 + m % 0x80_0000) * pow2((m / 0x80_0000 - 1) as nat)
    }
}

/// `m` is the grid point nearest to the rational `n / d` (in units), with ties
/// going to the even bit pattern; everything at or beyond the midpoint between
/// the largest finite magnitude and 2^128 goes to infinity.
pub open spec fn rounds_to(n: nat, d: nat, m: nat) -> bool {
    &&& m <= INF_MAG
    &&& m > 0 ==> {
        let below = (mag_value((m - 1) as nat) + mag_value(m)) * d;
        2 * n > below || (2 * n == below && m % 2 == 0)
    }
    &&& m < INF_MAG ==> {
        let above = (mag_value(m) + mag_value(m + 1)) * d;
        2 * n < above || (2 * n == above && m % 2 == 0)
    }
}

/// The magnitude bits to which `n / d` units round.
pub open spec fn round_mag(n: nat, d: nat) -> nat {
    choose|m: nat| rounds_to(n, d, m)
}

/// A significand `sig` scaled by `2^k` has the bit pattern `k * 2^23 + sig`.
pub proof fn lemma_mag_value_scaled(k: nat, sig: nat)
    requires
        sig <= 0x100_0000,
        k > 0 ==> sig >= 0x80_0000,
    ensures
        mag_value(k * 0x80_0000 + sig) == sig * pow2(k),
{
    let m = k * 0x80_0000 + sig;
    if sig < 0x80_0000 {
        lemma2_to64();
        assert(sig * pow2(0) == sig);
    } else if sig < 0x100_0000 {
        assert(m / 0x80_0000 == k + 1);
        assert(m % 0x80_0000 == sig - 0x80_0000);
    } else {
        assert(m / 0x80_0000 == k + 2);
        assert(m % 0x80_0000 == 0);
        lemma_pow2_unfold(k + 1);
        assert(0x80_0000 * (2 * pow2(k)) == 0x100_0000 * pow2(k)) by (nonlinear_arith);
    }
}

/// The exponent of a magnitude: the power of two, in units, by which its
/// significand is scaled.
pub open spec fn mag_exp(m: nat) -> nat {
    if m < 0x100_0000 {
        0
    } else {
        (m / 0x80_0000 - 1) as nat
    }
}

/// The significand of a magnitude: the fraction bits, and above the
/// subnormals the implicit leading bit.
pub open spec fn mag_sig(m: nat) -> nat {
    if m < 0x100_0000 {
        m
    } else {
        0x80_0000 + m % 0x80_0000
    }
}

/// Every magnitude is its significand scaled by its exponent.
pub proof fn lemma_mag_value_split(m: nat)
    ensures
        m == mag_exp(m) * 0x80_0000 + mag_sig(m),
        mag_sig(m) < 0x100_0000,
        mag_exp(m) > 0 ==> mag_sig(m) >= 0x80_0000,
        mag_value(m) == mag_sig(m) * pow2(mag_exp(m)),
{
    lemma_mag_value_scaled(mag_exp(m), mag_sig(m));
}

/// Each grid point lies strictly below the next.
pub proof fn lemma_mag_value_step(m: nat)
    ensures
        mag_value(m) < mag_value(m + 1),
{
    lemma_mag_value_split(m);
    let k = mag_exp(m);
    let sig = mag_sig(m);
    lemma_mag_value_scaled(k, sig + 1);
    lemma_pow2_pos(k);
    assert(sig * pow2(k) < (sig + 1) * pow2(k)) by (nonlinear_arith)
        requires
            pow2(k) > 0,
    ;
}

/// The grid is strictly increasing in the bit pattern.
pub proof fn lemma_mag_value_increases(a: nat, b: nat)
    requires
        a < b,
    ensures
        mag_value(a) < mag_value(b),
    decreases b - a,
{
    lemma_mag_value_step(a);
    if a + 1 < b {
        lemma_mag_value_increases(a + 1, b);
    }
}

/// The order of two magnitudes is the order of their bit patterns.
pub proof fn lemma_mag_value_order(a: nat, b: nat)
    ensures
        a < b <==> mag_value(a) < mag_value(b),
        a == b <==> mag_value(a) == mag_value(b),
{
    if a < b {
        lemma_mag_value_increases(a, b);
    } else if b < a {
        lemma_mag_value_increases(b, a);
    }
}

/// The midpoints between neighbours are ordered as the grid is.
proof fn lemma_midpoints_ordered(d: nat, lo: nat, hi: nat)
    requires
        d > 0,
        lo < hi,
    ensures
        (mag_value(lo) + mag_value(lo + 1)) * d <= (mag_value((hi - 1) as nat) + mag_value(hi)) * d,
        lo + 1 < hi ==> (mag_value(lo) + mag_value(lo + 1)) * d < (mag_value((hi - 1) as nat)
            + mag_value(hi)) * d,
{
    let above = mag_value(lo) + mag_value(lo + 1);
    let below = mag_value((hi - 1) as nat) + mag_value(hi);
    lemma_mag_value_order(lo, (hi - 1) as nat);
    lemma_mag_value_order(lo + 1, hi);
    assert(above <= below);
    assert(above * d <= below * d) by (nonlinear_arith)
        requires
            above <= below,
            d > 0,
    ;
    if lo + 1 < hi {
        assert(above < below);
        assert(above * d < below * d) by (nonlinear_arith)
            requires
                above < below,
                d > 0,
        ;
    }
}

/// At most one grid point is nearest to a given rational.
pub proof fn lemma_rounds_to_unique(n: nat, d: nat, m1: nat, m2: nat)
    requires
        d > 0,
        rounds_to(n, d, m1),
        rounds_to(n, d, m2),
    ensures
        m1 == m2,
{
    if m1 < m2 {
        lemma_midpoints_ordered(d, m1, m2);
    } else if m2 < m1 {
        lemma_midpoints_ordered(d, m2, m1);
    }
}

/// A grid point that is nearest to `n / d` is the one that `round_mag` names.
pub proof fn lemma_round_mag(n: nat, d: nat, m: nat)
    requires
        d > 0,
        rounds_to(n, d, m),
    ensures
        round_mag(n, d) == m,
{
    lemma_rounds_to_unique(n, d, m, round_mag(n, d));
}

/// A rational that lies on the grid rounds to itself.
pub proof fn lemma_round_mag_exact(n: nat, d: nat, m: nat)
    requires
        d > 0,
        m <= INF_MAG,
        n == mag_value(m) * d,
    ensures
        round_mag(n, d) == m,
{
    let v = mag_value(m);
    if m > 0 {
        lemma_mag_value_step((m - 1) as nat);
        let p = mag_value((m - 1) as nat);
        assert((p + v) * d < 2 * (v * d)) by (nonlinear_arith)
            requires
                p < v,
                d > 0,
        ;
    }
    lemma_mag_value_step(m);
    let s = mag_value(m + 1);
    assert(2 * (v * d) < (v + s) * d) by (nonlinear_arith)
        requires
            v < s,
            d > 0,
    ;
    lemma_round_mag(n, d, m);
}

/// Everything at or beyond 2^128 rounds to infinity.
pub proof fn lemma_round_mag_overflow(n: nat, d: nat)
    requires
        d > 0,
        n >= mag_value(INF_MAG as nat) * d,
    ensures
        round_mag(n, d) == INF_MAG,
{
    let top = mag_value(INF_MAG as nat);
    let p = mag_value((INF_MAG - 1) as nat);
    lemma_mag_value_step((INF_MAG - 1) as nat);
    assert((p + top) * d < 2 * (top * d)) by (nonlinear_arith)
        requires
            p < top,
            d > 0,
    ;
    lemma_round_mag(n, d, INF_MAG as nat);
}

/// A rational between two neighbours of the grid rounds to the nearer one, and
/// from their midpoint to the one with the even bit pattern.
pub proof fn lemma_round_mag_between(n: nat, d: nat, m: nat)
    requires
        d > 0,
        m < INF_MAG,
        mag_value(m) * d <= n < mag_value(m + 1) * d,
    ensures
        ({
            let middle = (mag_value(m) + mag_value(m + 1)) * d;
            round_mag(n, d) == if 2 * n < middle || (2 * n == middle && m % 2 == 0) {
                m
            } else {
                m + 1
            }
        }),
{
    let v = mag_value(m);
    let s = mag_value(m + 1);
    let middle = (v + s) * d;
    assert(middle == v * d + s * d) by (nonlinear_arith)
        requires
            middle == (v + s) * d,
    ;
    if 2 * n < middle || (2 * n == middle && m % 2 == 0) {
        if m > 0 {
            lemma_mag_value_step((m - 1) as nat);
            let p = mag_value((m - 1) as nat);
            assert((p + v) * d < 2 * (v * d)) by (nonlinear_arith)
                requires
                    p < v,
                    d > 0,
            ;
        }
        lemma_round_mag(n, d, m);
    } else {
        if m + 1 < INF_MAG {
            lemma_mag_value_step(m + 1);
            let t = mag_value(m + 2);
            assert(2 * (s * d) < (s + t) * d) by (nonlinear_arith)
                requires
                    s < t,
                    d > 0,
            ;
        }
        lemma_round_mag(n, d, m + 1);
    }
}

/// The rational `n / d` lies at or above the grid point `m` and below the
/// next.
pub open spec fn encloses(n: nat, d: nat, m: nat) -> bool {
    mag_value(m) * d <= n < mag_value(m + 1) * d
}

/// Below any grid point there is a grid point at or below the rational whose
/// upper neighbour lies above it.
proof fn lemma_bracket_exists(n: nat, d: nat, top: nat)
    requires
        d > 0,
        n < mag_value(top) * d,
    ensures
        exists|m: nat| m < top && encloses(n, d, m),
    decreases top,
{
    if top == 0 {
        assert(mag_value(0) * d == 0) by (nonlinear_arith)
            requires
                mag_value(0) == 0,
        ;
    } else if n >= mag_value((top - 1) as nat) * d {
        let m = (top - 1) as nat;
        assert(m < top && encloses(n, d, m));
    } else {
        lemma_bracket_exists(n, d, (top - 1) as nat);
    }
}

/// Every rational has a nearest grid point: `round_mag` names a magnitude, at
/// most that of infinity, that is nearest.
pub proof fn lemma_round_mag_defined(n: nat, d: nat)
    requires
        d > 0,
    ensures
        round_mag(n, d) <= INF_MAG,
        rounds_to(n, d, round_mag(n, d)),
{
    if n >= mag_value(INF_MAG as nat) * d {
        lemma_round_mag_overflow(n, d);
        let top = mag_value(INF_MAG as nat);
        let p = mag_value((INF_MAG - 1) as nat);
        lemma_mag_value_step((INF_MAG - 1) as nat);
        assert((p + top) * d < 2 * (top * d)) by (nonlinear_arith)
            requires
                p < top,
                d > 0,
        ;
    } else {
        lemma_bracket_exists(n, d, INF_MAG as nat);
        let m = choose|m: nat| m < INF_MAG && encloses(n, d, m);
        lemma_round_mag_between(n, d, m);
        lemma_nearer_rounds(n, d, m);
    }
}

/// The nearer of two neighbours that enclose a rational is nearest to it.
proof fn lemma_nearer_rounds(n: nat, d: nat, m: nat)
    requires
        d > 0,
        m < INF_MAG,
        mag_value(m) * d <= n < mag_value(m + 1) * d,
    ensures
        ({
            let middle = (mag_value(m) + mag_value(m + 1)) * d;
            rounds_to(
                n,
                d,
                if 2 * n < middle || (2 * n == middle && m % 2 == 0) {
                    m
                } else {
                    m + 1
                },
            )
        }),
{
    let v = mag_value(m);
    let s = mag_value(m + 1);
    let middle = (v + s) * d;
    assert(middle == v * d + s * d) by (nonlinear_arith)
        requires
            middle == (v + s) * d,
    ;
    if 2 * n < middle || (2 * n == middle && m % 2 == 0) {
        if m > 0 {
            lemma_mag_value_step((m - 1) as nat);
            let p = mag_value((m - 1) as nat);
            assert((p + v) * d < 2 * (v * d)) by (nonlinear_arith)
                requires
                    p < v,
                    d > 0,
            ;
        }
    } else {
        if m + 1 < INF_MAG {
            lemma_mag_value_step(m + 1);
            let t = mag_value(m + 2);
            assert(2 * (s * d) < (s + t) * d) by (nonlinear_arith)
                requires
                    s < t,
                    d > 0,
            ;
        }
    }
}

} // verus!
