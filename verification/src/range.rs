//! Skewed parameter ranges.
//!
//! A range maps a normalized knob position `p` in `[0, NORM_ONE]` to a value
//! in `[min, max]` under a square-law skew (skew exponent one half): the
//! position is squared before the linear mapping, which concentrates control
//! resolution toward the low end of the range, as audio-perceptual controls
//! want.  The reverse mapping rounds to the nearest position and is the
//! exact inverse of the forward mapping wherever the forward mapping is
//! fine enough to be injective.

use vstd::prelude::*;
use vstd::arithmetic::div_mod::lemma_fundamental_div_mod;
use vstd::arithmetic::div_mod::lemma_fundamental_div_mod_converse;
use vstd::arithmetic::div_mod::lemma_mod_bound;
use vstd::arithmetic::div_mod::lemma_div_is_ordered;
use vstd::arithmetic::div_mod::lemma_div_multiples_vanish;
use crate::fixed::VAL_MAX;
use crate::fixed::mul_div_floor;

verus! {

/// Full-scale normalized position (1.0 of knob travel).
pub const NORM_ONE: i64 = 1000;

/// The square of the full-scale position, the divisor of the square law.
pub const NORM_UNIT: i64 = 1_000_000;

/// Floor of the square root, defined one step at a time.
pub open spec fn isqrt_spec(x: nat) -> nat
    decreases x,
{
    if x == 0 {
        0
    } else {
        let r = isqrt_spec((x - 1) as nat);
        if (r + 1) * (r + 1) <= x {
            r + 1
        } else {
            r
        }
    }
}

/// `isqrt_spec` is characterized by the usual squeeze.
pub proof fn lemma_isqrt_char(x: nat)
    ensures
        isqrt_spec(x) * isqrt_spec(x) <= x,
        x < (isqrt_spec(x) + 1) * (isqrt_spec(x) + 1),
    decreases x,
{
    if x == 0 {
        assert(isqrt_spec(0) == 0);
        assert(0 * 0 <= 0int && 0int < (0 + 1) * (0 + 1)) by (nonlinear_arith);
    } else {
        lemma_isqrt_char((x - 1) as nat);
        let r = isqrt_spec((x - 1) as nat);
        if (r + 1) * (r + 1) <= x {
            assert(x < (r + 2) * (r + 2)) by (nonlinear_arith)
                requires
                    x - 1 < (r + 1) * (r + 1),
            ;
        }
    }
}

/// Only one value can sit under the square-root squeeze.
pub proof fn lemma_isqrt_unique(x: nat, a: nat, b: nat)
    requires
        a * a <= x < (a + 1) * (a + 1),
        b * b <= x < (b + 1) * (b + 1),
    ensures
        a == b,
{
    assert(a == b) by (nonlinear_arith)
        requires
            a * a <= x < (a + 1) * (a + 1),
            b * b <= x < (b + 1) * (b + 1),
            a >= 0,
            b >= 0,
    ;
}

/// Floor of the square root, by bisection.
pub fn isqrt(x: u64) -> (r: u64)
    requires
        x <= 4_000_000_000_000_000_000,
    ensures
        r == isqrt_spec(x as nat),
        (r as int) * (r as int) <= x as int,
        (x as int) < ((r as int) + 1) * ((r as int) + 1),
{
    let mut lo: u64 = 0;
    let mut hi: u64 = 2_147_483_648;
    proof {
        assert((2_147_483_648 as int) * (2_147_483_648 as int) > 4_000_000_000_000_000_000);
    }
    while lo + 1 < hi
        invariant
            lo < hi <= 2_147_483_648,
            (lo as int) * (lo as int) <= x as int,
            (x as int) < (hi as int) * (hi as int),
        decreases hi - lo,
    {
        let mid: u64 = lo + (hi - lo) / 2;
        proof {
            assert((mid as int) * (mid as int) <= 2_147_483_648 * 2_147_483_648)
                by (nonlinear_arith)
                requires
                    0 <= mid <= 2_147_483_648,
            ;
        }
        if mid * mid <= x {
            lo = mid;
        } else {
            hi = mid;
        }
    }
    proof {
        lemma_isqrt_char(x as nat);
        lemma_isqrt_unique(x as nat, lo as nat, isqrt_spec(x as nat));
    }
    lo
}

/// Round trip of the range mapping: wherever the forward square-law map is
/// fine enough to be injective (a step of knob travel at position `p` moves
/// the value by at least one micro-unit, `span * (2p - 1) >= 2 * NORM_UNIT`),
/// mapping a position to its value and back returns the position exactly.
pub proof fn lemma_skew_round_trip(range: SkewedRange, p: int)
    requires
        range.wf(),
        0 <= p <= NORM_ONE,
        p == 0 || range.span() * (2 * p - 1) >= 2 * (NORM_UNIT as int),
    ensures
        range.value_to_norm_spec(range.norm_to_value_spec(p)) == p,
{
    let d = range.span();
    let c = NORM_UNIT as int;
    let pp = p * p;
    let q = (d * pp) / c;
    let rm = (d * pp) % c;
    lemma_fundamental_div_mod(d * pp, c);
    lemma_mod_bound(d * pp, c);
    let v = range.norm_to_value_spec(p);
    assert(v - range.min == q);
    let num = (v - range.min) * c;
    assert(num == d * pp - rm) by (nonlinear_arith)
        requires
            d * pp == c * q + rm,
            num == q * c,
    ;
    if p == 0 {
        assert(d * pp == 0) by (nonlinear_arith)
            requires
                pp == 0,
        ;
        lemma_fundamental_div_mod_converse(0, c, 0, 0);
        assert(q == 0 && rm == 0);
        lemma_fundamental_div_mod_converse(0, d, 0, 0);
        assert(num / d == 0);
        assert(isqrt_spec(0nat) == 0);
        assert((2 * 0 * 0 + 2 * 0 + 1) * d == d) by (nonlinear_arith);
        assert(range.value_to_norm_spec(v) == 0);
    } else {
        let f = (rm + d - 1) / d;
        lemma_fundamental_div_mod(rm + d - 1, d);
        lemma_mod_bound(rm + d - 1, d);
        assert(f * d == d * f) by (nonlinear_arith);
        assert(rm <= f * d < rm + d);
        assert(0 <= f && 2 * f < 2 * p + 1) by (nonlinear_arith)
            requires
                rm <= f * d,
                f * d < rm + d,
                0 <= rm < c,
                2 * c <= d * (2 * p - 1),
                0 < d,
                1 <= p,
        ;
        assert(f <= p);
        let u = pp - f;
        assert(num == (u) * d + (f * d - rm)) by (nonlinear_arith)
            requires
                num == d * pp - rm,
                u == pp - f,
        ;
        lemma_fundamental_div_mod_converse(num, d, u, f * d - rm);
        assert(num / d == u);
        assert(0 <= u) by (nonlinear_arith)
            requires
                u == pp - f,
                pp == p * p,
                0 <= f <= p,
                1 <= p,
        ;
        lemma_isqrt_char(u as nat);
        let s = isqrt_spec(u as nat) as int;
        if rm == 0 {
            assert(f == 0) by (nonlinear_arith)
                requires
                    0 <= f,
                    f * d < rm + d,
                    rm == 0,
                    0 < d,
            ;
            assert(p * p <= u && u < (p + 1) * (p + 1)) by (nonlinear_arith)
                requires
                    u == pp,
                    pp == p * p,
                    0 <= p,
            ;
            lemma_isqrt_unique(u as nat, p as nat, s as nat);
            assert(s == p);
            assert(2 * num <= (2 * s * s + 2 * s + 1) * d) by (nonlinear_arith)
                requires
                    num == d * pp - rm,
                    rm == 0,
                    pp == p * p,
                    s == p,
                    0 < d,
                    0 <= p,
            ;
            assert(range.value_to_norm_spec(v) == s);
        } else {
            assert(1 <= f) by (nonlinear_arith)
                requires
                    rm <= f * d,
                    1 <= rm,
                    0 < d,
                    0 <= f,
            ;
            assert((p - 1) * (p - 1) <= u && u < p * p) by (nonlinear_arith)
                requires
                    u == pp - f,
                    pp == p * p,
                    1 <= f,
                    f <= p,
                    1 <= p,
                    f <= 2 * p - 1,
            ;
            lemma_isqrt_unique(u as nat, (p - 1) as nat, s as nat);
            assert(s == p - 1);
            assert(2 * num > (2 * s * s + 2 * s + 1) * d) by (nonlinear_arith)
                requires
                    num == d * pp - rm,
                    pp == p * p,
                    s == p - 1,
                    0 < d,
                    1 <= p,
                    0 <= rm,
                    2 * rm <= 2 * c - 2,
                    2 * c <= d * (2 * p - 1),
            ;
            assert(range.value_to_norm_spec(v) == s + 1);
        }
    }
}

/// A bounded value range under the square-law skew.
pub struct SkewedRange {
    /// Lower bound, in micro-units.
    pub min: i64,
    /// Upper bound, in micro-units.
    pub max: i64,
}

impl SkewedRange {
    /// Well-formed: non-empty, non-negative, and bounded.
    pub open spec fn wf(self) -> bool {
        0 <= self.min < self.max <= VAL_MAX
    }

    /// Width of the range.
    pub open spec fn span(self) -> int {
        self.max - self.min
    }

    /// Forward skew map: square the position, then map linearly.
    pub open spec fn norm_to_value_spec(self, p: int) -> int {
        self.min + (self.span() * (p * p)) / (NORM_UNIT as int)
    }

    /// Reverse skew map: the nearest position whose square law lands on the
    /// value, computed as a rounded square root of the exact ratio.
    pub open spec fn value_to_norm_spec(self, v: int) -> int {
        let num = (v - self.min) * (NORM_UNIT as int);
        let s = isqrt_spec((num / self.span()) as nat) as int;
        if 2 * num > (2 * s * s + 2 * s + 1) * self.span() {
            s + 1
        } else {
            s
        }
    }

    /// Clamping a raw value into the range.
    pub open spec fn clamp_spec(self, v: int) -> int {
        if v < self.min {
            self.min as int
        } else if v > self.max {
            self.max as int
        } else {
            v
        }
    }

    /// Clamp a raw value into the range.
    pub fn clamp(&self, v: i64) -> (r: i64)
        ensures
            r == self.clamp_spec(v as int),
    {
        if v < self.min {
            self.min
        } else if v > self.max {
            self.max
        } else {
            v
        }
    }

    /// Map a normalized position to the value it selects.
    pub fn norm_to_value(&self, p: i64) -> (r: i64)
        requires
            self.wf(),
            0 <= p <= NORM_ONE,
        ensures
            r == self.norm_to_value_spec(p as int),
            self.min <= r <= self.max,
    {
        proof {
            assert(0 <= (p as int) * (p as int) <= 1_000_000) by (nonlinear_arith)
                requires
                    0 <= p <= 1000,
            ;
        }
        let pp: i64 = p * p;
        let span: i64 = self.max - self.min;
        let q: i64 = mul_div_floor(span, pp as u32, NORM_UNIT as u32);
        proof {
            let sp = span as int;
            assert(0 <= sp * (pp as int) && sp * (pp as int) <= sp * (NORM_UNIT as int))
                by (nonlinear_arith)
                requires
                    0 <= sp,
                    0 <= pp <= NORM_UNIT,
            ;
            lemma_div_is_ordered(0, sp * (pp as int), NORM_UNIT as int);
            lemma_div_is_ordered(sp * (pp as int), sp * (NORM_UNIT as int), NORM_UNIT as int);
            assert(sp * (NORM_UNIT as int) == (NORM_UNIT as int) * sp) by (nonlinear_arith);
            lemma_div_multiples_vanish(sp, NORM_UNIT as int);
        }
        self.min + q
    }

    /// Map a value back to the nearest normalized position.
    pub fn value_to_norm(&self, v: i64) -> (r: i64)
        requires
            self.wf(),
            self.min <= v <= self.max,
        ensures
            r == self.value_to_norm_spec(v as int),
            0 <= r <= NORM_ONE,
    {
        let span: i64 = self.max - self.min;
        proof {
            assert((v - self.min) as int * (NORM_UNIT as int) <= VAL_MAX * (NORM_UNIT as int))
                by (nonlinear_arith)
                requires
                    0 <= v - self.min <= VAL_MAX,
            ;
        }
        let num: u64 = ((v - self.min) as u64) * (NORM_UNIT as u64);
        let u: u64 = num / (span as u64);
        proof {
            let ni = num as int;
            let sp = span as int;
            assert(ni <= sp * (NORM_UNIT as int)) by (nonlinear_arith)
                requires
                    ni == (v - self.min) as int * (NORM_UNIT as int),
                    0 <= v - self.min <= sp,
                    0 < NORM_UNIT,
            ;
            lemma_div_is_ordered(ni, sp * (NORM_UNIT as int), sp);
            assert(sp * (NORM_UNIT as int) == (NORM_UNIT as int) * sp) by (nonlinear_arith);
            lemma_div_multiples_vanish(NORM_UNIT as int, sp);
            assert(u <= NORM_UNIT);
        }
        let s: u64 = isqrt(u);
        proof {
            assert(s <= NORM_ONE) by (nonlinear_arith)
                requires
                    (s as int) * (s as int) <= u as int,
                    u <= NORM_UNIT,
                    NORM_UNIT == 1_000_000,
                    NORM_ONE == 1000,
                    s >= 0,
            ;
        }
        proof {
            assert((2 * (s as int)) * (s as int) <= 2_000_000) by (nonlinear_arith)
                requires
                    0 <= s <= 1000,
            ;
            assert((2 * (s as int) * (s as int) + 2 * (s as int) + 1) * (span as int)
                <= 3_000_000 * 1_000_000_000_000) by (nonlinear_arith)
                requires
                    0 <= s <= 1000,
                    0 < span <= 1_000_000_000_000,
            ;
        }
        let lhs: u128 = 2 * (num as u128);
        let rhs: u128 = ((2 * s * s + 2 * s + 1) as u128) * (span as u128);
        if lhs > rhs {
            proof {
                assert(s < NORM_ONE) by (nonlinear_arith)
                    requires
                        2 * (num as int) > (2 * (s as int) * (s as int) + 2 * (s as int) + 1) * (
                        span as int),
                        num as int <= (span as int) * (NORM_UNIT as int),
                        0 < span,
                        (s as int) * (s as int) <= u as int,
                        u <= NORM_UNIT,
                        NORM_UNIT == 1_000_000,
                        NORM_ONE == 1000,
                        s >= 0,
                ;
            }
            (s + 1) as i64
        } else {
            s as i64
        }
    }
}

} // verus!
