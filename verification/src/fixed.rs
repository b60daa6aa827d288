//! Fixed-point arithmetic for the audio core.
//!
//! Control and audio values are held in micro-units: an `i64` counts
//! millionths of the natural unit, so `1_000_000` stands for `1.0`.
//! Division always rounds toward negative infinity, matching the
//! mathematical (Euclidean) division used in the contracts.

use vstd::prelude::*;
use vstd::arithmetic::div_mod::lemma_fundamental_div_mod;
use vstd::arithmetic::div_mod::lemma_fundamental_div_mod_converse;
use vstd::arithmetic::div_mod::lemma_mod_bound;
use vstd::arithmetic::div_mod::lemma_div_nonincreasing;
use vstd::arithmetic::div_mod::lemma_div_is_ordered;
use vstd::arithmetic::div_mod::lemma_div_multiples_vanish;

verus! {

/// Micro-units per natural unit.
pub const SCALE: i64 = 1_000_000;

/// Largest magnitude a control value may take, in micro-units.
pub const VAL_MAX: i64 = 1_000_000_000_000;

/// Largest magnitude of a difference of two control values.
pub const DELTA_MAX: i64 = 2_000_000_000_000;

/// Floor division of a possibly negative value by a positive divisor.
pub fn div_floor(x: i64, d: i64) -> (r: i64)
    requires
        0 < d,
        x > i64::MIN,
    ensures
        r == (x as int) / (d as int),
{
    if x >= 0 {
        let q: u64 = (x as u64) / (d as u64);
        proof {
            lemma_div_nonincreasing(x as int, d as int);
        }
        q as i64
    } else {
        let m: u64 = (-x) as u64;
        let du: u64 = d as u64;
        let q: u64 = (m + (du - 1)) / du;
        proof {
            let mi = m as int;
            let di = d as int;
            let qi = q as int;
            lemma_fundamental_div_mod(mi + di - 1, di);
            lemma_mod_bound(mi + di - 1, di);
            assert(qi == (mi + di - 1) / di);
            assert(di * qi == mi + di - 1 - ((mi + di - 1) % di));
            assert(qi * di == di * qi) by (nonlinear_arith);
            assert(mi <= qi * di < mi + di);
            assert(qi <= mi) by (nonlinear_arith)
                requires
                    di >= 1,
                    mi >= 1,
                    qi >= 0,
                    qi * di < mi + di,
            ;
            assert((-qi) * di == -(qi * di)) by (nonlinear_arith);
            lemma_fundamental_div_mod_converse(x as int, di, -qi, qi * di - mi);
        }
        -(q as i64)
    }
}

/// `(a * b) / d` with floor rounding, for interpolating along a ramp whose
/// step index `b` never passes its length `d`.
pub fn mul_div_floor(a: i64, b: u32, d: u32) -> (r: i64)
    requires
        0 < d,
        b <= d,
        -DELTA_MAX <= a <= DELTA_MAX,
    ensures
        r == (a * b) / (d as int),
{
    if a >= 0 {
        proof {
            assert((a as int) * (b as int) <= DELTA_MAX * 4_294_967_296) by (nonlinear_arith)
                requires
                    0 <= a <= DELTA_MAX,
                    0 <= b <= 4_294_967_296,
            ;
        }
        let p: u128 = (a as u128) * (b as u128);
        let q: u128 = p / (d as u128);
        proof {
            assert((a as int) * (b as int) <= (a as int) * (d as int)) by (nonlinear_arith)
                requires
                    0 <= a,
                    b <= d,
            ;
            assert((a as int) * (d as int) == (d as int) * (a as int)) by (nonlinear_arith);
            lemma_div_is_ordered((a as int) * (b as int), (a as int) * (d as int), d as int);
            lemma_div_multiples_vanish(a as int, d as int);
            assert(q <= a);
            assert(0 <= (a as int) * (b as int)) by (nonlinear_arith)
                requires
                    0 <= a,
                    0 <= b,
            ;
            lemma_div_is_ordered(0, (a as int) * (b as int), d as int);
        }
        q as i64
    } else {
        proof {
            assert((-(a as int)) * (b as int) <= DELTA_MAX * 4_294_967_296) by (nonlinear_arith)
                requires
                    0 <= -(a as int) <= DELTA_MAX,
                    0 <= b <= 4_294_967_296,
            ;
            assert(0 <= (-(a as int)) * (b as int)) by (nonlinear_arith)
                requires
                    0 <= -(a as int),
                    0 <= b,
            ;
        }
        let m: u128 = ((-a) as u128) * (b as u128);
        let du: u128 = d as u128;
        let q: u128 = (m + (du - 1)) / du;
        proof {
            let ai = a as int;
            let mi = m as int;
            let di = d as int;
            let qi = q as int;
            assert(mi == (-ai) * (b as int));
            assert(mi <= (-ai) * di) by (nonlinear_arith)
                requires
                    0 <= -ai,
                    0 <= b <= d,
                    di == d as int,
                    mi == (-ai) * (b as int),
            ;
            lemma_fundamental_div_mod(mi + di - 1, di);
            lemma_mod_bound(mi + di - 1, di);
            assert(qi == (mi + di - 1) / di);
            assert(di * qi == mi + di - 1 - ((mi + di - 1) % di));
            assert(qi * di == di * qi) by (nonlinear_arith);
            assert(mi <= qi * di < mi + di);
            assert(qi <= -ai) by (nonlinear_arith)
                requires
                    di >= 1,
                    qi >= 0,
                    -ai >= 1,
                    qi * di < mi + di,
                    mi <= (-ai) * di,
            ;
            assert(ai * (b as int) == -mi) by (nonlinear_arith)
                requires
                    mi == (-ai) * (b as int),
            ;
            assert((-qi) * di == -(qi * di)) by (nonlinear_arith);
            lemma_fundamental_div_mod_converse(ai * (b as int), di, -qi, qi * di - mi);
        }
        -(q as i64)
    }
}

} // verus!
