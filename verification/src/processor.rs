//! The per-frame signal transform and its phase accumulator.
//!
//! Each frame the processor shapes every channel sample with one externally
//! evaluated coefficient (the sine of the accumulator raised to the smoothed
//! exponent), blends the shaped signal with the dry input under the mix
//! control, applies the output gain, and then advances the accumulator,
//! resetting it to zero once it would exceed a fixed ceiling.

use vstd::prelude::*;
use vstd::arithmetic::div_mod::lemma_fundamental_div_mod;
use vstd::arithmetic::div_mod::lemma_fundamental_div_mod_converse;
use vstd::arithmetic::div_mod::lemma_div_multiples_vanish;
use vstd::arithmetic::div_mod::lemma_mod_bound;
use vstd::pervasive::VecAdditionalExecFns;
use crate::fixed::SCALE;
use crate::fixed::div_floor;

verus! {

/// The accumulator resets to zero once it would pass this value (10.0).
pub const ACCUM_CEILING: i64 = 10_000_000;

/// Largest magnitude an audio sample may take (16.0 in natural units).
pub const AUDIO_MAX: i64 = 16_000_000;

/// The mix control is a percentage; this is 100% in micro-units.
pub const MIX_FULL: i64 = 100_000_000;

/// Largest gain coefficient accepted by the transform (100.0).
pub const GAIN_MAX: i64 = 100_000_000;

/// The dry sample scaled by the shaping coefficient.
pub open spec fn shaped_spec(s: int, shape: int) -> int {
    (s * shape) / (SCALE as int)
}

/// Dry/wet blend: `s * (100% - mix) + shaped * mix`, normalized.
pub open spec fn mixed_spec(s: int, shape: int, mix: int) -> int {
    (s * (MIX_FULL - mix) + shaped_spec(s, shape) * mix) / (MIX_FULL as int)
}

/// One output sample: the blend scaled by the output gain.
pub open spec fn out_sample_spec(s: int, shape: int, mix: int, gain: int) -> int {
    (mixed_spec(s, shape, mix) * gain) / (SCALE as int)
}

/// One accumulator step: advance by the increment, reset past the ceiling.
pub open spec fn accum_step_spec(a: int, inc: int) -> int {
    if a + inc > ACCUM_CEILING {
        0
    } else {
        a + inc
    }
}

/// The accumulator after `k` frames, starting from zero.
pub open spec fn accum_iter(inc: int, k: nat) -> int
    decreases k,
{
    if k == 0 {
        0
    } else {
        accum_step_spec(accum_iter(inc, (k - 1) as nat), inc)
    }
}

/// With mix at 0%, the output is the input scaled by the gain alone.
pub proof fn lemma_mix_zero(s: int, shape: int, gain: int)
    ensures
        out_sample_spec(s, shape, 0, gain) == (s * gain) / (SCALE as int),
{
    assert(shaped_spec(s, shape) * 0 == 0) by (nonlinear_arith);
    assert(s * (MIX_FULL - 0) == (MIX_FULL as int) * s) by (nonlinear_arith);
    lemma_div_multiples_vanish(s, MIX_FULL as int);
    assert(mixed_spec(s, shape, 0) == s);
}

/// With mix at 100%, the output is the shaped signal scaled by the gain:
/// the dry path is exactly absent.
pub proof fn lemma_mix_full(s: int, shape: int, gain: int)
    ensures
        out_sample_spec(s, shape, MIX_FULL as int, gain)
            == (shaped_spec(s, shape) * gain) / (SCALE as int),
{
    assert(s * (MIX_FULL - MIX_FULL) == 0) by (nonlinear_arith);
    assert(shaped_spec(s, shape) * (MIX_FULL as int)
        == (MIX_FULL as int) * shaped_spec(s, shape)) by (nonlinear_arith);
    lemma_div_multiples_vanish(shaped_spec(s, shape), MIX_FULL as int);
    assert(mixed_spec(s, shape, MIX_FULL as int) == shaped_spec(s, shape));
}

/// With unity gain and mix at 0%, the transform is the identity.
pub proof fn lemma_unity_gain_identity(s: int, shape: int)
    ensures
        out_sample_spec(s, shape, 0, SCALE as int) == s,
{
    lemma_mix_zero(s, shape, SCALE as int);
    assert(s * (SCALE as int) == (SCALE as int) * s) by (nonlinear_arith);
    lemma_div_multiples_vanish(s, SCALE as int);
}

/// The accumulator stays within `[0, ACCUM_CEILING]` at every frame, so the
/// shaping step never reads a value past the ceiling.
pub proof fn lemma_accum_in_range(inc: int, k: nat)
    requires
        0 <= inc <= ACCUM_CEILING,
    ensures
        0 <= accum_iter(inc, k) <= ACCUM_CEILING,
    decreases k,
{
    if k > 0 {
        lemma_accum_in_range(inc, (k - 1) as nat);
    }
}

/// While no wrap has happened, the accumulator grows linearly.
proof fn lemma_accum_linear(inc: int, k: nat)
    requires
        0 < inc,
        k * inc <= ACCUM_CEILING,
    ensures
        accum_iter(inc, k) == k * inc,
    decreases k,
{
    if k == 0 {
        assert(k * inc == 0) by (nonlinear_arith)
            requires
                k == 0,
        ;
    } else {
        assert(((k - 1) as nat) * inc == k * inc - inc) by (nonlinear_arith)
            requires
                k >= 1,
        ;
        lemma_accum_linear(inc, (k - 1) as nat);
    }
}

/// Accumulator wrap: starting from zero with a positive increment that does
/// not divide the ceiling, the accumulator has wrapped back to zero after
/// exactly the ceiling of `ACCUM_CEILING / inc` frames, the frame on which
/// the advance first passes the ceiling.
pub proof fn lemma_accum_wraps(inc: int)
    requires
        0 < inc <= ACCUM_CEILING,
        (ACCUM_CEILING as int) % inc != 0,
    ensures
        (ACCUM_CEILING + inc - 1) / inc == (ACCUM_CEILING as int) / inc + 1,
        accum_iter(inc, ((ACCUM_CEILING + inc - 1) / inc) as nat) == 0,
{
    let c = ACCUM_CEILING as int;
    let q = c / inc;
    let r = c % inc;
    lemma_fundamental_div_mod(c, inc);
    lemma_mod_bound(c, inc);
    assert(0 < r < inc);
    assert(c + inc - 1 == (q + 1) * inc + (r - 1)) by (nonlinear_arith)
        requires
            c == inc * q + r,
    ;
    lemma_fundamental_div_mod_converse(c + inc - 1, inc, q + 1, r - 1);
    assert(q * inc == c - r) by (nonlinear_arith)
        requires
            c == inc * q + r,
    ;
    assert(q >= 0) by (nonlinear_arith)
        requires
            q * inc == c - r,
            0 < inc,
            c - r >= 0,
    ;
    lemma_accum_linear(inc, q as nat);
    assert(accum_iter(inc, (q + 1) as nat) == accum_step_spec(q * inc, inc));
    assert(q * inc + inc > c);
}

/// The phase-accumulator state of the signal path.
pub struct Processor {
    /// Current accumulator value, in micro-units.
    pub accum: i64,
}

impl Processor {
    /// The accumulator never leaves `[0, ACCUM_CEILING]`.
    pub open spec fn wf(self) -> bool {
        0 <= self.accum <= ACCUM_CEILING
    }

    /// A fresh processor starts with the accumulator at zero.
    pub fn new() -> (r: Processor)
        ensures
            r.wf(),
            r.accum == 0,
    {
        Processor { accum: 0 }
    }

    /// A stream discontinuity resets the accumulator to zero.
    pub fn reset(&mut self)
        ensures
            final(self).accum == 0,
            final(self).wf(),
    {
        self.accum = 0;
    }

    /// Advance the accumulator by one frame's increment, wrapping to zero
    /// once it would exceed the ceiling.
    pub fn advance(&mut self, increment: i64)
        requires
            old(self).wf(),
            0 <= increment <= SCALE,
        ensures
            final(self).wf(),
            final(self).accum == accum_step_spec(old(self).accum as int, increment as int),
    {
        self.accum = self.accum + increment;
        if self.accum > ACCUM_CEILING {
            self.accum = 0;
        }
    }

    /// Transform every channel sample of one frame in place, then advance
    /// the accumulator.  `shape` is the externally evaluated shaping
    /// coefficient `sin(accum ^ factor)` for this frame, in micro-units.
    pub fn process_frame(
        &mut self,
        samples: &mut Vec<i64>,
        shape: i64,
        gain: i64,
        increment: i64,
        mix: i64,
    )
        requires
            old(self).wf(),
            -SCALE <= shape <= SCALE,
            0 <= mix <= MIX_FULL,
            0 <= gain <= GAIN_MAX,
            0 <= increment <= SCALE,
            forall|j: int|
                0 <= j < old(samples)@.len() ==> -AUDIO_MAX <= #[trigger] old(samples)@[j]
                    <= AUDIO_MAX,
        ensures
            final(self).wf(),
            final(self).accum == accum_step_spec(old(self).accum as int, increment as int),
            final(samples)@.len() == old(samples)@.len(),
            forall|j: int|
                0 <= j < old(samples)@.len() ==> final(samples)@[j] == out_sample_spec(
                    old(samples)@[j] as int,
                    shape as int,
                    mix as int,
                    gain as int,
                ),
    {
        let n: usize = samples.len();
        let mut i: usize = 0;
        while i < n
            invariant
                n == old(samples)@.len(),
                samples@.len() == n,
                0 <= i <= n,
                -SCALE <= shape <= SCALE,
                0 <= mix <= MIX_FULL,
                0 <= gain <= GAIN_MAX,
                forall|j: int|
                    0 <= j < n ==> -AUDIO_MAX <= #[trigger] old(samples)@[j] <= AUDIO_MAX,
                forall|j: int| i <= j < n ==> samples@[j] == old(samples)@[j],
                forall|j: int|
                    0 <= j < i ==> samples@[j] == out_sample_spec(
                        old(samples)@[j] as int,
                        shape as int,
                        mix as int,
                        gain as int,
                    ),
            decreases n - i,
        {
            let s: i64 = samples[i];
            let v: i64 = out_sample(s, shape, mix, gain);
            samples.set(i, v);
            i = i + 1;
        }
        self.advance(increment);
    }
}

/// Transform one sample: shape, blend under the mix control, apply gain.
pub fn out_sample(s: i64, shape: i64, mix: i64, gain: i64) -> (r: i64)
    requires
        -AUDIO_MAX <= s <= AUDIO_MAX,
        -SCALE <= shape <= SCALE,
        0 <= mix <= MIX_FULL,
        0 <= gain <= GAIN_MAX,
    ensures
        r == out_sample_spec(s as int, shape as int, mix as int, gain as int),
{
    proof {
        assert(-(AUDIO_MAX as int) * SCALE <= (s as int) * (shape as int)
            <= (AUDIO_MAX as int) * SCALE) by (nonlinear_arith)
            requires
                -AUDIO_MAX <= s <= AUDIO_MAX,
                -SCALE <= shape <= SCALE,
        ;
    }
    let shaped: i64 = div_floor(s * shape, SCALE);
    proof {
        lemma_div_in_bounds((s as int) * (shape as int), SCALE as int,
            (AUDIO_MAX as int) * (SCALE as int));
        let sh = shaped_spec(s as int, shape as int);
        assert(-AUDIO_MAX - 1 <= sh <= AUDIO_MAX);
        assert(-(AUDIO_MAX as int) * MIX_FULL <= (s as int) * (MIX_FULL - mix)
            <= (AUDIO_MAX as int) * MIX_FULL) by (nonlinear_arith)
            requires
                -AUDIO_MAX <= s <= AUDIO_MAX,
                0 <= mix <= MIX_FULL,
        ;
        assert(-(AUDIO_MAX + 1) * (MIX_FULL as int) <= sh * (mix as int)
            <= (AUDIO_MAX + 1) * (MIX_FULL as int)) by (nonlinear_arith)
            requires
                -AUDIO_MAX - 1 <= sh <= AUDIO_MAX,
                0 <= mix <= MIX_FULL,
        ;
    }
    let blended: i64 = s * (MIX_FULL - mix) + shaped * mix;
    let mixed: i64 = div_floor(blended, MIX_FULL);
    proof {
        lemma_div_in_bounds(blended as int, MIX_FULL as int,
            (2 * AUDIO_MAX + 1) * (MIX_FULL as int));
        let m = mixed_spec(s as int, shape as int, mix as int);
        assert(-(2 * AUDIO_MAX + 2) <= m <= 2 * AUDIO_MAX + 1);
        assert(-(2 * AUDIO_MAX + 2) * GAIN_MAX <= m * (gain as int) <= (2 * AUDIO_MAX + 2)
            * GAIN_MAX) by (nonlinear_arith)
            requires
                -(2 * AUDIO_MAX + 2) <= m <= 2 * AUDIO_MAX + 1,
                0 <= gain <= GAIN_MAX,
        ;
    }
    div_floor(mixed * gain, SCALE)
}

/// Floor division keeps a bounded dividend within predictable bounds.
proof fn lemma_div_in_bounds(x: int, d: int, bound: int)
    requires
        0 < d,
        0 <= bound,
        -bound <= x <= bound,
    ensures
        -(bound / d) - 1 <= x / d <= bound / d,
{
    lemma_fundamental_div_mod(x, d);
    lemma_mod_bound(x, d);
    lemma_fundamental_div_mod(bound, d);
    lemma_mod_bound(bound, d);
    assert(-(bound / d) - 1 <= x / d <= bound / d) by (nonlinear_arith)
        requires
            0 < d,
            -bound <= x <= bound,
            x == d * (x / d) + x % d,
            0 <= x % d < d,
            bound == d * (bound / d) + bound % d,
            0 <= bound % d < d,
    ;
}

} // verus!
