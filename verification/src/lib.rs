//! Core of a time-varying waveshaping audio effect.
//!
//! The library holds the real-time processing path: a parameter store with
//! skewed value ranges, per-parameter smoothing ramps, and the per-frame
//! signal transform driven by a wrapping phase accumulator.  All values are
//! fixed-point integers (micro-units); the unverified rim around the
//! library converts from and to the host's floating-point samples and
//! evaluates the one transcendental shaping coefficient per frame.

pub mod fixed;
pub mod params;
pub mod processor;
pub mod range;
pub mod smoother;
pub mod text;

use vstd::prelude::*;
use crate::fixed::SCALE;
use crate::params::BruhSineParams;
use crate::processor::AUDIO_MAX;
use crate::processor::GAIN_MAX;
use crate::processor::MIX_FULL;
use crate::processor::Processor;
use crate::processor::accum_step_spec;
use crate::processor::out_sample_spec;
use crate::smoother::Smoother;

verus! {

/// The four smoothing ramps of the audio path, one per parameter.  They are
/// owned exclusively by the real-time context.
pub struct Smoothers {
    /// Ramp of the output gain.
    pub gain: Smoother,
    /// Ramp of the accumulator increment.
    pub increment: Smoother,
    /// Ramp of the accumulator exponent.
    pub factor: Smoother,
    /// Ramp of the dry/wet blend.
    pub mix: Smoother,
}

/// One frame's smoothed coefficients, one `next` step per parameter.
pub struct FrameCoeffs {
    /// Output gain for this frame.
    pub gain: i64,
    /// Accumulator increment for this frame.
    pub increment: i64,
    /// Accumulator exponent for this frame; the binary evaluates
    /// `sin(accumulator ^ factor)` from it.
    pub factor: i64,
    /// Dry/wet blend for this frame, as a percentage.
    pub mix: i64,
}

impl Smoothers {
    /// Well-formed: every ramp is valid and its endpoints stay inside the
    /// bounds the signal path relies on.
    pub open spec fn wf(self) -> bool {
        &&& self.gain.wf()
        &&& self.increment.wf()
        &&& self.factor.wf()
        &&& self.mix.wf()
        &&& 0 <= self.gain.start <= GAIN_MAX && 0 <= self.gain.target <= GAIN_MAX
        &&& 0 <= self.increment.start <= SCALE && 0 <= self.increment.target <= SCALE
        &&& 0 <= self.factor.start <= SCALE && 0 <= self.factor.target <= SCALE
        &&& 0 <= self.mix.start <= MIX_FULL && 0 <= self.mix.target <= MIX_FULL
    }

    /// Pull one smoothed coefficient per parameter, advancing each ramp by
    /// one step.  This happens exactly once per frame.
    pub fn next_frame(&mut self) -> (c: FrameCoeffs)
        requires
            old(self).wf(),
        ensures
            final(self).wf(),
            c.gain == old(self).gain.next_value(),
            c.increment == old(self).increment.next_value(),
            c.factor == old(self).factor.next_value(),
            c.mix == old(self).mix.next_value(),
            final(self).gain == old(self).gain.stepped(),
            final(self).increment == old(self).increment.stepped(),
            final(self).factor == old(self).factor.stepped(),
            final(self).mix == old(self).mix.stepped(),
            0 <= c.gain <= GAIN_MAX,
            0 <= c.increment <= SCALE,
            0 <= c.factor <= SCALE,
            0 <= c.mix <= MIX_FULL,
    {
        let gain: i64 = self.gain.next();
        let increment: i64 = self.increment.next();
        let factor: i64 = self.factor.next();
        let mix: i64 = self.mix.next();
        FrameCoeffs { gain, increment, factor, mix }
    }
}

/// One instance of the effect: the parameter surface, the smoothing ramps,
/// and the phase-accumulator processor.  Every instance owns its full state,
/// so simultaneous instances never interfere.
pub struct BruhSine {
    /// The shared parameter surface.
    pub params: BruhSineParams,
    /// The real-time smoothing state.
    pub smoothers: Smoothers,
    /// The signal-path state.
    pub processor: Processor,
}

impl BruhSine {
    /// Well-formed: all three components are.
    pub open spec fn wf(self) -> bool {
        &&& self.params.wf()
        &&& self.smoothers.wf()
        &&& self.processor.wf()
    }

    /// A fresh instance: parameters at their defaults, smoothers resting on
    /// those defaults, accumulator at zero.
    pub fn new() -> (r: BruhSine)
        ensures
            r.wf(),
            r.processor.accum == 0,
            r.params.increment.value == SCALE,
            r.params.factor.value == SCALE,
            r.params.mix.value == MIX_FULL,
            r.params.output.value == SCALE,
            r.smoothers.gain.current == SCALE,
            r.smoothers.increment.current == SCALE,
            r.smoothers.factor.current == SCALE,
            r.smoothers.mix.current == MIX_FULL,
            r.smoothers.gain.steps_left == 0,
            r.smoothers.increment.steps_left == 0,
            r.smoothers.factor.steps_left == 0,
            r.smoothers.mix.steps_left == 0,
    {
        let params = BruhSineParams::new();
        let gain: Smoother = Smoother::new(params.output.get());
        let increment: Smoother = Smoother::new(params.increment.get());
        let factor: Smoother = Smoother::new(params.factor.get());
        let mix: Smoother = Smoother::new(params.mix.get());
        BruhSine {
            params,
            smoothers: Smoothers { gain, increment, factor, mix },
            processor: Processor::new(),
        }
    }

    /// At the start of every block, re-arm each smoother toward the latest
    /// written target over `steps` steps, starting from its current
    /// interpolated value.  The host may change block sizes and re-deliver
    /// targets arbitrarily between calls.
    pub fn block_start(&mut self, steps: u32)
        requires
            old(self).wf(),
            1 <= steps,
        ensures
            final(self).wf(),
            final(self).params == old(self).params,
            final(self).processor == old(self).processor,
            final(self).smoothers.gain.target == old(self).params.output.value,
            final(self).smoothers.increment.target == old(self).params.increment.value,
            final(self).smoothers.factor.target == old(self).params.factor.value,
            final(self).smoothers.mix.target == old(self).params.mix.value,
            final(self).smoothers.gain.start == old(self).smoothers.gain.current,
            final(self).smoothers.increment.start == old(self).smoothers.increment.current,
            final(self).smoothers.factor.start == old(self).smoothers.factor.current,
            final(self).smoothers.mix.start == old(self).smoothers.mix.current,
            final(self).smoothers.gain.total == steps,
            final(self).smoothers.increment.total == steps,
            final(self).smoothers.factor.total == steps,
            final(self).smoothers.mix.total == steps,
            final(self).smoothers.gain.steps_left == steps,
            final(self).smoothers.increment.steps_left == steps,
            final(self).smoothers.factor.steps_left == steps,
            final(self).smoothers.mix.steps_left == steps,
    {
        proof {
            crate::smoother::lemma_ramp_bounds(
                self.smoothers.gain.start as int,
                self.smoothers.gain.target as int,
                self.smoothers.gain.total as nat,
                (self.smoothers.gain.total - self.smoothers.gain.steps_left) as nat,
            );
            crate::smoother::lemma_ramp_bounds(
                self.smoothers.increment.start as int,
                self.smoothers.increment.target as int,
                self.smoothers.increment.total as nat,
                (self.smoothers.increment.total - self.smoothers.increment.steps_left) as nat,
            );
            crate::smoother::lemma_ramp_bounds(
                self.smoothers.factor.start as int,
                self.smoothers.factor.target as int,
                self.smoothers.factor.total as nat,
                (self.smoothers.factor.total - self.smoothers.factor.steps_left) as nat,
            );
            crate::smoother::lemma_ramp_bounds(
                self.smoothers.mix.start as int,
                self.smoothers.mix.target as int,
                self.smoothers.mix.total as nat,
                (self.smoothers.mix.total - self.smoothers.mix.steps_left) as nat,
            );
        }
        let t_gain: i64 = self.params.output.get();
        let t_increment: i64 = self.params.increment.get();
        let t_factor: i64 = self.params.factor.get();
        let t_mix: i64 = self.params.mix.get();
        self.smoothers.gain.set_target(t_gain, steps);
        self.smoothers.increment.set_target(t_increment, steps);
        self.smoothers.factor.set_target(t_factor, steps);
        self.smoothers.mix.set_target(t_mix, steps);
    }

    /// Begin one frame: pull the four smoothed coefficients.  The caller
    /// evaluates the shaping coefficient `sin(accum ^ factor)` from the
    /// current accumulator and the returned factor, then applies the frame.
    pub fn begin_frame(&mut self) -> (c: FrameCoeffs)
        requires
            old(self).wf(),
        ensures
            final(self).wf(),
            final(self).params == old(self).params,
            final(self).processor == old(self).processor,
            c.gain == old(self).smoothers.gain.next_value(),
            c.increment == old(self).smoothers.increment.next_value(),
            c.factor == old(self).smoothers.factor.next_value(),
            c.mix == old(self).smoothers.mix.next_value(),
            final(self).smoothers.gain == old(self).smoothers.gain.stepped(),
            final(self).smoothers.increment == old(self).smoothers.increment.stepped(),
            final(self).smoothers.factor == old(self).smoothers.factor.stepped(),
            final(self).smoothers.mix == old(self).smoothers.mix.stepped(),
            0 <= c.gain <= GAIN_MAX,
            0 <= c.increment <= SCALE,
            0 <= c.factor <= SCALE,
            0 <= c.mix <= MIX_FULL,
    {
        self.smoothers.next_frame()
    }

    /// The current accumulator value, read by the shaping step.
    pub fn accum(&self) -> (r: i64)
        ensures
            r == self.processor.accum,
    {
        self.processor.accum
    }

    /// Apply one frame: transform every channel sample in place under this
    /// frame's coefficients and shaping value, then advance the accumulator.
    pub fn apply_frame(&mut self, samples: &mut Vec<i64>, c: FrameCoeffs, shape: i64)
        requires
            old(self).wf(),
            -SCALE <= shape <= SCALE,
            0 <= c.mix <= MIX_FULL,
            0 <= c.gain <= GAIN_MAX,
            0 <= c.increment <= SCALE,
            forall|j: int|
                0 <= j < old(samples)@.len() ==> -AUDIO_MAX <= #[trigger] old(samples)@[j]
                    <= AUDIO_MAX,
        ensures
            final(self).wf(),
            final(self).params == old(self).params,
            final(self).smoothers == old(self).smoothers,
            final(self).processor.accum == accum_step_spec(
                old(self).processor.accum as int,
                c.increment as int,
            ),
            final(samples)@.len() == old(samples)@.len(),
            forall|j: int|
                0 <= j < old(samples)@.len() ==> final(samples)@[j] == out_sample_spec(
                    old(samples)@[j] as int,
                    shape as int,
                    c.mix as int,
                    c.gain as int,
                ),
    {
        self.processor.process_frame(samples, shape, c.gain, c.increment, c.mix);
    }

    /// A stream discontinuity (transport reset, restart) zeroes the
    /// accumulator; parameter values and ramps are kept.
    pub fn reset(&mut self)
        requires
            old(self).wf(),
        ensures
            final(self).wf(),
            final(self).params == old(self).params,
            final(self).smoothers == old(self).smoothers,
            final(self).processor.accum == 0,
    {
        self.processor.reset();
    }
}

} // verus!
