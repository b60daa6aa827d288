//! Parameters and the shared parameter surface.
//!
//! A parameter is a range-bounded, automatable control value.  Writes from
//! automation or the GUI are clamped into the declared range and stored; the
//! real-time side reads the most recently stored target once per block.  The
//! surface owns the four parameters of the effect with the ranges and
//! defaults of the original controls, in micro-units.

use vstd::prelude::*;
use crate::fixed::SCALE;
use crate::range::NORM_ONE;
use crate::range::SkewedRange;
use crate::processor::MIX_FULL;

verus! {

/// Gain of -30 dB, in micro-units: the bottom of the output range.
pub const GAIN_RANGE_MIN: i64 = 31_623;

/// Gain of +30 dB, in micro-units: the top of the output range.
pub const GAIN_RANGE_MAX: i64 = 31_622_777;

/// The one error surfaced to the GUI layer: a text entry that cannot be
/// read as a number in the unit convention.  Out-of-range writes are
/// clamped, never reported, and the real-time path has no error states.
#[derive(Clone, Copy, PartialEq, Eq, Structural, Debug)]
pub enum ParamError {
    /// The string cannot be interpreted as a decimal number.
    InvalidFormat,
}

/// Which parameter an automation or GUI write addresses.
#[derive(Clone, Copy, PartialEq, Eq, Structural, Debug)]
pub enum ParamId {
    /// Per-frame advance of the phase accumulator.
    Increment,
    /// Exponent applied to the accumulator before the sine.
    Factor,
    /// Dry/wet blend, as a percentage.
    Mix,
    /// Output gain.
    Output,
}

/// One automatable control value.
pub struct Param {
    /// The declared value range.
    pub range: SkewedRange,
    /// The last stored target value; always inside the range.
    pub value: i64,
    /// The value the parameter is created with.
    pub default: i64,
}

impl Param {
    /// Well-formed: the range is valid and both values lie inside it.
    pub open spec fn wf(self) -> bool {
        &&& self.range.wf()
        &&& self.range.min <= self.value <= self.range.max
        &&& self.range.min <= self.default <= self.range.max
    }

    /// Create a parameter resting at its default.
    pub fn new(range: SkewedRange, default: i64) -> (r: Param)
        requires
            range.wf(),
            range.min <= default <= range.max,
        ensures
            r.wf(),
            r.range == range,
            r.value == default,
            r.default == default,
    {
        Param { range, value: default, default }
    }

    /// Store a new target value.  A write outside the declared bounds is
    /// clamped and kept, never propagated as an error.
    pub fn set(&mut self, raw: i64)
        requires
            old(self).wf(),
        ensures
            final(self).wf(),
            final(self).range == old(self).range,
            final(self).default == old(self).default,
            final(self).value == old(self).range.clamp_spec(raw as int),
    {
        let clamped: i64 = self.range.clamp(raw);
        self.value = clamped;
    }

    /// The last stored target value (the unsmoothed, true value).
    pub fn get(&self) -> (r: i64)
        ensures
            r == self.value,
    {
        self.value
    }

    /// Store the value a normalized knob position selects.
    pub fn set_norm(&mut self, p: i64)
        requires
            old(self).wf(),
            0 <= p <= NORM_ONE,
        ensures
            final(self).wf(),
            final(self).range == old(self).range,
            final(self).default == old(self).default,
            final(self).value == old(self).range.norm_to_value_spec(p as int),
    {
        let v: i64 = self.range.norm_to_value(p);
        self.value = v;
    }

    /// The normalized knob position of the current value.
    pub fn get_norm(&self) -> (r: i64)
        requires
            self.wf(),
        ensures
            r == self.range.value_to_norm_spec(self.value as int),
            0 <= r <= NORM_ONE,
    {
        self.range.value_to_norm(self.value)
    }
}

/// The shared store of current target values, written by automation or the
/// GUI and read by the smoothing stage once per block.
pub struct BruhSineParams {
    /// Accumulator increment, 0.01 to 1.0, default 1.0.
    pub increment: Param,
    /// Accumulator exponent, 0.0 to 1.0, default 1.0.
    pub factor: Param,
    /// Dry/wet blend, 0% to 100%, default 100%.
    pub mix: Param,
    /// Output gain, -30 dB to +30 dB, default unity.
    pub output: Param,
}

/// The declared range of the increment control.
pub open spec fn increment_range() -> SkewedRange {
    SkewedRange { min: 10_000, max: SCALE }
}

/// The declared range of the factor control.
pub open spec fn factor_range() -> SkewedRange {
    SkewedRange { min: 0, max: SCALE }
}

/// The declared range of the mix control.
pub open spec fn mix_range() -> SkewedRange {
    SkewedRange { min: 0, max: MIX_FULL }
}

/// The declared range of the output gain control.
pub open spec fn output_range() -> SkewedRange {
    SkewedRange { min: GAIN_RANGE_MIN, max: GAIN_RANGE_MAX }
}

impl BruhSineParams {
    /// Well-formed: every parameter is valid and keeps its declared range.
    pub open spec fn wf(self) -> bool {
        &&& self.increment.wf()
        &&& self.factor.wf()
        &&& self.mix.wf()
        &&& self.output.wf()
        &&& self.increment.range == increment_range()
        &&& self.factor.range == factor_range()
        &&& self.mix.range == mix_range()
        &&& self.output.range == output_range()
    }

    /// The surface with the effect's four controls at their defaults.
    pub fn new() -> (r: BruhSineParams)
        ensures
            r.wf(),
            r.increment.value == SCALE,
            r.factor.value == SCALE,
            r.mix.value == MIX_FULL,
            r.output.value == SCALE,
            r.increment.default == SCALE,
            r.factor.default == SCALE,
            r.mix.default == MIX_FULL,
            r.output.default == SCALE,
    {
        BruhSineParams {
            increment: Param::new(SkewedRange { min: 10_000, max: SCALE }, SCALE),
            factor: Param::new(SkewedRange { min: 0, max: SCALE }, SCALE),
            mix: Param::new(SkewedRange { min: 0, max: MIX_FULL }, MIX_FULL),
            output: Param::new(SkewedRange { min: GAIN_RANGE_MIN, max: GAIN_RANGE_MAX }, SCALE),
        }
    }

    /// Write one parameter's target: validate by clamping, then store.
    /// The other parameters are untouched.
    pub fn write(&mut self, id: ParamId, raw: i64)
        requires
            old(self).wf(),
        ensures
            final(self).wf(),
            id == ParamId::Increment ==> final(self).increment.value == old(
                self,
            ).increment.range.clamp_spec(raw as int) && final(self).factor == old(self).factor
                && final(self).mix == old(self).mix && final(self).output == old(self).output,
            id == ParamId::Factor ==> final(self).factor.value == old(
                self,
            ).factor.range.clamp_spec(raw as int) && final(self).increment == old(self).increment
                && final(self).mix == old(self).mix && final(self).output == old(self).output,
            id == ParamId::Mix ==> final(self).mix.value == old(self).mix.range.clamp_spec(
                raw as int,
            ) && final(self).increment == old(self).increment && final(self).factor == old(
                self,
            ).factor && final(self).output == old(self).output,
            id == ParamId::Output ==> final(self).output.value == old(self).output.range.clamp_spec(
                raw as int,
            ) && final(self).increment == old(self).increment && final(self).factor == old(
                self,
            ).factor && final(self).mix == old(self).mix,
    {
        match id {
            ParamId::Increment => self.increment.set(raw),
            ParamId::Factor => self.factor.set(raw),
            ParamId::Mix => self.mix.set(raw),
            ParamId::Output => self.output.set(raw),
        }
    }

    /// Read one parameter's most recently written target value.
    pub fn read(&self, id: ParamId) -> (r: i64)
        ensures
            id == ParamId::Increment ==> r == self.increment.value,
            id == ParamId::Factor ==> r == self.factor.value,
            id == ParamId::Mix ==> r == self.mix.value,
            id == ParamId::Output ==> r == self.output.value,
    {
        match id {
            ParamId::Increment => self.increment.get(),
            ParamId::Factor => self.factor.get(),
            ParamId::Mix => self.mix.get(),
            ParamId::Output => self.output.get(),
        }
    }
}

} // verus!
