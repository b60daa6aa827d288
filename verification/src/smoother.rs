//! Parameter smoothing: a finite ramp from the current value to a target.
//!
//! A ramp of `total` steps started at `start` toward `target` produces, on
//! its `k`-th step, the exactly interpolated value
//! `start + (target - start) * k / total`, so its last step lands on the
//! target with no accumulation drift, and every intermediate value lies
//! between the start and the target.  Once the ramp is exhausted, further
//! steps return the target unchanged.

use vstd::prelude::*;
use vstd::arithmetic::div_mod::lemma_div_is_ordered;
use vstd::arithmetic::div_mod::lemma_div_multiples_vanish;
use crate::fixed::VAL_MAX;
use crate::fixed::mul_div_floor;

verus! {

/// The smoothing time constant of every control, in milliseconds.
pub const SMOOTHING_MS: u32 = 50;

/// How many steps a ramp takes to cover a wall-clock time constant at the
/// given sample rate: the ceiling of `time_ms * sample_rate / 1000`, and at
/// least one, whatever block size the host picks.
pub fn ramp_steps(time_ms: u32, sample_rate: u32) -> (r: u32)
    requires
        1 <= time_ms <= 60_000,
        1 <= sample_rate <= 10_000_000,
    ensures
        r == (time_ms * sample_rate + 999) / 1000,
        1 <= r,
{
    proof {
        assert(1 <= (time_ms as int) * (sample_rate as int) <= 600_000_000_000)
            by (nonlinear_arith)
            requires
                1 <= time_ms <= 60_000,
                1 <= sample_rate <= 10_000_000,
        ;
    }
    let p: u64 = (time_ms as u64) * (sample_rate as u64);
    let q: u64 = (p + 999) / 1000;
    proof {
        lemma_div_is_ordered(p as int + 999, 600_000_000_999, 1000);
        lemma_div_is_ordered(1000, p as int + 999, 1000);
    }
    q as u32
}

/// The value a ramp holds after its `k`-th step.
pub open spec fn ramp_value_spec(start: int, target: int, total: nat, k: nat) -> int {
    if total == 0 {
        target
    } else {
        start + ((target - start) * k) / (total as int)
    }
}

/// Every ramp value lies between the start and the target.
pub proof fn lemma_ramp_bounds(start: int, target: int, total: nat, k: nat)
    requires
        k <= total,
    ensures
        start <= target ==> start <= ramp_value_spec(start, target, total, k) <= target,
        target <= start ==> target <= ramp_value_spec(start, target, total, k) <= start,
{
    if total > 0 {
        let delta = target - start;
        let t = total as int;
        if delta >= 0 {
            assert(0 <= delta * k && delta * k <= delta * t) by (nonlinear_arith)
                requires
                    0 <= delta,
                    0 <= k <= t,
            ;
            lemma_div_is_ordered(0, delta * k, t);
            lemma_div_is_ordered(delta * k, delta * t, t);
            assert(delta * t == t * delta) by (nonlinear_arith);
            lemma_div_multiples_vanish(delta, t);
        } else {
            assert(delta * t <= delta * k && delta * k <= 0) by (nonlinear_arith)
                requires
                    delta < 0,
                    0 <= k <= t,
            ;
            lemma_div_is_ordered(delta * k, 0, t);
            lemma_div_is_ordered(delta * t, delta * k, t);
            assert(delta * t == t * delta) by (nonlinear_arith);
            lemma_div_multiples_vanish(delta, t);
        }
    }
}

/// Convergence of smoothing: a ramp of `total >= 1` steps lands exactly on
/// its target on the last step, and never leaves the interval spanned by
/// its start and its target on the way there.
pub proof fn lemma_ramp_converges(start: int, target: int, total: nat, k: nat)
    requires
        1 <= total,
        k <= total,
    ensures
        ramp_value_spec(start, target, total, total) == target,
        start <= target ==> start <= ramp_value_spec(start, target, total, k) <= target,
        target <= start ==> target <= ramp_value_spec(start, target, total, k) <= start,
{
    let delta = target - start;
    let t = total as int;
    assert(delta * t == t * delta) by (nonlinear_arith);
    lemma_div_multiples_vanish(delta, t);
    lemma_ramp_bounds(start, target, total, k);
}

/// Ramps move monotonically: a later step is never on the far side of an
/// earlier one relative to the direction of travel.
pub proof fn lemma_ramp_monotone(start: int, target: int, total: nat, k1: nat, k2: nat)
    requires
        k1 <= k2 <= total,
    ensures
        start <= target ==> ramp_value_spec(start, target, total, k1) <= ramp_value_spec(
            start,
            target,
            total,
            k2,
        ),
        target <= start ==> ramp_value_spec(start, target, total, k2) <= ramp_value_spec(
            start,
            target,
            total,
            k1,
        ),
{
    if total > 0 {
        let delta = target - start;
        let t = total as int;
        if delta >= 0 {
            assert(delta * k1 <= delta * k2) by (nonlinear_arith)
                requires
                    0 <= delta,
                    k1 <= k2,
            ;
            lemma_div_is_ordered(delta * k1, delta * k2, t);
            if delta == 0 {
                assert(delta * k1 == 0 && delta * k2 == 0) by (nonlinear_arith)
                    requires
                        delta == 0,
                ;
            }
        } else {
            assert(delta * k2 <= delta * k1) by (nonlinear_arith)
                requires
                    delta < 0,
                    k1 <= k2,
            ;
            lemma_div_is_ordered(delta * k2, delta * k1, t);
        }
    }
}

/// One parameter's smoothing state.
pub struct Smoother {
    /// Value the current ramp started from.
    pub start: i64,
    /// Value the current ramp converges to.
    pub target: i64,
    /// Length of the current ramp, in steps.
    pub total: u32,
    /// Steps of the current ramp not yet taken.
    pub steps_left: u32,
    /// The last produced value.
    pub current: i64,
}

impl Smoother {
    /// Well-formed: bounded endpoints, a step index inside the ramp, and a
    /// current value that is exactly the ramp's interpolation there.
    pub open spec fn wf(self) -> bool {
        &&& -VAL_MAX <= self.start <= VAL_MAX
        &&& -VAL_MAX <= self.target <= VAL_MAX
        &&& self.steps_left <= self.total
        &&& (self.total == 0 ==> self.start == self.target)
        &&& self.current == ramp_value_spec(
            self.start as int,
            self.target as int,
            self.total as nat,
            (self.total - self.steps_left) as nat,
        )
    }

    /// The value the next step will produce: the next ramp point while the
    /// ramp runs, and the target itself, unchanged, once it is exhausted.
    pub open spec fn next_value(self) -> int {
        if self.steps_left == 0 {
            self.target as int
        } else {
            ramp_value_spec(
                self.start as int,
                self.target as int,
                self.total as nat,
                (self.total - self.steps_left + 1) as nat,
            )
        }
    }

    /// The state after one step: the step index advances while the ramp
    /// runs, and nothing changes once it is exhausted.
    pub open spec fn stepped(self) -> Smoother {
        Smoother {
            steps_left: if self.steps_left == 0 {
                0u32
            } else {
                (self.steps_left - 1) as u32
            },
            current: self.next_value() as i64,
            ..self
        }
    }

    /// A fresh smoother rests at the given value with no ramp armed.
    pub fn new(v: i64) -> (r: Smoother)
        requires
            -VAL_MAX <= v <= VAL_MAX,
        ensures
            r.wf(),
            r.start == v,
            r.target == v,
            r.total == 0,
            r.steps_left == 0,
            r.current == v,
    {
        Smoother { start: v, target: v, total: 0, steps_left: 0, current: v }
    }

    /// Re-arm the ramp toward a new target over `steps` steps, starting
    /// from the current interpolated value, not from the old target, so a
    /// retarget never produces a discontinuity.
    pub fn set_target(&mut self, t: i64, steps: u32)
        requires
            old(self).wf(),
            -VAL_MAX <= t <= VAL_MAX,
            1 <= steps,
        ensures
            final(self).wf(),
            final(self).start == old(self).current,
            final(self).target == t,
            final(self).total == steps,
            final(self).steps_left == steps,
            final(self).current == old(self).current,
    {
        proof {
            lemma_ramp_bounds(
                self.start as int,
                self.target as int,
                self.total as nat,
                (self.total - self.steps_left) as nat,
            );
        }
        self.start = self.current;
        self.target = t;
        self.total = steps;
        self.steps_left = steps;
        proof {
            assert(((t - self.start) as int) * 0int == 0) by (nonlinear_arith);
            assert(0int / (steps as int) == 0);
        }
    }

    /// Advance one step and return the newly interpolated value; at steady
    /// state (ramp exhausted) this returns the target, and the state does
    /// not change.
    pub fn next(&mut self) -> (r: i64)
        requires
            old(self).wf(),
        ensures
            final(self).wf(),
            r == old(self).next_value(),
            *final(self) == old(self).stepped(),
            old(self).start <= old(self).target ==> old(self).start <= r <= old(self).target,
            old(self).target <= old(self).start ==> old(self).target <= r <= old(self).start,
            -VAL_MAX <= r <= VAL_MAX,
    {
        if self.steps_left == 0 {
            proof {
                if self.total > 0 {
                    lemma_ramp_converges(
                        self.start as int,
                        self.target as int,
                        self.total as nat,
                        self.total as nat,
                    );
                }
            }
            self.current
        } else {
            self.steps_left = self.steps_left - 1;
            let k: u32 = self.total - self.steps_left;
            let delta: i64 = self.target - self.start;
            let step: i64 = mul_div_floor(delta, k, self.total);
            proof {
                lemma_ramp_bounds(
                    self.start as int,
                    self.target as int,
                    self.total as nat,
                    k as nat,
                );
            }
            self.current = self.start + step;
            self.current
        }
    }
}

} // verus!
