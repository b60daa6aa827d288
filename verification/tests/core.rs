use bruh_sine::BruhSine;
use bruh_sine::fixed::SCALE;
use bruh_sine::fixed::div_floor;
use bruh_sine::fixed::mul_div_floor;
use bruh_sine::processor::ACCUM_CEILING;
use bruh_sine::processor::MIX_FULL;
use bruh_sine::processor::Processor;
use bruh_sine::processor::out_sample;
use bruh_sine::smoother::Smoother;
use bruh_sine::smoother::ramp_steps;

#[test]
fn div_floor_rounds_down() {
    assert_eq!(div_floor(7, 2), 3);
    assert_eq!(div_floor(-7, 2), -4);
    assert_eq!(div_floor(-8, 2), -4);
    assert_eq!(div_floor(0, 5), 0);
}

#[test]
fn mul_div_floor_interpolates() {
    assert_eq!(mul_div_floor(1_000_000, 1, 4), 250_000);
    assert_eq!(mul_div_floor(-1_000_000, 3, 4), -750_000);
    assert_eq!(mul_div_floor(999_999, 3, 3), 999_999);
}

// A ramp of N steps lands exactly on the target on the Nth call, with every
// intermediate value between start and target.
#[test]
fn smoother_reaches_target_in_n_steps() {
    let mut s = Smoother::new(0);
    s.set_target(1_000_000, 4);
    let v1 = s.next();
    let v2 = s.next();
    let v3 = s.next();
    let v4 = s.next();
    assert_eq!(v1, 250_000);
    assert_eq!(v2, 500_000);
    assert_eq!(v3, 750_000);
    assert_eq!(v4, 1_000_000);
}

#[test]
fn smoother_downward_ramp_stays_in_bounds() {
    let mut s = Smoother::new(900_000);
    s.set_target(100_000, 5);
    let mut prev = 900_000i64;
    for _ in 0..5 {
        let v = s.next();
        assert!(v <= prev, "ramp must fall monotonically");
        assert!((100_000..=900_000).contains(&v));
        prev = v;
    }
    assert_eq!(prev, 100_000);
}

// Once a ramp is exhausted, repeated next() calls return the target.
#[test]
fn smoother_next_idempotent_at_steady_state() {
    let mut s = Smoother::new(42);
    s.set_target(777_000, 3);
    for _ in 0..3 {
        s.next();
    }
    for _ in 0..10 {
        assert_eq!(s.next(), 777_000);
    }
}

// A retarget mid-ramp restarts from the current value, not the old target.
#[test]
fn smoother_retarget_starts_from_current() {
    let mut s = Smoother::new(0);
    s.set_target(1_000_000, 4);
    s.next();
    s.next();
    s.set_target(0, 2);
    assert_eq!(s.start, 500_000);
    let v1 = s.next();
    let v2 = s.next();
    assert_eq!(v1, 250_000);
    assert_eq!(v2, 0);
}

#[test]
fn ramp_steps_is_ceiling() {
    assert_eq!(ramp_steps(50, 48_000), 2400);
    assert_eq!(ramp_steps(50, 44_100), 2205);
    assert_eq!(ramp_steps(1, 1), 1);
    assert_eq!(ramp_steps(1, 999), 1);
    assert_eq!(ramp_steps(1, 1001), 2);
}

// With increment 0.3, the accumulator wraps to zero on frame 34
// (the ceiling of 10 / 0.3) and never exceeds 10.0 when read.
#[test]
fn accumulator_wraps_within_ceiling_over_increment() {
    let mut p = Processor::new();
    let inc = 300_000i64;
    let mut wrapped = false;
    for k in 1..=34 {
        p.advance(inc);
        assert!(p.accum <= ACCUM_CEILING);
        if p.accum == 0 {
            wrapped = true;
            assert_eq!(k, 34);
        }
    }
    assert!(wrapped);
}

// With an increment that divides the ceiling exactly, the accumulator
// reaches the ceiling without wrapping and resets one frame later.
#[test]
fn accumulator_exact_divisor_wraps_one_frame_late() {
    let mut p = Processor::new();
    for _ in 0..10 {
        p.advance(SCALE);
    }
    assert_eq!(p.accum, ACCUM_CEILING);
    p.advance(SCALE);
    assert_eq!(p.accum, 0);
}

// With mix at 0%, the output is the input scaled by the gain alone,
// whatever the shaping coefficient.
#[test]
fn mix_zero_bypasses_shaping() {
    assert_eq!(out_sample(123_456, 841_471, 0, 2_000_000), 246_912);
    assert_eq!(out_sample(-500_000, -999_999, 0, 500_000), -250_000);
}

// With mix at 100%, the output is the shaped signal scaled by the gain:
// the dry path is exactly absent.
#[test]
fn mix_full_is_pure_shaped_signal() {
    let s = 1_000_000i64;
    let shape = 841_471i64;
    assert_eq!(out_sample(s, shape, MIX_FULL, 1_000_000), 841_471);
    assert_eq!(out_sample(2_000_000, 500_000, MIX_FULL, 1_000_000), 1_000_000);
}

// With unity gain and mix at 0%, the transform is the identity.
#[test]
fn unity_gain_dry_is_identity() {
    for s in [0i64, 1, -1, 999_999, -999_999, 16_000_000, -16_000_000] {
        assert_eq!(out_sample(s, 123_456, 0, SCALE), s);
    }
}

// End-to-end: four stereo frames of 1.0, increment 1.0, factor 1.0,
// mix 100%, unity gain, smoothers already converged.  Each frame's output
// is sin(accumulator), replicated on both channels.
#[test]
fn four_frame_stereo_scenario() {
    let mut fx = BruhSine::new();
    let expected = [0.0f64, 0.8415, 0.9093, 0.1411];
    for k in 0..4usize {
        let c = fx.begin_frame();
        assert_eq!(c.increment, SCALE);
        assert_eq!(c.factor, SCALE);
        assert_eq!(c.mix, MIX_FULL);
        assert_eq!(c.gain, SCALE);
        let acc = fx.accum() as f64 / 1e6;
        let factor = c.factor as f64 / 1e6;
        let shape = (acc.powf(factor).sin() * 1e6).round() as i64;
        let mut frame = vec![1_000_000i64, 1_000_000i64];
        fx.apply_frame(&mut frame, c, shape);
        assert_eq!(frame[0], shape);
        assert_eq!(frame[1], shape);
        let got = frame[0] as f64 / 1e6;
        assert!(
            (got - expected[k]).abs() < 5e-4,
            "frame {k}: got {got}, expected {}",
            expected[k]
        );
        assert_eq!(fx.accum(), ((k + 1) as i64) * SCALE);
    }
}

// A transport reset zeroes the accumulator and keeps everything else.
#[test]
fn reset_zeroes_accumulator() {
    let mut fx = BruhSine::new();
    let c = fx.begin_frame();
    let mut frame = vec![500_000i64];
    fx.apply_frame(&mut frame, c, 0);
    assert_eq!(fx.accum(), SCALE);
    fx.reset();
    assert_eq!(fx.accum(), 0);
}

// A block re-arms every smoother toward the latest written target.
#[test]
fn block_start_ramps_toward_new_target() {
    let mut fx = BruhSine::new();
    fx.params.mix.set(0);
    fx.block_start(4);
    let mut mixes = Vec::new();
    for _ in 0..4 {
        let c = fx.begin_frame();
        mixes.push(c.mix);
        let mut frame = vec![0i64];
        fx.apply_frame(&mut frame, c, 0);
    }
    assert_eq!(mixes, vec![75_000_000, 50_000_000, 25_000_000, 0]);
}
