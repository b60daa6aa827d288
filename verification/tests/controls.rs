use bruh_sine::fixed::SCALE;
use bruh_sine::params::BruhSineParams;
use bruh_sine::params::GAIN_RANGE_MAX;
use bruh_sine::params::GAIN_RANGE_MIN;
use bruh_sine::params::Param;
use bruh_sine::params::ParamError;
use bruh_sine::params::ParamId;
use bruh_sine::processor::MIX_FULL;
use bruh_sine::range::NORM_ONE;
use bruh_sine::range::SkewedRange;
use bruh_sine::range::isqrt;
use bruh_sine::text::format_value;
use bruh_sine::text::parse_value;

#[test]
fn isqrt_squeeze() {
    assert_eq!(isqrt(0), 0);
    assert_eq!(isqrt(1), 1);
    assert_eq!(isqrt(3), 1);
    assert_eq!(isqrt(4), 2);
    assert_eq!(isqrt(999_999), 999);
    assert_eq!(isqrt(1_000_000), 1000);
    assert_eq!(isqrt(4_000_000_000_000_000_000), 2_000_000_000);
    assert_eq!(isqrt(3_999_999_999_999_999_999), 1_999_999_999);
}

// Round trip of the range mapping, position -> value -> position, on each
// of the effect's declared ranges.
#[test]
fn skew_round_trips() {
    let factor = SkewedRange { min: 0, max: SCALE };
    for p in [2i64, 10, 500, 999, 1000] {
        assert_eq!(factor.value_to_norm(factor.norm_to_value(p)), p);
    }
    let mix = SkewedRange { min: 0, max: MIX_FULL };
    for p in [1i64, 3, 250, 1000] {
        assert_eq!(mix.value_to_norm(mix.norm_to_value(p)), p);
    }
    let output = SkewedRange { min: GAIN_RANGE_MIN, max: GAIN_RANGE_MAX };
    for p in [1i64, 500, 777, 1000] {
        assert_eq!(output.value_to_norm(output.norm_to_value(p)), p);
    }
    let increment = SkewedRange { min: 10_000, max: SCALE };
    for p in [2i64, 100, 1000] {
        assert_eq!(increment.value_to_norm(increment.norm_to_value(p)), p);
    }
}

#[test]
fn skew_map_values() {
    let factor = SkewedRange { min: 0, max: SCALE };
    // Half knob travel selects a quarter of the range under the square law.
    assert_eq!(factor.norm_to_value(500), 250_000);
    assert_eq!(factor.norm_to_value(0), 0);
    assert_eq!(factor.norm_to_value(NORM_ONE), SCALE);
}

#[test]
fn clamp_keeps_range() {
    let r = SkewedRange { min: 10_000, max: SCALE };
    assert_eq!(r.clamp(-5), 10_000);
    assert_eq!(r.clamp(0), 10_000);
    assert_eq!(r.clamp(123_456), 123_456);
    assert_eq!(r.clamp(2_000_000), SCALE);
}

#[test]
fn param_set_clamps_and_keeps_value() {
    let mut p = Param::new(SkewedRange { min: 10_000, max: SCALE }, SCALE);
    assert_eq!(p.get(), SCALE);
    p.set(500_000);
    assert_eq!(p.get(), 500_000);
    p.set(5_000_000);
    assert_eq!(p.get(), SCALE);
    p.set(-1);
    assert_eq!(p.get(), 10_000);
}

#[test]
fn surface_defaults_match_declared_controls() {
    let s = BruhSineParams::new();
    assert_eq!(s.increment.get(), SCALE);
    assert_eq!(s.increment.range.min, 10_000);
    assert_eq!(s.increment.range.max, SCALE);
    assert_eq!(s.factor.get(), SCALE);
    assert_eq!(s.factor.range.min, 0);
    assert_eq!(s.mix.get(), MIX_FULL);
    assert_eq!(s.mix.range.max, MIX_FULL);
    assert_eq!(s.output.get(), SCALE);
    assert_eq!(s.output.range.min, GAIN_RANGE_MIN);
    assert_eq!(s.output.range.max, GAIN_RANGE_MAX);
}

#[test]
fn surface_write_then_read() {
    let mut s = BruhSineParams::new();
    s.write(ParamId::Mix, 25_000_000);
    assert_eq!(s.read(ParamId::Mix), 25_000_000);
    // Out-of-range writes are clamped, never rejected.
    s.write(ParamId::Output, 0);
    assert_eq!(s.read(ParamId::Output), GAIN_RANGE_MIN);
    // Other parameters are untouched.
    assert_eq!(s.read(ParamId::Increment), SCALE);
    assert_eq!(s.read(ParamId::Factor), SCALE);
}

#[test]
fn param_norm_accessors() {
    let mut p = Param::new(SkewedRange { min: 0, max: SCALE }, SCALE);
    p.set_norm(500);
    assert_eq!(p.get(), 250_000);
    assert_eq!(p.get_norm(), 500);
}

#[test]
fn parse_plain_numbers() {
    assert_eq!(parse_value(b"1.50", b""), Ok(1_500_000));
    assert_eq!(parse_value(b"100", b" %"), Ok(100_000_000));
    assert_eq!(parse_value(b"0.01", b""), Ok(10_000));
    assert_eq!(parse_value(b"-6.02", b" dB"), Ok(-6_020_000));
    assert_eq!(parse_value(b"7.123456", b""), Ok(7_123_456));
}

#[test]
fn parse_strips_unit_suffix() {
    assert_eq!(parse_value(b"42.50 %", b" %"), Ok(42_500_000));
    assert_eq!(parse_value(b"-30.00 dB", b" dB"), Ok(-30_000_000));
    // The suffix is optional; a different one is not a number.
    assert_eq!(
        parse_value(b"1.00 dB", b" %"),
        Err(ParamError::InvalidFormat)
    );
}

#[test]
fn parse_rejects_malformed_text() {
    assert_eq!(parse_value(b"", b""), Err(ParamError::InvalidFormat));
    assert_eq!(parse_value(b"abc", b""), Err(ParamError::InvalidFormat));
    assert_eq!(parse_value(b".5", b""), Err(ParamError::InvalidFormat));
    assert_eq!(parse_value(b"1.", b""), Err(ParamError::InvalidFormat));
    assert_eq!(parse_value(b"1..5", b""), Err(ParamError::InvalidFormat));
    assert_eq!(parse_value(b"-", b""), Err(ParamError::InvalidFormat));
    assert_eq!(parse_value(b"1 2", b""), Err(ParamError::InvalidFormat));
    // Too many digits for the fixed-point width.
    assert_eq!(parse_value(b"12345678", b""), Err(ParamError::InvalidFormat));
    assert_eq!(
        parse_value(b"1.1234567", b""),
        Err(ParamError::InvalidFormat)
    );
}

#[test]
fn format_two_decimals_with_unit() {
    assert_eq!(format_value(1_500_000, b" %"), b"1.50 %".to_vec());
    assert_eq!(format_value(-6_020_000, b" dB"), b"-6.02 dB".to_vec());
    assert_eq!(format_value(0, b""), b"0.00".to_vec());
    assert_eq!(format_value(100_000_000, b" %"), b"100.00 %".to_vec());
}

#[test]
fn format_rounds_to_nearest_hundredth() {
    assert_eq!(format_value(1_005_000, b""), b"1.01".to_vec());
    assert_eq!(format_value(1_004_999, b""), b"1.00".to_vec());
    assert_eq!(format_value(-1_005_000, b""), b"-1.01".to_vec());
    assert_eq!(format_value(999_999, b""), b"1.00".to_vec());
}

#[test]
fn format_parse_round_trip() {
    for v in [0i64, 10_000, 1_500_000, 31_622_777, -30_000_000] {
        let text = format_value(v, b" u");
        let back = parse_value(&text, b" u").unwrap();
        // Formatting rounds to hundredths; parsing is exact on that text.
        let cents = (v.abs() + 5000) / 10000;
        let expected = if v < 0 { -cents * 10_000 } else { cents * 10_000 };
        assert_eq!(back, expected);
    }
}
