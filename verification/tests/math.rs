use qbsp::math::{fixed_from_bits, EPSILON, MAX_COORD, SCALE};

/// For finite values within the saturation range the decoder computes
/// exactly `trunc(value * 65536)`: the float's exact binary value times
/// the scale, truncated toward zero.  (An `f32` converts to `f64` and
/// multiplies by 2^16 without rounding, so the expectation itself is
/// exact.)
fn expected(v: f32) -> i64 {
    ((v as f64) * (SCALE as f64)).trunc() as i64
}

#[test]
fn decode_exact_small_values() {
    for v in [0.0f32, 1.0, -1.0, 0.5, -0.5, 1.5, 2.25, -3.75, 65536.0, -65536.0] {
        assert_eq!(fixed_from_bits(v.to_bits()), expected(v), "decoding {}", v);
    }
    assert_eq!(fixed_from_bits(1.5f32.to_bits()), 98304);
    assert_eq!(fixed_from_bits((-0.5f32).to_bits()), -32768);
}

#[test]
fn decode_truncates_toward_zero() {
    for v in [0.1f32, -0.1, 3.14159, -3.14159, 123.456, -123.456] {
        assert_eq!(fixed_from_bits(v.to_bits()), expected(v), "decoding {}", v);
    }
}

#[test]
fn decode_negative_zero_is_zero() {
    assert_eq!(fixed_from_bits((-0.0f32).to_bits()), 0);
}

#[test]
fn decode_subnormals_truncate_to_zero() {
    assert_eq!(fixed_from_bits(1.0e-40f32.to_bits()), 0);
    assert_eq!(fixed_from_bits((-1.0e-40f32).to_bits()), 0);
    assert_eq!(fixed_from_bits(f32::MIN_POSITIVE.to_bits()), 0);
}

#[test]
fn decode_saturates_large_and_non_finite() {
    assert_eq!(fixed_from_bits(1.0e30f32.to_bits()), MAX_COORD);
    assert_eq!(fixed_from_bits((-1.0e30f32).to_bits()), -MAX_COORD);
    assert_eq!(fixed_from_bits(f32::INFINITY.to_bits()), MAX_COORD);
    assert_eq!(fixed_from_bits(f32::NEG_INFINITY.to_bits()), -MAX_COORD);
    assert_eq!(fixed_from_bits(f32::NAN.to_bits()).abs(), MAX_COORD);
}

#[test]
fn decode_boundary_of_saturation() {
    // 2^17 = 131072.0 still decodes exactly; the saturation bound is
    // 2^24 world units.
    assert_eq!(fixed_from_bits(131072.0f32.to_bits()), 131072 * SCALE);
    assert_eq!(fixed_from_bits(16777216.0f32.to_bits()), MAX_COORD);
}

#[test]
fn epsilon_is_about_1e_minus_4() {
    // One documented tolerance for every parallel/zero test.
    assert_eq!(EPSILON, 7);
    let as_real = EPSILON as f64 / SCALE as f64;
    assert!(as_real > 0.9e-4 && as_real < 1.2e-4);
}
