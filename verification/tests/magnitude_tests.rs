use haptics::magnitude::{f32_eq, is_above_zero, ONE_BITS, ZERO_BITS};

const SAMPLES: [f32; 14] = [
    0.0, -0.0, 1.0, -1.0, 0.5, f32::MIN_POSITIVE, -f32::MIN_POSITIVE, 1e-45, -1e-45,
    f32::MAX, f32::MIN, f32::INFINITY, f32::NEG_INFINITY, f32::NAN,
];

#[test]
fn above_zero_agrees_with_float_comparison() {
    for x in SAMPLES {
        assert_eq!(is_above_zero(x.to_bits()), x > 0.0, "{x}");
    }
    assert!(!is_above_zero((-f32::NAN).to_bits()));
}

#[test]
fn named_bit_patterns() {
    assert_eq!(ZERO_BITS, 0.0f32.to_bits());
    assert_eq!(ONE_BITS, 1.0f32.to_bits());
}

#[test]
fn f32_eq_agrees_with_float_equality() {
    for x in SAMPLES {
        for y in SAMPLES {
            assert_eq!(f32_eq(x.to_bits(), y.to_bits()), x == y, "{x} {y}");
        }
    }
}
