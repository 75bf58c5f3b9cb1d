use haptics::config::{Filter, GestureConfig, Rule};
use haptics::rules::{validate_rules, RuleError};

fn rule(device: &str, gesture: &str, speed: f32, scale: f32) -> Rule {
    Rule {
        device: Some(device.into()),
        devices: None,
        filter: Filter::default(),
        gesture: GestureConfig {
            name: gesture.into(),
            speed_bits: speed.to_bits(),
            scale_bits: scale.to_bits(),
        },
    }
}

fn valid() -> Rule {
    rule("stdout/0", "pulse_short", 1.0, 1.0)
}

#[test]
fn validate_valid_rule() {
    assert!(validate_rules(&[valid()]).is_ok());
}

#[test]
fn validate_empty_rules() {
    assert!(validate_rules(&[]).is_ok());
}

#[test]
fn validate_missing_slash_in_device() {
    let err = validate_rules(&[rule("stdout", "pulse_short", 1.0, 1.0)]).unwrap_err();
    assert!(err.to_string().contains("BACKEND/ID"));
}

#[test]
fn validate_unknown_backend() {
    let err = validate_rules(&[rule("nfc/0", "pulse_short", 1.0, 1.0)]).unwrap_err();
    assert!(err.to_string().contains("nfc"));
}

#[test]
fn validate_unknown_gesture() {
    let err = validate_rules(&[rule("stdout/0", "nonexistent", 1.0, 1.0)]).unwrap_err();
    assert!(err.to_string().contains("nonexistent"));
}

#[test]
fn validate_speed_zero() {
    let err = validate_rules(&[rule("stdout/0", "pulse_short", 0.0, 1.0)]).unwrap_err();
    assert!(err.to_string().contains("speed"));
}

#[test]
fn validate_speed_negative() {
    let err = validate_rules(&[rule("stdout/0", "pulse_short", -1.0, 1.0)]).unwrap_err();
    assert!(err.to_string().contains("speed"));
}

#[test]
fn validate_scale_zero() {
    let err = validate_rules(&[rule("stdout/0", "pulse_short", 1.0, 0.0)]).unwrap_err();
    assert!(err.to_string().contains("scale"));
}

#[test]
fn validate_scale_negative() {
    let err = validate_rules(&[rule("stdout/0", "pulse_short", 1.0, -0.5)]).unwrap_err();
    assert!(err.to_string().contains("scale"));
}

#[test]
fn validate_reports_first_invalid_rule() {
    let rules = [valid(), rule("nfc/0", "nonexistent", 1.0, 1.0), rule("x", "y", 0.0, 0.0)];
    match validate_rules(&rules).unwrap_err() {
        RuleError::UnknownBackend { backend, device } => {
            assert_eq!(backend, "nfc");
            assert_eq!(device, "nfc/0");
        },
        _ => panic!("expected the unknown backend of the second rule"),
    }
}

#[test]
fn validate_checks_speed_before_scale() {
    let err = validate_rules(&[rule("stdout/0", "pulse_short", -1.0, -1.0)]).unwrap_err();
    assert!(matches!(err, RuleError::NonPositiveSpeed { .. }));
}

#[test]
fn validate_error_messages_are_exact() {
    let msg = |r: Rule| validate_rules(&[r]).unwrap_err().to_string();
    assert_eq!(msg(rule("stdout", "pulse_short", 1.0, 1.0)), "device must be BACKEND/ID");
    assert_eq!(
        msg(rule("nfc/0", "pulse_short", 1.0, 1.0)),
        "unknown backend 'nfc' in device 'nfc/0'"
    );
    assert_eq!(
        msg(rule("stdout/0", "buzz", 1.0, 1.0)),
        "unknown gesture 'buzz' in rule for device 'stdout/0'"
    );
    assert_eq!(
        msg(rule("stdout/0", "pulse_short", 0.0, 1.0)),
        "rules[].gesture.speed must be > 0 (for gesture 'pulse_short' on device 'stdout/0')"
    );
}

#[test]
fn validate_splits_device_at_first_slash() {
    assert!(validate_rules(&[rule("stdout/a/b", "pulse_short", 1.0, 1.0)]).is_ok());
    assert!(validate_rules(&[rule("stdout/", "pulse_short", 1.0, 1.0)]).is_ok());
    assert!(validate_rules(&[rule("/stdout", "pulse_short", 1.0, 1.0)]).is_err());
}

#[test]
fn validate_refuses_nan_factors() {
    let err = validate_rules(&[rule("stdout/0", "pulse_short", f32::NAN, 1.0)]).unwrap_err();
    assert!(matches!(err, RuleError::NonPositiveSpeed { .. }));
    let err = validate_rules(&[rule("stdout/0", "pulse_short", 1.0, f32::NAN)]).unwrap_err();
    assert!(matches!(err, RuleError::NonPositiveScale { .. }));
}

fn multi_rule(devices: &[&str], gesture: &str) -> Rule {
    Rule {
        device: None,
        devices: Some(devices.iter().map(|d| d.to_string()).collect()),
        filter: Filter::default(),
        gesture: GestureConfig {
            name: gesture.into(),
            speed_bits: 1.0f32.to_bits(),
            scale_bits: 1.0f32.to_bits(),
        },
    }
}

#[test]
fn validate_multi_device_gesture_needs_device_list() {
    for name in ["both_medium", "both_long", "crossfade_medium", "crossfade_long",
                 "both_double_short", "alternate_double_short", "stop_all"] {
        let err = validate_rules(&[rule("stdout/0", name, 1.0, 1.0)]).unwrap_err();
        assert!(matches!(err, RuleError::MissingDevices { .. }), "{name}");
        assert!(err.to_string().contains("devices"), "{name}");
        assert!(validate_rules(&[multi_rule(&["stdout/l", "stdout/r"], name)]).is_ok(), "{name}");
    }
}

#[test]
fn validate_device_list_needs_one_entry_per_device() {
    let err = validate_rules(&[multi_rule(&["stdout/l"], "both_medium")]).unwrap_err();
    assert!(matches!(err, RuleError::MissingDevices { .. }));
    let err = validate_rules(&[multi_rule(&["stdout/l", "stdout/r", "stdout/x"], "both_medium")]).unwrap_err();
    assert!(matches!(err, RuleError::MissingDevices { .. }));
}

#[test]
fn validate_checks_every_listed_device() {
    let err = validate_rules(&[multi_rule(&["stdout/l", "nfc/r"], "both_medium")]).unwrap_err();
    match err {
        RuleError::UnknownBackend { backend, device } => {
            assert_eq!(backend, "nfc");
            assert_eq!(device, "nfc/r");
        },
        _ => panic!("expected the unknown backend of the second device"),
    }
    let err = validate_rules(&[multi_rule(&["stdout", "nfc/r"], "both_medium")]).unwrap_err();
    assert!(matches!(err, RuleError::MissingSlash { .. }));
}

#[test]
fn validate_single_device_gesture_needs_device() {
    let err = validate_rules(&[multi_rule(&["stdout/l", "stdout/r"], "pulse_short")]).unwrap_err();
    assert!(matches!(err, RuleError::MissingDevice { .. }));
    assert!(validate_rules(&[rule("stdout/0", "stop", 1.0, 1.0)]).is_ok());
}
