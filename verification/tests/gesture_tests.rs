use haptics::gestures::{lookup, Event};
use haptics::magnitude::ONE_BITS;

const NAMES: [&str; 14] = [
    "pulse_short", "pulse_medium", "pulse_long",
    "double_short", "triple_short", "triple_slow",
    "both_medium", "both_long",
    "crossfade_medium", "crossfade_long",
    "both_double_short", "alternate_double_short",
    "stop", "stop_all",
];

fn magnitude(e: &Event) -> f32 {
    f32::from_bits(e.magnitude_bits)
}

#[test]
fn lookup_all_named_gestures() {
    for name in NAMES {
        assert!(lookup(name).is_some(), "lookup({name}) returned None");
    }
}

#[test]
fn lookup_unknown_returns_none() {
    assert!(lookup("nonexistent").is_none());
    assert!(lookup("PULSE_SHORT").is_none()); // case-sensitive
    assert!(lookup("").is_none());
}

#[test]
fn pulse_short_is_one_50ms_burst() {
    assert_eq!(lookup("pulse_short").unwrap(), vec![Event::new(50, ONE_BITS, 0)]);
}

#[test]
fn double_short_has_100ms_gap() {
    let g = lookup("double_short").unwrap();
    let durations: Vec<u32> = g.iter().map(|e| e.duration_ms).collect();
    let mags: Vec<f32> = g.iter().map(magnitude).collect();
    assert_eq!(durations, vec![50, 100, 50]);
    assert_eq!(mags, vec![1.0, 0.0, 1.0]);
}

#[test]
fn triple_slow_has_slower_cadence() {
    let g = lookup("triple_slow").unwrap();
    let durations: Vec<u32> = g.iter().map(|e| e.duration_ms).collect();
    assert_eq!(durations, vec![100, 200, 100, 200, 100]);
}

#[test]
fn alternate_double_short_waits_on_device_one() {
    let g = lookup("alternate_double_short").unwrap();
    assert_eq!(g.len(), 3);
    assert_eq!((g[0].device, magnitude(&g[0]), g[0].duration_ms), (0, 1.0, 50));
    assert_eq!((g[1].device, magnitude(&g[1]), g[1].duration_ms), (1, 0.0, 150));
    assert_eq!((g[2].device, magnitude(&g[2]), g[2].duration_ms), (1, 1.0, 50));
}

#[test]
fn crossfades_keep_total_power_constant() {
    for (name, steps, step_ms) in [("crossfade_medium", 6, 50), ("crossfade_long", 10, 100)] {
        let g = lookup(name).unwrap();
        assert_eq!(g.len(), 2 * steps);
        for pair in g.chunks(2) {
            assert_eq!((pair[0].device, pair[1].device), (0, 1));
            assert_eq!((pair[0].duration_ms, pair[1].duration_ms), (step_ms, step_ms));
            assert!((magnitude(&pair[0]) + magnitude(&pair[1]) - 1.0).abs() < 1e-6);
        }
        assert_eq!(magnitude(&g[0]), 1.0);
        assert_eq!(magnitude(&g[2 * steps - 1]), 1.0);
    }
}

#[test]
fn every_gesture_magnitude_is_within_unit_interval() {
    for name in NAMES {
        for e in lookup(name).unwrap() {
            let m = magnitude(&e);
            assert!((0.0..=1.0).contains(&m), "{name}: {m}");
            assert!(e.device <= 1);
        }
    }
}

#[test]
fn crossfade_long_magnitudes_are_the_documented_values() {
    let g = lookup("crossfade_long").unwrap();
    let fading: Vec<f32> = g.iter().step_by(2).map(magnitude).collect();
    assert_eq!(fading, vec![1.00, 0.89, 0.78, 0.67, 0.56, 0.44, 0.33, 0.22, 0.11, 0.00]);
}

#[test]
fn stop_gestures_are_silence() {
    let stop = lookup("stop").unwrap();
    assert_eq!(stop.len(), 1);
    assert_eq!(stop[0].device, 0);
    let stop_all = lookup("stop_all").unwrap();
    let devices: Vec<u8> = stop_all.iter().map(|e| e.device).collect();
    assert_eq!(devices, vec![0, 1]);
    for e in stop.iter().chain(stop_all.iter()) {
        assert_eq!(magnitude(e), 0.0);
    }
}

#[test]
fn event_equality_compares_magnitudes_as_floats() {
    assert_eq!(Event::new(10, 0.0f32.to_bits(), 0), Event::new(10, (-0.0f32).to_bits(), 0));
    assert_ne!(Event::new(10, f32::NAN.to_bits(), 0), Event::new(10, f32::NAN.to_bits(), 0));
    assert_ne!(Event::new(10, 1.0f32.to_bits(), 0), Event::new(11, 1.0f32.to_bits(), 0));
    assert_ne!(Event::new(10, 1.0f32.to_bits(), 0), Event::new(10, 1.0f32.to_bits(), 1));
    assert_ne!(Event::new(10, 1.0f32.to_bits(), 0), Event::new(10, 0.5f32.to_bits(), 0));
}
