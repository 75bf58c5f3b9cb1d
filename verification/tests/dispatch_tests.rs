use haptics::config::{Filter, GestureConfig, Rule};
use haptics::dispatch::{dispatch_plan, rule_targets};
use haptics::event::CloudEvent;
use haptics::gestures::lookup;
use haptics::magnitude::ONE_BITS;

fn gesture(name: &str) -> GestureConfig {
    GestureConfig { name: name.into(), speed_bits: ONE_BITS, scale_bits: ONE_BITS }
}

fn rule(type_pattern: &str, device: &str, name: &str) -> Rule {
    Rule {
        filter: Filter { type_: Some(type_pattern.into()), ..Default::default() },
        gesture: gesture(name),
        device: Some(device.into()),
        devices: None,
    }
}

fn multi_rule(type_pattern: &str, devices: &[&str], name: &str) -> Rule {
    Rule {
        filter: Filter { type_: Some(type_pattern.into()), ..Default::default() },
        gesture: gesture(name),
        device: None,
        devices: Some(devices.iter().map(|d| d.to_string()).collect()),
    }
}

fn event(type_: &str) -> CloudEvent {
    CloudEvent {
        id: "1".into(),
        type_: type_.into(),
        source: "editor/jeff/vscode".into(),
        sourcetype: "editor".into(),
        subject: None,
        data: vec![],
    }
}

fn pair(b: &str, id: &str) -> (String, String) {
    (b.to_string(), id.to_string())
}

#[test]
fn dispatch_plays_every_accepting_rule_in_order() {
    let rules = vec![
        rule("devevents.task.*", "stdout/left", "pulse_short"),
        rule("devevents.file.*", "stdout/right", "pulse_long"),
        multi_rule("*", &["stdout/a/b", "stdout/c"], "both_long"),
    ];
    let plan = dispatch_plan(&rules, &event("devevents.task.failed"));
    assert_eq!(plan.len(), 2);
    assert_eq!(plan[0].rule, 0);
    assert_eq!(plan[0].targets, vec![pair("stdout", "left")]);
    assert_eq!(plan[0].gesture, lookup("pulse_short").unwrap());
    assert_eq!(plan[1].rule, 2);
    assert_eq!(plan[1].targets, vec![pair("stdout", "a/b"), pair("stdout", "c")]);
    assert_eq!(plan[1].gesture, lookup("both_long").unwrap());
    for d in &plan {
        assert!(d.gesture.iter().all(|e| (e.device as usize) < d.targets.len()));
    }
}

#[test]
fn dispatch_of_unmatched_event_is_empty() {
    let rules = vec![rule("devevents.task.*", "stdout/0", "pulse_short")];
    assert!(dispatch_plan(&rules, &event("other")).is_empty());
}

#[test]
fn rule_targets_follow_gesture_kind() {
    assert_eq!(rule_targets(&rule("*", "stdout/0", "stop")), vec![pair("stdout", "0")]);
    assert_eq!(
        rule_targets(&multi_rule("*", &["stdout/l", "stdout/r"], "stop_all")),
        vec![pair("stdout", "l"), pair("stdout", "r")]
    );
}
