//! Checking the rules of a configuration before the bridge starts: every
//! gesture must be named in the gesture table, a gesture for several devices
//! needs a `devices` list with one device per device it drives, every device
//! must be `BACKEND/ID` with a known backend, and speed and scale must be
//! above zero.

use vstd::prelude::*;
use crate::backend::{is_known, is_known_spec};
use crate::config::Rule;
use crate::gestures::{device_span, gesture_named, gesture_span, lookup};
use crate::magnitude::{is_above_zero, is_above_zero_spec};
use crate::text::{split_at_first, split_once};

verus! {

/// Why a rule was refused.
pub enum RuleError {
    /// A gesture for one device, but no `device`.
    MissingDevice { gesture: String },
    /// A gesture for several devices, but no `devices` list with one entry
    /// per device it drives.
    MissingDevices { gesture: String },
    /// A device has no `/` between backend and id.
    MissingSlash { device: String },
    /// The backend part of a device names no known backend.
    UnknownBackend { backend: String, device: String },
    /// The gesture name is not in the gesture table.
    UnknownGesture { gesture: String, device: String },
    /// The speed factor (an `f32` bit pattern) is not above zero.
    NonPositiveSpeed { speed_bits: u32, gesture: String, device: String },
    /// The scale factor (an `f32` bit pattern) is not above zero.
    NonPositiveScale { scale_bits: u32, gesture: String, device: String },
}

impl RuleError {
    /// The text that explains the refusal.
    pub open spec fn message(&self) -> Seq<char> {
        match self {
            RuleError::MissingDevice { gesture } => "rule for gesture '"@ + gesture@
                + "' needs a device: BACKEND/ID"@,
            RuleError::MissingDevices { gesture } => "multi-device gesture '"@ + gesture@
                + "' requires devices: [...] with one BACKEND/ID per device"@,
            RuleError::MissingSlash { .. } => "device must be BACKEND/ID"@,
            RuleError::UnknownBackend { backend, device } => "unknown backend '"@ + backend@
                + "' in device '"@ + device@ + "'"@,
            RuleError::UnknownGesture { gesture, device } => "unknown gesture '"@ + gesture@
                + "' in rule for device '"@ + device@ + "'"@,
            RuleError::NonPositiveSpeed { gesture, device, .. } =>
                "rules[].gesture.speed must be > 0 (for gesture '"@ + gesture@ + "' on device '"@
                + device@ + "')"@,
            RuleError::NonPositiveScale { gesture, device, .. } =>
                "rules[].gesture.scale must be > 0 (for gesture '"@ + gesture@ + "' on device '"@
                + device@ + "')"@,
        }
    }

    /// The text that explains the refusal.
    pub fn to_string(&self) -> (res: String)
        ensures
            res@ == self.message(),
    {
        match self {
            RuleError::MissingDevice { gesture } => String::from_str("rule for gesture '").concat(
                gesture.as_str(),
            ).concat("' needs a device: BACKEND/ID"),
            RuleError::MissingDevices { gesture } => String::from_str("multi-device gesture '")
                .concat(gesture.as_str()).concat(
                "' requires devices: [...] with one BACKEND/ID per device",
            ),
            RuleError::MissingSlash { .. } => String::from_str("device must be BACKEND/ID"),
            RuleError::UnknownBackend { backend, device } => String::from_str("unknown backend '")
                .concat(backend.as_str()).concat("' in device '").concat(device.as_str()).concat(
                "'",
            ),
            RuleError::UnknownGesture { gesture, device } => String::from_str("unknown gesture '")
                .concat(gesture.as_str()).concat("' in rule for device '").concat(
                device.as_str(),
            ).concat("'"),
            RuleError::NonPositiveSpeed { gesture, device, .. } => String::from_str(
                "rules[].gesture.speed must be > 0 (for gesture '",
            ).concat(gesture.as_str()).concat("' on device '").concat(device.as_str()).concat(
                "')",
            ),
            RuleError::NonPositiveScale { gesture, device, .. } => String::from_str(
                "rules[].gesture.scale must be > 0 (for gesture '",
            ).concat(gesture.as_str()).concat("' on device '").concat(device.as_str()).concat(
                "')",
            ),
        }
    }
}

/// The backend part of a device `BACKEND/ID`: what precedes its first `/`.
pub open spec fn device_backend(device: Seq<char>) -> Option<Seq<char>> {
    match split_at_first(device, '/') {
        Some((b, _)) => Some(b),
        None => None,
    }
}

/// A device is usable when it is `BACKEND/ID` with a known backend.
pub open spec fn target_ok(device: Seq<char>) -> bool {
    device_backend(device) matches Some(b) && is_known_spec(b)
}

/// Whether `e` is the refusal of an unusable device.
pub open spec fn target_refusal(e: RuleError, device: Seq<char>) -> bool {
    match device_backend(device) {
        None => e matches RuleError::MissingSlash { device: d } && d@ == device,
        Some(b) => e matches RuleError::UnknownBackend { backend, device: d } && backend@ == b
            && d@ == device,
    }
}

/// Whether the rule's gesture is a known gesture for several devices.
pub open spec fn needs_device_list(r: Rule) -> bool {
    gesture_named(r.gesture.name@) matches Some(g) && device_span(g) > 1
}

/// The devices the rule plays on: its `devices` list, with one entry per
/// device, for a gesture for several devices; otherwise its single `device`.
/// `None` when the rule lacks them.
pub open spec fn required_targets(r: Rule) -> Option<Seq<String>> {
    if needs_device_list(r) {
        match r.devices {
            Some(l) => if l@.len() == device_span(gesture_named(r.gesture.name@)->0) {
                Some(l@)
            } else {
                None
            },
            None => None,
        }
    } else {
        match r.device {
            Some(d) => Some(seq![d]),
            None => None,
        }
    }
}

/// A rule is valid when it gives the devices its gesture needs, each
/// `BACKEND/ID` with a known backend, its gesture is named in the table, and
/// its speed and scale are above zero (NaN is not).
pub open spec fn rule_is_valid(r: Rule) -> bool {
    &&& required_targets(r) matches Some(ts) && forall|i: int|
        0 <= i < ts.len() ==> target_ok(#[trigger] ts[i]@)
    &&& gesture_named(r.gesture.name@) is Some
    &&& is_above_zero_spec(r.gesture.speed_bits)
    &&& is_above_zero_spec(r.gesture.scale_bits)
}

/// Whether `e` is the refusal of `r`: the first of its checks that fails, in
/// the order devices present, each device's format and backend in order,
/// gesture, speed, scale. The later refusals name the rule's first device.
pub open spec fn refusal_of(e: RuleError, r: Rule) -> bool {
    match required_targets(r) {
        None => if needs_device_list(r) {
            e matches RuleError::MissingDevices { gesture } && gesture@ == r.gesture.name@
        } else {
            e matches RuleError::MissingDevice { gesture } && gesture@ == r.gesture.name@
        },
        Some(ts) => if exists|i: int| 0 <= i < ts.len() && !target_ok(#[trigger] ts[i]@) {
            exists|i: int|
                0 <= i < ts.len() && (forall|j: int| 0 <= j < i ==> target_ok(#[trigger] ts[j]@))
                    && !target_ok(#[trigger] ts[i]@) && target_refusal(e, ts[i]@)
        } else if gesture_named(r.gesture.name@) is None {
            e matches RuleError::UnknownGesture { gesture, device } && gesture@ == r.gesture.name@
                && device@ == ts[0]@
        } else if !is_above_zero_spec(r.gesture.speed_bits) {
            e matches RuleError::NonPositiveSpeed { speed_bits, gesture, device } && speed_bits
                == r.gesture.speed_bits && gesture@ == r.gesture.name@ && device@ == ts[0]@
        } else if !is_above_zero_spec(r.gesture.scale_bits) {
            e matches RuleError::NonPositiveScale { scale_bits, gesture, device } && scale_bits
                == r.gesture.scale_bits && gesture@ == r.gesture.name@ && device@ == ts[0]@
        } else {
            false
        }
    }
}

/// A rule is valid exactly when its gesture is in the table, it gives the
/// devices that gesture needs, each `BACKEND/ID` with a known backend, and its
/// speed and scale are above zero (bit patterns of positive, non-NaN `f32`s,
/// `+inf` included). There is no other bound: any scale or speed above zero,
/// such as 2.0, is accepted.
pub proof fn lemma_rule_validity(r: Rule)
    ensures
        rule_is_valid(r) <==> {
            &&& gesture_named(r.gesture.name@) is Some
            &&& required_targets(r) matches Some(ts) && forall|i: int|
                0 <= i < ts.len() ==> (device_backend(#[trigger] ts[i]@) matches Some(b)
                    && is_known_spec(b))
            &&& 0 < r.gesture.speed_bits <= 0x7F80_0000
            &&& 0 < r.gesture.scale_bits <= 0x7F80_0000
        },
{
}

/// Checks one device.
pub fn check_target(device: &String) -> (res: Result<(), RuleError>)
    ensures
        res is Ok <==> target_ok(device@),
        res matches Err(e) ==> target_refusal(e, device@),
{
    let backend = match split_once(device.as_str(), '/') {
        Some((b, _)) => b,
        None => {
            return Err(RuleError::MissingSlash { device: device.clone() });
        },
    };
    if !is_known(backend.as_str()) {
        return Err(RuleError::UnknownBackend { backend, device: device.clone() });
    }
    Ok(())
}

/// Checks one rule.
pub fn check_rule(rule: &Rule) -> (res: Result<(), RuleError>)
    ensures
        res is Ok <==> rule_is_valid(*rule),
        res matches Err(e) ==> refusal_of(e, *rule),
{
    let found = lookup(rule.gesture.name.as_str());
    let multi = match &found {
        Some(g) => gesture_span(g) > 1,
        None => false,
    };
    let first: String;
    if multi {
        let span = gesture_span(found.as_ref().unwrap());
        let list = match &rule.devices {
            Some(l) => l,
            None => {
                return Err(RuleError::MissingDevices { gesture: rule.gesture.name.clone() });
            },
        };
        if list.len() != span {
            return Err(RuleError::MissingDevices { gesture: rule.gesture.name.clone() });
        }
        let ghost ts = list@;
        assert(required_targets(*rule) == Some(ts));
        let mut i: usize = 0;
        while i < list.len()
            invariant
                ts == list@,
                required_targets(*rule) == Some(ts),
                i <= list.len(),
                forall|j: int| 0 <= j < i ==> target_ok(#[trigger] ts[j]@),
            decreases list.len() - i,
        {
            match check_target(&list[i]) {
                Ok(()) => {},
                Err(e) => {
                    assert(!target_ok(ts[i as int]@));
                    assert(required_targets(*rule) matches Some(t2) && t2 == ts);
                    assert(!rule_is_valid(*rule));
                    assert(refusal_of(e, *rule));
                    return Err(e);
                },
            }
            i = i + 1;
        }
        first = list[0].clone();
    } else {
        let d = match &rule.device {
            Some(d) => d,
            None => {
                return Err(RuleError::MissingDevice { gesture: rule.gesture.name.clone() });
            },
        };
        let ghost ts = seq![*d];
        assert(required_targets(*rule) == Some(ts));
        assert(ts[0] == *d);
        match check_target(d) {
            Ok(()) => {},
            Err(e) => {
                assert(!target_ok(ts[0]@));
                assert(target_refusal(e, ts[0]@));
                assert(forall|j: int| 0 <= j < 0 ==> target_ok(#[trigger] ts[j]@));
                assert(required_targets(*rule) matches Some(t2) && t2 == ts);
                assert(!rule_is_valid(*rule));
                assert(refusal_of(e, *rule));
                return Err(e);
            },
        }
        assert forall|j: int| 0 <= j < 1 implies target_ok(#[trigger] seq![*d][j]@) by {
            assert(seq![*d][j] == *d);
        }
        first = d.clone();
    }
    let ghost ts = required_targets(*rule)->0;
    assert(ts[0]@ == first@);
    if found.is_none() {
        return Err(
            RuleError::UnknownGesture { gesture: rule.gesture.name.clone(), device: first },
        );
    }
    if !is_above_zero(rule.gesture.speed_bits) {
        return Err(
            RuleError::NonPositiveSpeed {
                speed_bits: rule.gesture.speed_bits,
                gesture: rule.gesture.name.clone(),
                device: first,
            },
        );
    }
    if !is_above_zero(rule.gesture.scale_bits) {
        return Err(
            RuleError::NonPositiveScale {
                scale_bits: rule.gesture.scale_bits,
                gesture: rule.gesture.name.clone(),
                device: first,
            },
        );
    }
    Ok(())
}

/// Checks the rules in order and refuses with the first failing check of the
/// first invalid rule.
pub fn validate_rules(rules: &[Rule]) -> (res: Result<(), RuleError>)
    ensures
        res is Ok <==> forall|i: int| 0 <= i < rules@.len() ==> rule_is_valid(#[trigger] rules@[i]),
        res matches Err(e) ==> exists|i: int|
            0 <= i < rules@.len() && (forall|j: int| 0 <= j < i ==> rule_is_valid(#[trigger] rules@[j]))
                && #[trigger] refusal_of(e, rules@[i]),
{
    let mut i: usize = 0;
    while i < rules.len()
        invariant
            i <= rules@.len(),
            forall|j: int| 0 <= j < i ==> rule_is_valid(#[trigger] rules@[j]),
        decreases rules.len() - i,
    {
        match check_rule(&rules[i]) {
            Ok(()) => {},
            Err(e) => {
                assert(refusal_of(e, rules@[i as int]));
                return Err(e);
            },
        }
        i = i + 1;
    }
    Ok(())
}

} // verus!
