//! The named haptic gestures. A gesture is a sequence of events; each event
//! applies a magnitude to a device for a number of milliseconds. Events on the
//! same device fire one after another; events on different devices fire in
//! parallel, on independent channels.
//!
//! Magnitudes are written as `f32` bit patterns: `0x00000000` is 0.0,
//! `0x3F800000` is 1.0; the crossfade steps are 0.2 `0x3E4CCCCD`, 0.4
//! `0x3ECCCCCD`, 0.6 `0x3F19999A`, 0.8 `0x3F4CCCCD` and 0.11 `0x3DE147AE`,
//! 0.22 `0x3E6147AE`, 0.33 `0x3EA8F5C3`, 0.44 `0x3EE147AE`, 0.56 `0x3F0F5C29`,
//! 0.67 `0x3F2B851F`, 0.78 `0x3F47AE14`, 0.89 `0x3F63D70A`.

use vstd::prelude::*;
use crate::text::str_eq;
use crate::magnitude::{ZERO_BITS, f32_eq, f32_eq_spec, is_unit_interval_spec};

verus! {

/// A single haptic event: apply the magnitude to `device` for `duration_ms`
/// milliseconds. The magnitude is the `f32` whose bit pattern is
/// `magnitude_bits` (see `crate::magnitude`).
#[derive(Debug, Clone, Copy)]
pub struct Event {
    pub duration_ms: u32,
    pub magnitude_bits: u32,
    pub device: u8,
}

/// Events are equal when their durations and devices are, and their
/// magnitudes are equal as `f32`s (so `0.0 == -0.0`, and a NaN magnitude
/// equals nothing).
impl PartialEq for Event {
    fn eq(&self, other: &Self) -> (res: bool) {
        self.duration_ms == other.duration_ms && f32_eq(self.magnitude_bits, other.magnitude_bits)
            && self.device == other.device
    }
}

impl vstd::std_specs::cmp::PartialEqSpecImpl for Event {
    open spec fn obeys_eq_spec() -> bool {
        true
    }

    open spec fn eq_spec(&self, other: &Event) -> bool {
        &&& self.duration_ms == other.duration_ms
        &&& f32_eq_spec(self.magnitude_bits, other.magnitude_bits)
        &&& self.device == other.device
    }
}

impl Event {
    /// The event with the given duration, magnitude and device.
    pub fn new(duration_ms: u32, magnitude_bits: u32, device: u8) -> (res: Self)
        ensures
            res == (Event { duration_ms, magnitude_bits, device }),
    {
        Event { duration_ms, magnitude_bits, device }
    }
}

/// The event value, in specifications.
pub open spec fn ev(duration_ms: u32, magnitude_bits: u32, device: u8) -> Event {
    Event { duration_ms, magnitude_bits, device }
}

/// One 50 ms burst.
pub open spec fn pulse_short_events() -> Seq<Event> {
    seq![ev(50, 0x3F800000, 0)]
}

/// One 300 ms burst.
pub open spec fn pulse_medium_events() -> Seq<Event> {
    seq![ev(300, 0x3F800000, 0)]
}

/// One 1000 ms burst.
pub open spec fn pulse_long_events() -> Seq<Event> {
    seq![ev(1000, 0x3F800000, 0)]
}

/// Two 50 ms pulses, 100 ms gap between.
pub open spec fn double_short_events() -> Seq<Event> {
    seq![ev(50, 0x3F800000, 0), ev(100, 0x00000000, 0), ev(50, 0x3F800000, 0)]
}

/// Three 50 ms pulses, 100 ms gaps between.
pub open spec fn triple_short_events() -> Seq<Event> {
    seq![ev(50, 0x3F800000, 0), ev(100, 0x00000000, 0), ev(50, 0x3F800000, 0), ev(100, 0x00000000, 0), ev(50, 0x3F800000, 0)]
}

/// Three 100 ms pulses, 200 ms gaps between: a slower cadence.
pub open spec fn triple_slow_events() -> Seq<Event> {
    seq![ev(100, 0x3F800000, 0), ev(200, 0x00000000, 0), ev(100, 0x3F800000, 0), ev(200, 0x00000000, 0), ev(100, 0x3F800000, 0)]
}

/// One 300 ms burst on both devices simultaneously.
pub open spec fn both_medium_events() -> Seq<Event> {
    seq![ev(300, 0x3F800000, 0), ev(300, 0x3F800000, 1)]
}

/// One 1000 ms burst on both devices simultaneously.
pub open spec fn both_long_events() -> Seq<Event> {
    seq![ev(1000, 0x3F800000, 0), ev(1000, 0x3F800000, 1)]
}

/// 300 ms crossfade: device 0 fades out while device 1 fades in (constant total power), 6 steps of 50 ms.
pub open spec fn crossfade_medium_events() -> Seq<Event> {
    seq![ev(50, 0x3F800000, 0), ev(50, 0x00000000, 1), ev(50, 0x3F4CCCCD, 0), ev(50, 0x3E4CCCCD, 1), ev(50, 0x3F19999A, 0), ev(50, 0x3ECCCCCD, 1), ev(50, 0x3ECCCCCD, 0), ev(50, 0x3F19999A, 1), ev(50, 0x3E4CCCCD, 0), ev(50, 0x3F4CCCCD, 1), ev(50, 0x00000000, 0), ev(50, 0x3F800000, 1)]
}

/// 1000 ms crossfade: device 0 fades out while device 1 fades in (constant total power), 10 steps of 100 ms.
pub open spec fn crossfade_long_events() -> Seq<Event> {
    seq![ev(100, 0x3F800000, 0), ev(100, 0x00000000, 1), ev(100, 0x3F63D70A, 0), ev(100, 0x3DE147AE, 1), ev(100, 0x3F47AE14, 0), ev(100, 0x3E6147AE, 1), ev(100, 0x3F2B851F, 0), ev(100, 0x3EA8F5C3, 1), ev(100, 0x3F0F5C29, 0), ev(100, 0x3EE147AE, 1), ev(100, 0x3EE147AE, 0), ev(100, 0x3F0F5C29, 1), ev(100, 0x3EA8F5C3, 0), ev(100, 0x3F2B851F, 1), ev(100, 0x3E6147AE, 0), ev(100, 0x3F47AE14, 1), ev(100, 0x3DE147AE, 0), ev(100, 0x3F63D70A, 1), ev(100, 0x00000000, 0), ev(100, 0x3F800000, 1)]
}

/// Two 50 ms pulses on both devices simultaneously, 100 ms gap between.
pub open spec fn both_double_short_events() -> Seq<Event> {
    seq![ev(50, 0x3F800000, 0), ev(50, 0x3F800000, 1), ev(100, 0x00000000, 0), ev(100, 0x00000000, 1), ev(50, 0x3F800000, 0), ev(50, 0x3F800000, 1)]
}

/// Two 50 ms pulses alternating: first device 0, then device 1, which waits 150 ms (pulse and gap) before firing.
pub open spec fn alternate_double_short_events() -> Seq<Event> {
    seq![ev(50, 0x3F800000, 0), ev(150, 0x00000000, 1), ev(50, 0x3F800000, 1)]
}

/// Silence on device 0: switch it off at once.
pub open spec fn stop_events() -> Seq<Event> {
    seq![ev(0, 0x00000000, 0)]
}

/// Silence on both devices: switch them off at once.
pub open spec fn stop_all_events() -> Seq<Event> {
    seq![ev(0, 0x00000000, 0), ev(0, 0x00000000, 1)]
}

/// The gesture that `name` names, if it names one. Names are case-sensitive.
pub open spec fn gesture_named(name: Seq<char>) -> Option<Seq<Event>> {
    if name == "pulse_short"@ {
        Some(pulse_short_events())
    } else if name == "pulse_medium"@ {
        Some(pulse_medium_events())
    } else if name == "pulse_long"@ {
        Some(pulse_long_events())
    } else if name == "double_short"@ {
        Some(double_short_events())
    } else if name == "triple_short"@ {
        Some(triple_short_events())
    } else if name == "triple_slow"@ {
        Some(triple_slow_events())
    } else if name == "both_medium"@ {
        Some(both_medium_events())
    } else if name == "both_long"@ {
        Some(both_long_events())
    } else if name == "crossfade_medium"@ {
        Some(crossfade_medium_events())
    } else if name == "crossfade_long"@ {
        Some(crossfade_long_events())
    } else if name == "both_double_short"@ {
        Some(both_double_short_events())
    } else if name == "alternate_double_short"@ {
        Some(alternate_double_short_events())
    } else if name == "stop"@ {
        Some(stop_events())
    } else if name == "stop_all"@ {
        Some(stop_all_events())
    } else {
        None
    }
}

/// The gesture has events, every one targets device 0 or 1 and has a
/// magnitude between 0.0 and 1.0.
pub open spec fn gesture_is_playable(g: Seq<Event>) -> bool {
    &&& g.len() > 0
    &&& forall|i: int|
        0 <= i < g.len() ==> {
            &&& (#[trigger] g[i]).device <= 1
            &&& is_unit_interval_spec(g[i].magnitude_bits)
        }
}

/// Every named gesture is non-empty, stays on devices 0 and 1, and keeps its
/// magnitudes within `[0.0, 1.0]`.
pub proof fn lemma_named_gestures_playable(name: Seq<char>)
    ensures
        gesture_named(name) matches Some(g) ==> gesture_is_playable(g),
{
    if gesture_named(name) is Some {
        let g = gesture_named(name)->0;
        assert forall|i: int| 0 <= i < g.len() implies {
            &&& (#[trigger] g[i]).device <= 1
            &&& is_unit_interval_spec(g[i].magnitude_bits)
        } by {
            assert(g[i].device <= 1);
        }
    }
}

/// How many devices a gesture drives: one more than the highest device any
/// of its events targets (0 for no events).
pub open spec fn device_span(g: Seq<Event>) -> nat
    decreases g.len(),
{
    if g.len() == 0 {
        0
    } else {
        let rest = device_span(g.drop_last());
        let here = g.last().device as nat + 1;
        if rest < here {
            here
        } else {
            rest
        }
    }
}

/// Every event of a gesture targets a device below its span.
pub proof fn lemma_device_span_bounds(g: Seq<Event>)
    ensures
        forall|i: int| 0 <= i < g.len() ==> (#[trigger] g[i]).device < device_span(g),
    decreases g.len(),
{
    if g.len() > 0 {
        lemma_device_span_bounds(g.drop_last());
        assert forall|i: int| 0 <= i < g.len() implies (#[trigger] g[i]).device < device_span(g) by {
            if i < g.len() - 1 {
                assert(g[i] == g.drop_last()[i]);
            }
        }
    }
}

/// A gesture whose events target devices up to `k` spans at most `k + 1`.
pub proof fn lemma_device_span_at_most(g: Seq<Event>, k: nat)
    requires
        forall|i: int| 0 <= i < g.len() ==> (#[trigger] g[i]).device <= k,
    ensures
        device_span(g) <= k + 1,
    decreases g.len(),
{
    if g.len() > 0 {
        assert forall|i: int| 0 <= i < g.drop_last().len() implies (#[trigger] g.drop_last()[i]).device
            <= k by {
            assert(g.drop_last()[i] == g[i]);
        }
        lemma_device_span_at_most(g.drop_last(), k);
        assert(g.last() == g[g.len() - 1]);
    }
}

/// A gesture whose events target devices up to `k`, one of them `k` itself,
/// spans `k + 1` devices.
pub proof fn lemma_device_span_is(g: Seq<Event>, k: nat)
    requires
        forall|i: int| 0 <= i < g.len() ==> (#[trigger] g[i]).device <= k,
        exists|i: int| 0 <= i < g.len() && (#[trigger] g[i]).device == k,
    ensures
        device_span(g) == k + 1,
    decreases g.len(),
{
    let w = choose|i: int| 0 <= i < g.len() && (#[trigger] g[i]).device == k;
    lemma_device_span_bounds(g.drop_last());
    if w < g.len() - 1 {
        assert(g.drop_last()[w].device == k);
        assert forall|i: int| 0 <= i < g.drop_last().len() implies (#[trigger] g.drop_last()[i]).device
            <= k by {
            assert(g.drop_last()[i] == g[i]);
        }
        lemma_device_span_is(g.drop_last(), k);
    } else {
        assert forall|i: int| 0 <= i < g.drop_last().len() implies (#[trigger] g.drop_last()[i]).device
            <= k by {
            assert(g.drop_last()[i] == g[i]);
        }
        lemma_device_span_at_most(g.drop_last(), k);
    }
}

/// The number of devices `g` drives, as `device_span` says.
pub fn gesture_span(g: &Vec<Event>) -> (res: usize)
    ensures
        res == device_span(g@),
{
    let mut span: usize = 0;
    let mut i: usize = 0;
    while i < g.len()
        invariant
            i <= g.len(),
            span == device_span(g@.take(i as int)),
            span <= 256,
        decreases g.len() - i,
    {
        assert(g@.take(i + 1).drop_last() =~= g@.take(i as int));
        let here: usize = g[i].device as usize + 1;
        if span < here {
            span = here;
        }
        i = i + 1;
    }
    assert(g@.take(g.len() as int) =~= g@);
    span
}

proof fn lemma_gesture_names_distinct()
    ensures
        "pulse_short"@.len() == 11 && "pulse_short"@[0] == 'p',
        "pulse_medium"@.len() == 12 && "pulse_medium"@[0] == 'p',
        "pulse_long"@.len() == 10 && "pulse_long"@[0] == 'p',
        "double_short"@.len() == 12 && "double_short"@[0] == 'd',
        "triple_short"@.len() == 12 && "triple_short"@[0] == 't',
        "triple_slow"@.len() == 11 && "triple_slow"@[0] == 't',
        "both_medium"@.len() == 11 && "both_medium"@[0] == 'b',
        "both_long"@.len() == 9 && "both_long"@[0] == 'b',
        "crossfade_medium"@.len() == 16 && "crossfade_medium"@[0] == 'c',
        "crossfade_long"@.len() == 14 && "crossfade_long"@[0] == 'c',
        "both_double_short"@.len() == 17 && "both_double_short"@[0] == 'b',
        "alternate_double_short"@.len() == 22 && "alternate_double_short"@[0] == 'a',
        "stop"@.len() == 4 && "stop"@[0] == 's',
        "stop_all"@.len() == 8 && "stop_all"@[0] == 's',
{
    reveal_strlit("pulse_short");
    reveal_strlit("pulse_medium");
    reveal_strlit("pulse_long");
    reveal_strlit("double_short");
    reveal_strlit("triple_short");
    reveal_strlit("triple_slow");
    reveal_strlit("both_medium");
    reveal_strlit("both_long");
    reveal_strlit("crossfade_medium");
    reveal_strlit("crossfade_long");
    reveal_strlit("both_double_short");
    reveal_strlit("alternate_double_short");
    reveal_strlit("stop");
    reveal_strlit("stop_all");
}

/// The gestures meant for a single device drive device 0 only.
pub proof fn lemma_single_device_gestures(name: Seq<char>)
    requires
        name == "pulse_short"@ || name == "pulse_medium"@ || name == "pulse_long"@ || name
            == "double_short"@ || name == "triple_short"@ || name == "triple_slow"@ || name
            == "stop"@,
    ensures
        gesture_named(name) matches Some(g) && device_span(g) == 1 && forall|i: int|
            0 <= i < g.len() ==> (#[trigger] g[i]).device == 0,
{
    lemma_gesture_names_distinct();
    let g = gesture_named(name)->0;
    lemma_named_gestures_playable(name);
    assert(g[0].device == 0);
    lemma_device_span_is(g, 0);
}

/// The gestures meant for two devices drive device 0 and device 1.
pub proof fn lemma_two_device_gestures(name: Seq<char>)
    requires
        name == "both_medium"@ || name == "both_long"@ || name == "crossfade_medium"@ || name
            == "crossfade_long"@ || name == "both_double_short"@ || name
            == "alternate_double_short"@ || name == "stop_all"@,
    ensures
        gesture_named(name) matches Some(g) && device_span(g) == 2 && (exists|i: int|
            0 <= i < g.len() && (#[trigger] g[i]).device == 0),
{
    lemma_gesture_names_distinct();
    let g = gesture_named(name)->0;
    lemma_named_gestures_playable(name);
    assert(g[0].device == 0);
    if name == "alternate_double_short"@ {
        assert(g[2].device == 1);
    } else {
        assert(g[1].device == 1);
    }
    lemma_device_span_is(g, 1);
}

/// The silence gestures `stop` and `stop_all` set every magnitude to 0.0.
pub proof fn lemma_silence_gestures(name: Seq<char>)
    requires
        name == "stop"@ || name == "stop_all"@,
    ensures
        gesture_named(name) matches Some(g) && forall|i: int|
            0 <= i < g.len() ==> (#[trigger] g[i]).magnitude_bits == ZERO_BITS,
{
    lemma_gesture_names_distinct();
}

fn pulse_short() -> (res: Vec<Event>)
    ensures
        res@ == pulse_short_events(),
{
    let res = vec![
        Event::new(50, 0x3F800000, 0),
    ];
    assert(res@ =~= pulse_short_events());
    res
}

fn pulse_medium() -> (res: Vec<Event>)
    ensures
        res@ == pulse_medium_events(),
{
    let res = vec![
        Event::new(300, 0x3F800000, 0),
    ];
    assert(res@ =~= pulse_medium_events());
    res
}

fn pulse_long() -> (res: Vec<Event>)
    ensures
        res@ == pulse_long_events(),
{
    let res = vec![
        Event::new(1000, 0x3F800000, 0),
    ];
    assert(res@ =~= pulse_long_events());
    res
}

fn double_short() -> (res: Vec<Event>)
    ensures
        res@ == double_short_events(),
{
    let res = vec![
        Event::new(50, 0x3F800000, 0),
        Event::new(100, 0x00000000, 0),
        Event::new(50, 0x3F800000, 0),
    ];
    assert(res@ =~= double_short_events());
    res
}

fn triple_short() -> (res: Vec<Event>)
    ensures
        res@ == triple_short_events(),
{
    let res = vec![
        Event::new(50, 0x3F800000, 0),
        Event::new(100, 0x00000000, 0),
        Event::new(50, 0x3F800000, 0),
        Event::new(100, 0x00000000, 0),
        Event::new(50, 0x3F800000, 0),
    ];
    assert(res@ =~= triple_short_events());
    res
}

fn triple_slow() -> (res: Vec<Event>)
    ensures
        res@ == triple_slow_events(),
{
    let res = vec![
        Event::new(100, 0x3F800000, 0),
        Event::new(200, 0x00000000, 0),
        Event::new(100, 0x3F800000, 0),
        Event::new(200, 0x00000000, 0),
        Event::new(100, 0x3F800000, 0),
    ];
    assert(res@ =~= triple_slow_events());
    res
}

fn both_medium() -> (res: Vec<Event>)
    ensures
        res@ == both_medium_events(),
{
    let res = vec![
        Event::new(300, 0x3F800000, 0),
        Event::new(300, 0x3F800000, 1),
    ];
    assert(res@ =~= both_medium_events());
    res
}

fn both_long() -> (res: Vec<Event>)
    ensures
        res@ == both_long_events(),
{
    let res = vec![
        Event::new(1000, 0x3F800000, 0),
        Event::new(1000, 0x3F800000, 1),
    ];
    assert(res@ =~= both_long_events());
    res
}

fn crossfade_medium() -> (res: Vec<Event>)
    ensures
        res@ == crossfade_medium_events(),
{
    let res = vec![
        Event::new(50, 0x3F800000, 0),
        Event::new(50, 0x00000000, 1),
        Event::new(50, 0x3F4CCCCD, 0),
        Event::new(50, 0x3E4CCCCD, 1),
        Event::new(50, 0x3F19999A, 0),
        Event::new(50, 0x3ECCCCCD, 1),
        Event::new(50, 0x3ECCCCCD, 0),
        Event::new(50, 0x3F19999A, 1),
        Event::new(50, 0x3E4CCCCD, 0),
        Event::new(50, 0x3F4CCCCD, 1),
        Event::new(50, 0x00000000, 0),
        Event::new(50, 0x3F800000, 1),
    ];
    assert(res@ =~= crossfade_medium_events());
    res
}

fn crossfade_long() -> (res: Vec<Event>)
    ensures
        res@ == crossfade_long_events(),
{
    let res = vec![
        Event::new(100, 0x3F800000, 0),
        Event::new(100, 0x00000000, 1),
        Event::new(100, 0x3F63D70A, 0),
        Event::new(100, 0x3DE147AE, 1),
        Event::new(100, 0x3F47AE14, 0),
        Event::new(100, 0x3E6147AE, 1),
        Event::new(100, 0x3F2B851F, 0),
        Event::new(100, 0x3EA8F5C3, 1),
        Event::new(100, 0x3F0F5C29, 0),
        Event::new(100, 0x3EE147AE, 1),
        Event::new(100, 0x3EE147AE, 0),
        Event::new(100, 0x3F0F5C29, 1),
        Event::new(100, 0x3EA8F5C3, 0),
        Event::new(100, 0x3F2B851F, 1),
        Event::new(100, 0x3E6147AE, 0),
        Event::new(100, 0x3F47AE14, 1),
        Event::new(100, 0x3DE147AE, 0),
        Event::new(100, 0x3F63D70A, 1),
        Event::new(100, 0x00000000, 0),
        Event::new(100, 0x3F800000, 1),
    ];
    assert(res@ =~= crossfade_long_events());
    res
}

fn both_double_short() -> (res: Vec<Event>)
    ensures
        res@ == both_double_short_events(),
{
    let res = vec![
        Event::new(50, 0x3F800000, 0),
        Event::new(50, 0x3F800000, 1),
        Event::new(100, 0x00000000, 0),
        Event::new(100, 0x00000000, 1),
        Event::new(50, 0x3F800000, 0),
        Event::new(50, 0x3F800000, 1),
    ];
    assert(res@ =~= both_double_short_events());
    res
}

fn alternate_double_short() -> (res: Vec<Event>)
    ensures
        res@ == alternate_double_short_events(),
{
    let res = vec![
        Event::new(50, 0x3F800000, 0),
        Event::new(150, 0x00000000, 1),
        Event::new(50, 0x3F800000, 1),
    ];
    assert(res@ =~= alternate_double_short_events());
    res
}

fn stop() -> (res: Vec<Event>)
    ensures
        res@ == stop_events(),
{
    let res = vec![Event::new(0, 0x00000000, 0)];
    assert(res@ =~= stop_events());
    res
}

fn stop_all() -> (res: Vec<Event>)
    ensures
        res@ == stop_all_events(),
{
    let res = vec![Event::new(0, 0x00000000, 0), Event::new(0, 0x00000000, 1)];
    assert(res@ =~= stop_all_events());
    res
}

/// Returns the named gesture, or `None` if the name is unknown.
pub fn lookup(name: &str) -> (res: Option<Vec<Event>>)
    ensures
        match gesture_named(name@) {
            Some(g) => res matches Some(v) && v@ == g,
            None => res is None,
        },
{
    if str_eq(name, "pulse_short") {
        Some(pulse_short())
    } else if str_eq(name, "pulse_medium") {
        Some(pulse_medium())
    } else if str_eq(name, "pulse_long") {
        Some(pulse_long())
    } else if str_eq(name, "double_short") {
        Some(double_short())
    } else if str_eq(name, "triple_short") {
        Some(triple_short())
    } else if str_eq(name, "triple_slow") {
        Some(triple_slow())
    } else if str_eq(name, "both_medium") {
        Some(both_medium())
    } else if str_eq(name, "both_long") {
        Some(both_long())
    } else if str_eq(name, "crossfade_medium") {
        Some(crossfade_medium())
    } else if str_eq(name, "crossfade_long") {
        Some(crossfade_long())
    } else if str_eq(name, "both_double_short") {
        Some(both_double_short())
    } else if str_eq(name, "alternate_double_short") {
        Some(alternate_double_short())
    } else if str_eq(name, "stop") {
        Some(stop())
    } else if str_eq(name, "stop_all") {
        Some(stop_all())
    } else {
        None
    }
}

} // verus!
