//! The decisions of the gesture player. Each device is an independent
//! channel: its events fire one after another, each held for its duration,
//! while events for different devices fire in parallel. Callers append,
//! interrupt (prepend, and abort the remaining duration of what is playing)
//! or clear (silence every device at once). This module is the player's state
//! and its transitions, driven by the time in milliseconds that the caller
//! reads from its clock; the thread, the lock, the waits and the output are
//! the caller's.

use vstd::prelude::*;
use std::collections::VecDeque;
use crate::gestures::{Event, ev};
use crate::magnitude::{ZERO_BITS, is_above_zero, is_above_zero_spec};

verus! {

/// The number of devices an event can address (`device` is a `u8`).
pub const DEVICE_COUNT: usize = 256usize;

/// The player's state in specifications.
pub struct PlayerModel {
    /// Events waiting to be emitted, in the order they were put in.
    pub queue: Seq<Event>,
    /// The idle magnitude (an `f32` bit pattern); kept for callers.
    pub idle_magnitude_bits: u32,
    /// For each device, the magnitude it was last driven at (`0.0` if never).
    pub magnitudes: Seq<u32>,
    /// For each device, the time (ms) until which its current event plays;
    /// the device is free from that time on.
    pub hold_until: Seq<u64>,
    /// Set once the player is shutting down.
    pub shutdown: bool,
}

/// What the player thread does next.
#[derive(Debug, Clone, Copy, PartialEq)]
pub enum PlayerStep {
    /// Leave the loop: the player is shutting down.
    Stop,
    /// Emit this event now.
    Emit(Event),
    /// Nothing can be emitted now: wait to be notified, or at most until the
    /// given time, when a device with waiting events becomes free.
    Wait(Option<u64>),
}

/// Events that switch off, in ascending device order, each of the devices
/// `0..n` whose magnitude is above zero.
pub open spec fn off_events(magnitudes: Seq<u32>, n: int) -> Seq<Event>
    decreases n,
{
    if n <= 0 {
        Seq::empty()
    } else {
        off_events(magnitudes, n - 1) + if is_above_zero_spec(magnitudes[n - 1]) {
            seq![ev(0, ZERO_BITS, (n - 1) as u8)]
        } else {
            Seq::empty()
        }
    }
}

/// The index of the first queued event whose device is free at `now`
/// (`q.len()` if there is none).
pub open spec fn first_ready(q: Seq<Event>, hold_until: Seq<u64>, now: u64) -> int
    decreases q.len(),
{
    if q.len() == 0 {
        0
    } else if hold_until[q[0].device as int] <= now {
        0
    } else {
        1 + first_ready(q.drop_first(), hold_until, now)
    }
}

/// The earliest time at which the device of some queued event becomes free
/// (`None` for an empty queue).
pub open spec fn earliest_release(q: Seq<Event>, hold_until: Seq<u64>) -> Option<u64>
    decreases q.len(),
{
    if q.len() == 0 {
        None
    } else {
        let h = hold_until[q.last().device as int];
        match earliest_release(q.drop_last(), hold_until) {
            None => Some(h),
            Some(t) => Some(if t < h { t } else { h }),
        }
    }
}

/// When an event of `duration_ms` that starts at `now` ends (the clock's
/// last value if that lies beyond it).
pub open spec fn hold_end(now: u64, duration_ms: u32) -> u64 {
    if now + duration_ms <= u64::MAX {
        (now + duration_ms) as u64
    } else {
        u64::MAX
    }
}

impl PlayerModel {
    /// One magnitude and one hold per device.
    pub open spec fn well_formed(self) -> bool {
        &&& self.magnitudes.len() == DEVICE_COUNT
        &&& self.hold_until.len() == DEVICE_COUNT
    }

    /// Whether device `d` is free at `now`.
    pub open spec fn is_free(self, d: int, now: u64) -> bool {
        self.hold_until[d] <= now
    }

    /// After appending `events` to the back of the queue. Nothing playing is
    /// cut short.
    pub open spec fn queued(self, events: Seq<Event>) -> PlayerModel {
        PlayerModel { queue: self.queue + events, ..self }
    }

    /// After putting `events` in front of the queue and aborting the
    /// remaining duration of what is playing, so that they fire at once.
    pub open spec fn interrupted(self, events: Seq<Event>) -> PlayerModel {
        PlayerModel {
            queue: events + self.queue,
            hold_until: Seq::new(self.hold_until.len(), |d: int| 0u64),
            ..self
        }
    }

    /// After replacing the queue with events that switch off every device
    /// above zero, and aborting what every device is playing.
    pub open spec fn cleared(self) -> PlayerModel {
        PlayerModel {
            queue: off_events(self.magnitudes, DEVICE_COUNT as int),
            hold_until: Seq::new(self.hold_until.len(), |d: int| 0u64),
            ..self
        }
    }

    /// What the player thread does at time `now`, and the state after it:
    /// stop once shutting down; otherwise emit the first queued event whose
    /// device is free, recording its magnitude and holding its device for its
    /// duration; otherwise wait.
    pub open spec fn stepped(self, now: u64) -> (PlayerModel, PlayerStep) {
        if self.shutdown {
            (self, PlayerStep::Stop)
        } else {
            let i = first_ready(self.queue, self.hold_until, now);
            if i < self.queue.len() {
                let e = self.queue[i];
                (
                    PlayerModel {
                        queue: self.queue.remove(i),
                        magnitudes: self.magnitudes.update(e.device as int, e.magnitude_bits),
                        hold_until: self.hold_until.update(
                            e.device as int,
                            hold_end(now, e.duration_ms),
                        ),
                        ..self
                    },
                    PlayerStep::Emit(e),
                )
            } else {
                (self, PlayerStep::Wait(earliest_release(self.queue, self.hold_until)))
            }
        }
    }

    /// After the player is told to shut down.
    pub open spec fn shut_down(self) -> PlayerModel {
        PlayerModel { shutdown: true, ..self }
    }
}

/// The first ready event is found by skipping the events whose devices are
/// busy.
proof fn lemma_first_ready_is(q: Seq<Event>, h: Seq<u64>, now: u64, i: int)
    requires
        0 <= i <= q.len(),
        forall|j: int| 0 <= j < i ==> h[(#[trigger] q[j]).device as int] > now,
        i < q.len() ==> h[q[i].device as int] <= now,
    ensures
        first_ready(q, h, now) == i,
    decreases i,
{
    if i > 0 {
        let t = q.drop_first();
        assert(h[q[0].device as int] > now);
        assert forall|j: int| 0 <= j < i - 1 implies h[(#[trigger] t[j]).device as int] > now by {
            assert(t[j] == q[j + 1]);
        }
        if i < q.len() {
            assert(t[i - 1] == q[i]);
        }
        lemma_first_ready_is(t, h, now, i - 1);
    } else if q.len() > 0 {
    }
}

/// Facts about the first ready event: it is within the queue or the queue
/// has no free device, and every event before it has a busy device.
pub proof fn lemma_first_ready_facts(q: Seq<Event>, h: Seq<u64>, now: u64)
    ensures
        0 <= first_ready(q, h, now) <= q.len(),
        forall|j: int|
            0 <= j < first_ready(q, h, now) ==> h[(#[trigger] q[j]).device as int] > now,
        first_ready(q, h, now) < q.len() ==> h[q[first_ready(q, h, now)].device as int] <= now,
    decreases q.len(),
{
    if q.len() > 0 && h[q[0].device as int] > now {
        let t = q.drop_first();
        lemma_first_ready_facts(t, h, now);
        assert forall|j: int| 0 <= j < first_ready(q, h, now) implies h[(
        #[trigger] q[j]).device as int] > now by {
            if j > 0 {
                assert(q[j] == t[j - 1]);
            }
        }
        if first_ready(q, h, now) < q.len() {
            assert(q[first_ready(q, h, now)] == t[first_ready(t, h, now)]);
        }
    }
}

/// The earliest release lies among the holds of the queued events' devices,
/// and none of them is earlier.
pub proof fn lemma_earliest_release_facts(q: Seq<Event>, h: Seq<u64>)
    ensures
        earliest_release(q, h) is None <==> q.len() == 0,
        earliest_release(q, h) matches Some(t) ==> (exists|j: int|
            0 <= j < q.len() && h[(#[trigger] q[j]).device as int] == t) && (forall|j: int|
            0 <= j < q.len() ==> t <= h[(#[trigger] q[j]).device as int]),
    decreases q.len(),
{
    if q.len() > 0 {
        let p = q.drop_last();
        lemma_earliest_release_facts(p, h);
        let t = earliest_release(q, h)->0;
        assert(q.last() == q[q.len() - 1]);
        if let Some(tp) = earliest_release(p, h) {
            let w = choose|j: int| 0 <= j < p.len() && h[(#[trigger] p[j]).device as int] == tp;
            assert(p[w] == q[w]);
        }
        assert forall|j: int| 0 <= j < q.len() implies t <= h[(#[trigger] q[j]).device as int] by {
            if j < q.len() - 1 {
                assert(p[j] == q[j]);
            }
        }
    }
}

/// Each device's magnitude after emitting `events` in order, from `levels`.
pub open spec fn driven(levels: Seq<u32>, events: Seq<Event>) -> Seq<u32>
    decreases events.len(),
{
    if events.len() == 0 {
        levels
    } else {
        driven(levels, events.drop_last()).update(
            events.last().device as int,
            events.last().magnitude_bits,
        )
    }
}

/// The state after the player thread takes `k` steps at time `now`, with
/// nothing else happening in between.
pub open spec fn run_at(m: PlayerModel, k: nat, now: u64) -> PlayerModel
    decreases k,
{
    if k == 0 {
        m
    } else {
        run_at(m, (k - 1) as nat, now).stepped(now).0
    }
}

/// The events emitted during those `k` steps, in order.
pub open spec fn emitted_at(m: PlayerModel, k: nat, now: u64) -> Seq<Event>
    decreases k,
{
    if k == 0 {
        Seq::empty()
    } else {
        emitted_at(m, (k - 1) as nat, now) + match run_at(m, (k - 1) as nat, now).stepped(now).1 {
            PlayerStep::Emit(e) => seq![e],
            _ => Seq::empty(),
        }
    }
}

/// An emitted event is the first queued event of its device: events for one
/// device are emitted in the order they were queued.
pub proof fn lemma_emitted_first_of_its_device(m: PlayerModel, now: u64)
    ensures
        m.stepped(now).1 matches PlayerStep::Emit(e) ==> (exists|i: int|
            0 <= i < m.queue.len() && m.queue[i] == e && m.stepped(now).0.queue == m.queue.remove(i)
                && forall|j: int| 0 <= j < i ==> (#[trigger] m.queue[j]).device != e.device),
{
    lemma_first_ready_facts(m.queue, m.hold_until, now);
}

/// The player waits only when no queued event's device is free, and then
/// until a time after `now`, or indefinitely when nothing is queued.
pub proof fn lemma_waits_only_when_all_busy(m: PlayerModel, now: u64)
    ensures
        m.stepped(now).1 matches PlayerStep::Wait(until) ==> {
            &&& forall|j: int| 0 <= j < m.queue.len() ==> !m.is_free((#[trigger] m.queue[j]).device as int, now)
            &&& until is None <==> m.queue.len() == 0
            &&& until matches Some(t) ==> t > now
        },
{
    lemma_first_ready_facts(m.queue, m.hold_until, now);
    lemma_earliest_release_facts(m.queue, m.hold_until);
    if m.stepped(now).1 is Wait && m.queue.len() > 0 {
        let t = earliest_release(m.queue, m.hold_until)->0;
        let w = choose|j: int| 0 <= j < m.queue.len() && m.hold_until[(#[trigger] m.queue[j]).device as int] == t;
        assert(m.hold_until[m.queue[w].device as int] > now);
    }
}

/// A device that is playing keeps playing: while it is busy, a step emits no
/// event for it and leaves its hold as it is.
pub proof fn lemma_busy_device_keeps_playing(m: PlayerModel, now: u64, d: int)
    requires
        m.well_formed(),
        0 <= d < DEVICE_COUNT,
        !m.is_free(d, now),
    ensures
        !(m.stepped(now).1 matches PlayerStep::Emit(e) && e.device == d),
        m.stepped(now).0.hold_until[d] == m.hold_until[d],
{
    lemma_first_ready_facts(m.queue, m.hold_until, now);
    let i = first_ready(m.queue, m.hold_until, now);
    if !m.shutdown && i < m.queue.len() {
        assert(m.queue[i].device as int != d);
    }
}

/// An emitted event holds its device for its whole duration.
pub proof fn lemma_emitted_event_holds_its_device(m: PlayerModel, now: u64)
    requires
        m.well_formed(),
    ensures
        m.stepped(now).1 matches PlayerStep::Emit(e) ==> m.stepped(now).0.hold_until[e.device as int]
            == hold_end(now, e.duration_ms) && m.stepped(now).0.magnitudes[e.device as int]
            == e.magnitude_bits,
{
}

/// A free device is never blocked by another device's event: whenever some
/// queued event has a free device, the player emits an event.
pub proof fn lemma_free_device_not_blocked(m: PlayerModel, now: u64, j: int)
    requires
        !m.shutdown,
        0 <= j < m.queue.len(),
        m.is_free(m.queue[j].device as int, now),
    ensures
        m.stepped(now).1 is Emit,
{
    lemma_first_ready_facts(m.queue, m.hold_until, now);
}

/// Two events queued for different devices on an idle player start together:
/// both are emitted at the same time, neither waits for the other.
pub proof fn lemma_devices_play_in_parallel(m: PlayerModel, a: Event, b: Event, now: u64)
    requires
        m.well_formed(),
        !m.shutdown,
        m.queue.len() == 0,
        forall|d: int| 0 <= d < DEVICE_COUNT ==> m.is_free(d, now),
        a.device != b.device,
    ensures
        ({
            let q = m.queued(seq![a, b]);
            let (q1, s1) = q.stepped(now);
            &&& s1 == PlayerStep::Emit(a)
            &&& q1.stepped(now).1 == PlayerStep::Emit(b)
        }),
{
    let q = m.queued(seq![a, b]);
    assert(q.queue =~= seq![a, b]);
    assert(m.is_free(a.device as int, now));
    assert(m.is_free(b.device as int, now));
    lemma_first_ready_is(q.queue, q.hold_until, now, 0);
    let q1 = q.stepped(now).0;
    assert(q1.queue =~= seq![b]);
    assert(q1.hold_until[b.device as int] == m.hold_until[b.device as int]);
    lemma_first_ready_is(q1.queue, q1.hold_until, now, 0);
}

/// Events put in by an interrupt fire at once: the first of them is the
/// next event emitted, whatever the interrupted devices were playing.
pub proof fn lemma_interrupt_fires_first(m: PlayerModel, events: Seq<Event>, now: u64)
    requires
        m.well_formed(),
        !m.shutdown,
        events.len() > 0,
    ensures
        m.interrupted(events).stepped(now).1 == PlayerStep::Emit(events[0]),
{
    let x = m.interrupted(events);
    assert(x.queue[0] == events[0]);
    lemma_first_ready_is(x.queue, x.hold_until, now, 0);
}

/// The state after the player thread takes one step at each of `times`, in
/// order, with nothing else happening in between.
pub open spec fn run_steps(m: PlayerModel, times: Seq<u64>) -> PlayerModel
    decreases times.len(),
{
    if times.len() == 0 {
        m
    } else {
        run_steps(m, times.drop_last()).stepped(times.last()).0
    }
}

/// The events emitted during those steps, in order.
pub open spec fn emitted_steps(m: PlayerModel, times: Seq<u64>) -> Seq<Event>
    decreases times.len(),
{
    if times.len() == 0 {
        Seq::empty()
    } else {
        emitted_steps(m, times.drop_last()) + match run_steps(m, times.drop_last()).stepped(
            times.last(),
        ).1 {
            PlayerStep::Emit(e) => seq![e],
            _ => Seq::empty(),
        }
    }
}

/// What the player thread does at its `k`-th step of the run.
pub open spec fn step_action(m: PlayerModel, times: Seq<u64>, k: int) -> PlayerStep {
    run_steps(m, times.take(k)).stepped(times[k]).1
}

/// The events of `s` that target device `d`, in order.
pub open spec fn on_device(s: Seq<Event>, d: int) -> Seq<Event>
    decreases s.len(),
{
    if s.len() == 0 {
        Seq::empty()
    } else {
        on_device(s.drop_last(), d) + if s.last().device == d {
            seq![s.last()]
        } else {
            Seq::empty()
        }
    }
}

proof fn lemma_run_steps_take(m: PlayerModel, times: Seq<u64>, k: int)
    requires
        0 <= k < times.len(),
    ensures
        run_steps(m, times.take(k + 1)) == run_steps(m, times.take(k)).stepped(times[k]).0,
        emitted_steps(m, times.take(k + 1)) == emitted_steps(m, times.take(k)) + match step_action(m, times, k) {
            PlayerStep::Emit(e) => seq![e],
            _ => Seq::empty(),
        },
{
    assert(times.take(k + 1).drop_last() =~= times.take(k));
    assert(times.take(k + 1).last() == times[k]);
}

proof fn lemma_on_device_none(s: Seq<Event>, d: int)
    requires
        forall|j: int| 0 <= j < s.len() ==> (#[trigger] s[j]).device != d,
    ensures
        on_device(s, d) == Seq::<Event>::empty(),
    decreases s.len(),
{
    if s.len() > 0 {
        assert forall|j: int| 0 <= j < s.drop_last().len() implies (#[trigger] s.drop_last()[j]).device
            != d by {
            assert(s.drop_last()[j] == s[j]);
        }
        lemma_on_device_none(s.drop_last(), d);
        assert(s.last() == s[s.len() - 1]);
    }
}

/// Taking out the first event of its device takes it off the front of that
/// device's events and leaves the other devices' events as they are.
proof fn lemma_on_device_remove_first(q: Seq<Event>, i: int, d: int)
    requires
        0 <= i < q.len(),
        forall|j: int| 0 <= j < i ==> (#[trigger] q[j]).device != q[i].device,
    ensures
        on_device(q, d) == if d == q[i].device {
            seq![q[i]] + on_device(q.remove(i), d)
        } else {
            on_device(q.remove(i), d)
        },
    decreases q.len(),
{
    let p = q.drop_last();
    assert(q.last() == q[q.len() - 1]);
    if i == q.len() - 1 {
        assert(q.remove(i) =~= p);
        if d == q[i].device {
            assert forall|j: int| 0 <= j < p.len() implies (#[trigger] p[j]).device != d by {
                assert(p[j] == q[j]);
            }
            lemma_on_device_none(p, d);
            assert(on_device(q, d) =~= seq![q[i]] + on_device(q.remove(i), d));
        }
    } else {
        assert forall|j: int| 0 <= j < i implies (#[trigger] p[j]).device != p[i].device by {
            assert(p[j] == q[j]);
        }
        lemma_on_device_remove_first(p, i, d);
        let r = q.remove(i);
        assert(r.drop_last() =~= p.remove(i));
        assert(r.last() == q.last());
        if d == q[i].device {
            assert(on_device(q, d) =~= seq![q[i]] + on_device(r, d));
        }
    }
}

/// An emitted event holds its device for exactly its duration: after the
/// step that emits it at `now`, the device is held until `now + duration_ms`
/// (the clock's last value when that sum lies beyond it), and it records the
/// event's magnitude. No other device's hold changes.
pub proof fn lemma_emitted_event_holds_exactly_its_duration(m: PlayerModel, now: u64)
    requires
        m.well_formed(),
    ensures
        m.stepped(now).1 matches PlayerStep::Emit(e) ==> {
            let after = m.stepped(now).0;
            &&& after.hold_until[e.device as int] == if now as int + e.duration_ms as int
                <= u64::MAX {
                now as int + e.duration_ms as int
            } else {
                u64::MAX as int
            }
            &&& after.magnitudes[e.device as int] == e.magnitude_bits
            &&& forall|d: int|
                0 <= d < DEVICE_COUNT && d != e.device as int ==> after.hold_until[d]
                    == m.hold_until[d]
        },
{
}

/// An interrupt puts its events, in their order, in front of the events
/// already waiting, which keep their order behind them, and frees every
/// device at once.
pub proof fn lemma_interrupt_puts_events_in_front(m: PlayerModel, events: Seq<Event>)
    requires
        m.well_formed(),
    ensures
        m.interrupted(events).queue.len() == events.len() + m.queue.len(),
        forall|j: int| 0 <= j < events.len() ==> m.interrupted(events).queue[j] == #[trigger] events[j],
        forall|i: int|
            0 <= i < m.queue.len() ==> m.interrupted(events).queue[events.len() + i] == #[trigger] m.queue[i],
        forall|d: int| 0 <= d < DEVICE_COUNT ==> m.interrupted(events).hold_until[d] == 0,
        m.interrupted(events).magnitudes == m.magnitudes,
{
}

/// Queueing appends: the events already waiting keep their places at the
/// front, and the new events follow them in their order. Nothing else
/// changes.
pub proof fn lemma_queue_appends_behind(m: PlayerModel, events: Seq<Event>)
    ensures
        m.queued(events).queue.len() == m.queue.len() + events.len(),
        forall|i: int| 0 <= i < m.queue.len() ==> m.queued(events).queue[i] == #[trigger] m.queue[i],
        forall|j: int|
            0 <= j < events.len() ==> m.queued(events).queue[m.queue.len() + j] == #[trigger] events[j],
        m.queued(events).hold_until == m.hold_until,
        m.queued(events).magnitudes == m.magnitudes,
        m.queued(events).shutdown == m.shutdown,
{
}

/// Queueing `a` and then `b` on an idle player plays `a` first: its first
/// event is the next one emitted.
pub proof fn lemma_queue_then_queue_plays_first_batch_first(
    m: PlayerModel,
    a: Seq<Event>,
    b: Seq<Event>,
    now: u64,
)
    requires
        m.well_formed(),
        !m.shutdown,
        m.queue.len() == 0,
        a.len() > 0,
        forall|d: int| 0 <= d < DEVICE_COUNT ==> m.hold_until[d] <= now,
    ensures
        m.queued(a).queued(b).stepped(now).1 == PlayerStep::Emit(a[0]),
{
    let q = m.queued(a).queued(b);
    assert(q.queue =~= a + b);
    assert(q.queue[0] == a[0]);
    assert(m.hold_until[a[0].device as int] <= now);
    lemma_first_ready_is(q.queue, q.hold_until, now, 0);
}

/// Each device's events, after queueing `a` and then `b`: those already
/// waiting, then those of `a`, then those of `b`.
pub proof fn lemma_queue_then_queue_keeps_order_per_device(
    m: PlayerModel,
    a: Seq<Event>,
    b: Seq<Event>,
    d: int,
)
    ensures
        on_device(m.queued(a).queued(b).queue, d) == on_device(m.queue, d) + on_device(a, d)
            + on_device(b, d),
{
    lemma_on_device_concat(m.queue, a, d);
    lemma_on_device_concat(m.queue + a, b, d);
}

/// One device's events of a concatenation are those of each part, in order.
pub proof fn lemma_on_device_concat(s: Seq<Event>, t: Seq<Event>, d: int)
    ensures
        on_device(s + t, d) == on_device(s, d) + on_device(t, d),
    decreases t.len(),
{
    if t.len() == 0 {
        assert(s + t =~= s);
        assert(on_device(s, d) + on_device(t, d) =~= on_device(s, d));
    } else {
        lemma_on_device_concat(s, t.drop_last(), d);
        assert((s + t).drop_last() =~= s + t.drop_last());
        assert((s + t).last() == t.last());
        assert(on_device(s + t, d) =~= on_device(s, d) + on_device(t, d));
    }
}

/// Over a run of steps, each device's events come out in the order they
/// were queued: for every device, what was emitted followed by what is still
/// queued is what was queued at the start.
pub proof fn lemma_run_keeps_each_device_in_order(m: PlayerModel, times: Seq<u64>, d: int)
    ensures
        on_device(emitted_steps(m, times), d) + on_device(run_steps(m, times).queue, d)
            == on_device(m.queue, d),
    decreases times.len(),
{
    if times.len() == 0 {
        assert(on_device(Seq::<Event>::empty(), d) =~= Seq::<Event>::empty());
        assert(Seq::<Event>::empty() + on_device(m.queue, d) =~= on_device(m.queue, d));
    } else {
        let t = times.drop_last();
        lemma_run_keeps_each_device_in_order(m, t, d);
        let r = run_steps(m, t);
        let em = emitted_steps(m, t);
        let now = times.last();
        if let PlayerStep::Emit(e) = r.stepped(now).1 {
            lemma_first_ready_facts(r.queue, r.hold_until, now);
            let i = first_ready(r.queue, r.hold_until, now);
            assert forall|j: int| 0 <= j < i implies (#[trigger] r.queue[j]).device
                != r.queue[i].device by {
                if r.queue[j].device == r.queue[i].device {
                    assert(r.hold_until[r.queue[j].device as int] > now);
                }
            }
            lemma_on_device_remove_first(r.queue, i, d);
            let em2 = em + seq![e];
            assert(em2.drop_last() =~= em);
            assert(em2.last() == e);
            if d == e.device {
                assert(on_device(em2, d) == on_device(em, d) + seq![e]);
                assert(on_device(em2, d) + on_device(r.queue.remove(i), d) =~= on_device(em, d)
                    + (seq![e] + on_device(r.queue.remove(i), d)));
            } else {
                assert(on_device(em2, d) =~= on_device(em, d));
            }
        } else {
            assert(emitted_steps(m, times) =~= em);
        }
    }
}

/// Between the step that starts a device's event and a later step before the
/// event ends, the device's hold stays as that step set it.
proof fn lemma_hold_persists(
    m: PlayerModel,
    times: Seq<u64>,
    k: int,
    j: int,
    k2: int,
    d: int,
    end: u64,
)
    requires
        m.well_formed(),
        0 <= k < j <= k2 < times.len(),
        0 <= d < DEVICE_COUNT,
        forall|a: int, b: int| 0 <= a <= b < times.len() ==> times[a] <= times[b],
        run_steps(m, times.take(k + 1)).hold_until[d] == end,
        times[k2] < end,
    ensures
        run_steps(m, times.take(j)).hold_until[d] == end,
    decreases j - k,
{
    if j > k + 1 {
        lemma_hold_persists(m, times, k, j - 1, k2, d, end);
        assert(times[j - 1] <= times[k2]);
        lemma_run_steps_take(m, times, j - 1);
        lemma_run_steps_well_formed(m, times.take(j - 1));
        lemma_busy_device_keeps_playing(run_steps(m, times.take(j - 1)), times[j - 1], d);
    }
}

/// An emitted event plays for its full duration: at every later step of a
/// run whose times do not go back, before the event's end, nothing else is
/// emitted for its device.
pub proof fn lemma_event_plays_full_duration(
    m: PlayerModel,
    times: Seq<u64>,
    k: int,
    k2: int,
    e: Event,
)
    requires
        m.well_formed(),
        0 <= k < k2 < times.len(),
        forall|a: int, b: int| 0 <= a <= b < times.len() ==> times[a] <= times[b],
        step_action(m, times, k) == PlayerStep::Emit(e),
        times[k2] < hold_end(times[k], e.duration_ms),
    ensures
        !(step_action(m, times, k2) matches PlayerStep::Emit(e2) && e2.device == e.device),
{
    lemma_run_steps_well_formed(m, times.take(k));
    lemma_run_steps_take(m, times, k);
    lemma_emitted_event_holds_its_device(run_steps(m, times.take(k)), times[k]);
    let d = e.device as int;
    let end = hold_end(times[k], e.duration_ms);
    lemma_hold_persists(m, times, k, k2, k2, d, end);
    lemma_run_steps_well_formed(m, times.take(k2));
    lemma_busy_device_keeps_playing(run_steps(m, times.take(k2)), times[k2], d);
}

/// Steps keep one magnitude and one hold per device.
pub proof fn lemma_run_steps_well_formed(m: PlayerModel, times: Seq<u64>)
    requires
        m.well_formed(),
    ensures
        run_steps(m, times).well_formed(),
    decreases times.len(),
{
    if times.len() > 0 {
        lemma_run_steps_well_formed(m, times.drop_last());
    }
}

/// With every device free and every queued event instantaneous, the player
/// emits its queue in order, recording each event's magnitude.
pub proof fn lemma_free_queue_drains_in_order(m: PlayerModel, k: nat, now: u64)
    requires
        m.well_formed(),
        !m.shutdown,
        k <= m.queue.len(),
        forall|d: int| 0 <= d < DEVICE_COUNT ==> m.is_free(d, now),
        forall|j: int| 0 <= j < m.queue.len() ==> (#[trigger] m.queue[j]).duration_ms == 0,
    ensures
        run_at(m, k, now).queue == m.queue.skip(k as int),
        emitted_at(m, k, now) == m.queue.take(k as int),
        run_at(m, k, now).magnitudes == driven(m.magnitudes, m.queue.take(k as int)),
        run_at(m, k, now).well_formed(),
        !run_at(m, k, now).shutdown,
        forall|d: int| 0 <= d < DEVICE_COUNT ==> run_at(m, k, now).is_free(d, now),
    decreases k,
{
    if k == 0 {
        assert(m.queue.skip(0) =~= m.queue);
        assert(m.queue.take(0) =~= Seq::<Event>::empty());
    } else {
        let j = (k - 1) as nat;
        lemma_free_queue_drains_in_order(m, j, now);
        let r = run_at(m, j, now);
        assert(r.queue[0] == m.queue[j as int]);
        assert(r.is_free(r.queue[0].device as int, now));
        assert(m.queue[j as int].duration_ms == 0);
        lemma_first_ready_is(r.queue, r.hold_until, now, 0);
        assert(r.queue.remove(0) =~= m.queue.skip(k as int));
        assert(m.queue.take(j as int) + seq![m.queue[j as int]] =~= m.queue.take(k as int));
        assert(m.queue.take(k as int).drop_last() =~= m.queue.take(j as int));
        let r1 = run_at(m, k, now);
        assert forall|d: int| 0 <= d < DEVICE_COUNT implies r1.is_free(d, now) by {
            assert(r.is_free(d, now));
            if d == m.queue[j as int].device as int {
                assert(hold_end(now, 0) == now);
            }
        }
    }
}

/// What the off events of the first `n` devices are.
proof fn lemma_off_events_shape(levels: Seq<u32>, n: int)
    requires
        0 <= n <= DEVICE_COUNT,
        levels.len() == DEVICE_COUNT,
    ensures
        forall|i: int|
            0 <= i < off_events(levels, n).len() ==> {
                let e = #[trigger] off_events(levels, n)[i];
                &&& e.duration_ms == 0
                &&& e.magnitude_bits == ZERO_BITS
                &&& e.device < n
            },
        forall|d: int|
            0 <= d < DEVICE_COUNT ==> #[trigger] driven(levels, off_events(levels, n))[d] == if d
                < n && is_above_zero_spec(levels[d]) {
                ZERO_BITS
            } else {
                levels[d]
            },
        driven(levels, off_events(levels, n)).len() == DEVICE_COUNT,
    decreases n,
{
    if n > 0 {
        lemma_off_events_shape(levels, n - 1);
        let prev = off_events(levels, n - 1);
        if is_above_zero_spec(levels[n - 1]) {
            let e = ev(0, ZERO_BITS, (n - 1) as u8);
            assert(off_events(levels, n) == prev + seq![e]);
            assert((prev + seq![e]).drop_last() =~= prev);
            assert(driven(levels, prev + seq![e]) == driven(levels, prev).update(n - 1, ZERO_BITS));
        } else {
            assert(off_events(levels, n) =~= prev);
        }
    }
}

/// A clear silences every device at once: the events it queues (each of
/// duration 0 and magnitude `0.0`, one per device above zero) are all emitted
/// at the time of the clear, after which no device is above zero and nothing
/// is queued.
pub proof fn lemma_clear_silences_every_device(m: PlayerModel, now: u64)
    requires
        m.well_formed(),
        !m.shutdown,
    ensures
        ({
            let c = m.cleared();
            let k = c.queue.len();
            &&& run_at(c, k, now).queue.len() == 0
            &&& forall|d: int|
                0 <= d < DEVICE_COUNT ==> !is_above_zero_spec(#[trigger] run_at(c, k, now).magnitudes[d])
            &&& emitted_at(c, k, now) == c.queue
            &&& forall|i: int|
                0 <= i < emitted_at(c, k, now).len() ==> (#[trigger] emitted_at(c, k, now)[i]).magnitude_bits
                    == ZERO_BITS && emitted_at(c, k, now)[i].duration_ms == 0
        }),
{
    let c = m.cleared();
    let k = c.queue.len();
    lemma_off_events_shape(m.magnitudes, DEVICE_COUNT as int);
    assert forall|j: int| 0 <= j < c.queue.len() implies (#[trigger] c.queue[j]).duration_ms == 0 by {
        assert(off_events(m.magnitudes, DEVICE_COUNT as int)[j].duration_ms == 0);
    }
    lemma_free_queue_drains_in_order(c, k, now);
    assert(c.queue.take(k as int) =~= c.queue);
    assert(c.queue.skip(k as int) =~= Seq::<Event>::empty());
    assert forall|d: int| 0 <= d < DEVICE_COUNT implies !is_above_zero_spec(
        #[trigger] run_at(c, k, now).magnitudes[d],
    ) by {
        assert(driven(m.magnitudes, off_events(m.magnitudes, DEVICE_COUNT as int))[d] == if d
            < DEVICE_COUNT && is_above_zero_spec(m.magnitudes[d]) {
            ZERO_BITS
        } else {
            m.magnitudes[d]
        });
    }
    assert forall|i: int| 0 <= i < emitted_at(c, k, now).len() implies (#[trigger] emitted_at(
        c,
        k,
        now,
    )[i]).magnitude_bits == ZERO_BITS && emitted_at(c, k, now)[i].duration_ms == 0 by {
        assert(emitted_at(c, k, now)[i] == off_events(m.magnitudes, DEVICE_COUNT as int)[i]);
    }
}

/// Once told to shut down, the player stops at its next step, whatever is
/// queued, interrupted or cleared after that.
pub proof fn lemma_shutdown_is_final(m: PlayerModel, events: Seq<Event>, now: u64)
    ensures
        m.shut_down().stepped(now).1 is Stop,
        m.shut_down().queued(events).stepped(now).1 is Stop,
        m.shut_down().interrupted(events).stepped(now).1 is Stop,
        m.shut_down().cleared().stepped(now).1 is Stop,
{
}

/// The player's state: the queue, and per device the last magnitude and the
/// time its current event ends.
pub struct PlayerState {
    queue: VecDeque<Event>,
    idle_magnitude_bits: u32,
    magnitudes: [u32; 256],
    hold_until: [u64; 256],
    shutdown: bool,
}

impl View for PlayerState {
    type V = PlayerModel;

    closed spec fn view(&self) -> PlayerModel {
        PlayerModel {
            queue: self.queue@,
            idle_magnitude_bits: self.idle_magnitude_bits,
            magnitudes: self.magnitudes@,
            hold_until: self.hold_until@,
            shutdown: self.shutdown,
        }
    }
}

/// Every player state has one magnitude and one hold per device.
pub proof fn lemma_state_well_formed(state: &PlayerState)
    ensures
        state@.well_formed(),
{
    assert(state.magnitudes@.len() == DEVICE_COUNT);
    assert(state.hold_until@.len() == DEVICE_COUNT);
}

impl PlayerState {
    /// An idle player: nothing queued, every device at `0.0` and free,
    /// idle magnitude `0.0`, not shutting down.
    pub fn new() -> (res: Self)
        ensures
            res@.queue == Seq::<Event>::empty(),
            res@.idle_magnitude_bits == ZERO_BITS,
            res@.magnitudes == Seq::new(DEVICE_COUNT as nat, |d: int| ZERO_BITS),
            res@.hold_until == Seq::new(DEVICE_COUNT as nat, |d: int| 0u64),
            !res@.shutdown,
            res@.well_formed(),
    {
        let magnitudes: [u32; 256] = [ZERO_BITS; 256];
        let hold_until: [u64; 256] = [0u64; 256];
        assert(magnitudes@ =~= Seq::new(DEVICE_COUNT as nat, |d: int| ZERO_BITS));
        assert(hold_until@ =~= Seq::new(DEVICE_COUNT as nat, |d: int| 0u64));
        PlayerState {
            queue: VecDeque::new(),
            idle_magnitude_bits: ZERO_BITS,
            magnitudes,
            hold_until,
            shutdown: false,
        }
    }

    /// Appends events to the back of the queue; nothing playing is cut short.
    pub fn queue(&mut self, events: &[Event])
        ensures
            final(self)@ == old(self)@.queued(events@),
    {
        let mut i: usize = 0;
        while i < events.len()
            invariant
                i <= events@.len(),
                self.queue@ == old(self).queue@ + events@.take(i as int),
                self.magnitudes == old(self).magnitudes,
                self.hold_until == old(self).hold_until,
                self.idle_magnitude_bits == old(self).idle_magnitude_bits,
                self.shutdown == old(self).shutdown,
            decreases events.len() - i,
        {
            self.queue.push_back(events[i]);
            assert(events@.take(i + 1) =~= events@.take(i as int).push(events@[i as int]));
            i = i + 1;
        }
        assert(events@.take(events.len() as int) =~= events@);
    }

    /// Puts events in front of the queue, in their order, and aborts the
    /// remaining duration of what is playing, so that they fire at once.
    pub fn interrupt(&mut self, events: &[Event])
        ensures
            final(self)@ == old(self)@.interrupted(events@),
    {
        let mut i: usize = events.len();
        while i > 0
            invariant
                i <= events@.len(),
                self.queue@ == events@.skip(i as int) + old(self).queue@,
                self.magnitudes == old(self).magnitudes,
                self.hold_until == old(self).hold_until,
                self.idle_magnitude_bits == old(self).idle_magnitude_bits,
                self.shutdown == old(self).shutdown,
            decreases i,
        {
            i = i - 1;
            self.queue.push_front(events[i]);
            assert(seq![events@[i as int]] + events@.skip(i + 1) =~= events@.skip(i as int));
        }
        assert(events@.skip(0) =~= events@);
        self.hold_until = [0u64; 256];
        assert(self.hold_until@ =~= old(self)@.interrupted(events@).hold_until);
    }

    /// Empties the queue and puts in it one event of duration 0 and magnitude
    /// `0.0` for every device whose last magnitude is above zero, then aborts
    /// what every device is playing, so that they fire at once.
    pub fn clear(&mut self)
        ensures
            final(self)@ == old(self)@.cleared(),
    {
        self.queue.clear();
        let mut d: usize = 0;
        while d < DEVICE_COUNT
            invariant
                d <= DEVICE_COUNT,
                self.queue@ == off_events(self.magnitudes@, d as int),
                self.magnitudes == old(self).magnitudes,
                self.hold_until == old(self).hold_until,
                self.idle_magnitude_bits == old(self).idle_magnitude_bits,
                self.shutdown == old(self).shutdown,
            decreases DEVICE_COUNT - d,
        {
            if is_above_zero(self.magnitudes[d]) {
                self.queue.push_back(Event::new(0, ZERO_BITS, d as u8));
            }
            d = d + 1;
        }
        self.hold_until = [0u64; 256];
        assert(self.hold_until@ =~= old(self)@.cleared().hold_until);
    }

    /// The idle magnitude (an `f32` bit pattern).
    pub fn idle_magnitude(&self) -> (res: u32)
        ensures
            res == self@.idle_magnitude_bits,
    {
        self.idle_magnitude_bits
    }

    /// Sets the idle magnitude (an `f32` bit pattern).
    pub fn set_idle_magnitude(&mut self, magnitude_bits: u32)
        ensures
            final(self)@ == (PlayerModel { idle_magnitude_bits: magnitude_bits, ..old(self)@ }),
    {
        self.idle_magnitude_bits = magnitude_bits;
    }

    /// Decides what the player thread does at time `now` (ms on the caller's
    /// clock): stop once shutting down; otherwise emit the first queued event
    /// whose device is free, recording its magnitude and holding its device
    /// for its duration; otherwise wait, until the earliest time a device
    /// with queued events becomes free.
    pub fn next_step(&mut self, now: u64) -> (res: PlayerStep)
        ensures
            (final(self)@, res) == old(self)@.stepped(now),
    {
        if self.shutdown {
            return PlayerStep::Stop;
        }
        let mut i: usize = 0;
        while i < self.queue.len() && self.hold_until[self.queue[i].device as usize] > now
            invariant
                i <= self.queue@.len(),
                forall|j: int|
                    0 <= j < i ==> self.hold_until@[(#[trigger] self.queue@[j]).device as int] > now,
            decreases self.queue.len() - i,
        {
            i = i + 1;
        }
        proof {
            lemma_first_ready_is(self.queue@, self.hold_until@, now, i as int);
        }
        if i < self.queue.len() {
            let e = match self.queue.remove(i) {
                Some(e) => e,
                None => {
                    return PlayerStep::Wait(None);
                },
            };
            self.magnitudes[e.device as usize] = e.magnitude_bits;
            self.hold_until[e.device as usize] = now.saturating_add(e.duration_ms as u64);
            PlayerStep::Emit(e)
        } else {
            let mut best: Option<u64> = None;
            let mut j: usize = 0;
            while j < self.queue.len()
                invariant
                    j <= self.queue@.len(),
                    best == earliest_release(self.queue@.take(j as int), self.hold_until@),
                decreases self.queue.len() - j,
            {
                assert(self.queue@.take(j + 1).drop_last() =~= self.queue@.take(j as int));
                let h = self.hold_until[self.queue[j].device as usize];
                best = match best {
                    None => Some(h),
                    Some(t) => Some(if t < h { t } else { h }),
                };
                j = j + 1;
            }
            assert(self.queue@.take(self.queue.len() as int) =~= self.queue@);
            PlayerStep::Wait(best)
        }
    }

    /// Tells the player to stop.
    pub fn shut_down(&mut self)
        ensures
            final(self)@ == old(self)@.shut_down(),
    {
        self.shutdown = true;
    }
}

} // verus!
