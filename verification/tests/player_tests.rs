use haptics::gestures::{lookup, Event};
use haptics::magnitude::{ONE_BITS, ZERO_BITS};
use haptics::player::{PlayerState, PlayerStep};

fn ev(ms: u32, mag: f32, device: u8) -> Event {
    Event::new(ms, mag.to_bits(), device)
}

fn emit(p: &mut PlayerState, now: u64) -> Option<Event> {
    match p.next_step(now) {
        PlayerStep::Emit(e) => Some(e),
        PlayerStep::Wait(_) => None,
        PlayerStep::Stop => panic!("unexpected stop"),
    }
}

#[test]
fn new_player_waits_indefinitely() {
    let mut p = PlayerState::new();
    assert_eq!(p.next_step(0), PlayerStep::Wait(None));
    assert_eq!(p.idle_magnitude(), ZERO_BITS);
}

#[test]
fn same_device_events_play_one_after_another() {
    let mut p = PlayerState::new();
    p.queue(&[ev(100, 1.0, 0), ev(50, 0.5, 0)]);
    assert_eq!(emit(&mut p, 0), Some(ev(100, 1.0, 0)));
    assert_eq!(p.next_step(10), PlayerStep::Wait(Some(100)));
    assert_eq!(p.next_step(99), PlayerStep::Wait(Some(100)));
    assert_eq!(emit(&mut p, 100), Some(ev(50, 0.5, 0)));
    assert_eq!(p.next_step(120), PlayerStep::Wait(None));
}

#[test]
fn different_devices_play_in_parallel() {
    let mut p = PlayerState::new();
    p.queue(&lookup("both_medium").unwrap());
    assert_eq!(emit(&mut p, 5), Some(ev(300, 1.0, 0)));
    assert_eq!(emit(&mut p, 5), Some(ev(300, 1.0, 1)));
    assert_eq!(p.next_step(5), PlayerStep::Wait(None));
}

#[test]
fn alternate_double_short_timing() {
    let mut p = PlayerState::new();
    p.queue(&lookup("alternate_double_short").unwrap());
    assert_eq!(emit(&mut p, 0), Some(ev(50, 1.0, 0)));
    assert_eq!(emit(&mut p, 0), Some(ev(150, 0.0, 1)));
    assert_eq!(p.next_step(0), PlayerStep::Wait(Some(150)));
    assert_eq!(emit(&mut p, 150), Some(ev(50, 1.0, 1)));
}

#[test]
fn queue_does_not_cut_current_event_short() {
    let mut p = PlayerState::new();
    p.queue(&[ev(100, 1.0, 0)]);
    assert_eq!(emit(&mut p, 0), Some(ev(100, 1.0, 0)));
    p.queue(&[ev(10, 0.2, 0)]);
    assert_eq!(p.next_step(50), PlayerStep::Wait(Some(100)));
    assert_eq!(emit(&mut p, 100), Some(ev(10, 0.2, 0)));
}

#[test]
fn interrupt_on_idle_player_aborts_nothing() {
    let mut p = PlayerState::new();
    p.interrupt(&[ev(100, 1.0, 0), ev(100, 0.0, 0)]);
    assert_eq!(emit(&mut p, 0), Some(ev(100, 1.0, 0)));
    assert_eq!(p.next_step(50), PlayerStep::Wait(Some(100)));
    assert_eq!(emit(&mut p, 100), Some(ev(100, 0.0, 0)));
}

#[test]
fn interrupt_prepends_and_aborts_what_is_playing() {
    let mut p = PlayerState::new();
    p.queue(&[ev(1000, 1.0, 0), ev(1000, 1.0, 1), ev(10, 0.5, 1)]);
    assert_eq!(emit(&mut p, 0), Some(ev(1000, 1.0, 0)));
    assert_eq!(emit(&mut p, 0), Some(ev(1000, 1.0, 1)));
    p.interrupt(&[ev(5, 0.2, 0)]);
    assert_eq!(emit(&mut p, 10), Some(ev(5, 0.2, 0)));
    // device 1's current event was cut short too: its next event fires now
    assert_eq!(emit(&mut p, 10), Some(ev(10, 0.5, 1)));
    assert_eq!(p.next_step(10), PlayerStep::Wait(None));
}

#[test]
fn clear_switches_off_devices_above_zero() {
    let mut p = PlayerState::new();
    p.queue(&[ev(10, 1.0, 3), ev(10, 0.0, 1), ev(10, 0.7, 0), ev(10, 0.5, 9)]);
    for _ in 0..4 {
        emit(&mut p, 0);
    }
    p.queue(&[ev(10, 1.0, 5)]);
    p.clear();
    assert_eq!(emit(&mut p, 1), Some(Event::new(0, ZERO_BITS, 0)));
    assert_eq!(emit(&mut p, 1), Some(Event::new(0, ZERO_BITS, 3)));
    assert_eq!(emit(&mut p, 1), Some(Event::new(0, ZERO_BITS, 9)));
    assert_eq!(emit(&mut p, 1), None);
    p.clear();
    assert_eq!(emit(&mut p, 1), None);
}

#[test]
fn shutdown_stops_even_with_queued_events() {
    let mut p = PlayerState::new();
    p.queue(&[ev(10, 1.0, 0)]);
    p.shut_down();
    assert_eq!(p.next_step(0), PlayerStep::Stop);
    p.interrupt(&[ev(10, 1.0, 0)]);
    assert_eq!(p.next_step(0), PlayerStep::Stop);
}

#[test]
fn idle_magnitude_round_trips() {
    let mut p = PlayerState::new();
    p.set_idle_magnitude(0.25f32.to_bits());
    assert_eq!(f32::from_bits(p.idle_magnitude()), 0.25);
    p.set_idle_magnitude(ONE_BITS);
    assert_eq!(p.idle_magnitude(), ONE_BITS);
}

#[test]
fn long_event_near_clock_end_saturates() {
    let mut p = PlayerState::new();
    p.queue(&[ev(u32::MAX, 1.0, 0), ev(1, 1.0, 0)]);
    assert_eq!(emit(&mut p, u64::MAX - 5), Some(ev(u32::MAX, 1.0, 0)));
    assert_eq!(p.next_step(u64::MAX - 1), PlayerStep::Wait(Some(u64::MAX)));
}
