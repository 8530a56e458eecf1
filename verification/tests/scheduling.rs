use midi_scheduler::scheduler::Scheduler;
use midi_scheduler::sequence::{Container, Sequence, TimeBase};
use midi_scheduler::timing::{due, next_tempo, offset_in_samples};
use midi_scheduler::{HostEvent, Payload, RawEvent};

fn note_on(delta: u32, key: u8) -> RawEvent {
    RawEvent { delta, payload: Payload::NoteOn { channel: 0, key, velocity: 100 } }
}

fn note_off(delta: u32, key: u8) -> RawEvent {
    RawEvent { delta, payload: Payload::NoteOff { channel: 0, key, velocity: 64 } }
}

fn tempo(delta: u32, micros_per_quarter: u32) -> RawEvent {
    RawEvent { delta, payload: Payload::TempoChange { micros_per_quarter } }
}

fn scheduler_over(ticks_per_quarter: u16, track: Vec<RawEvent>) -> Scheduler {
    let container = Container { time_base: TimeBase::Metrical(ticks_per_quarter), tracks: vec![track] };
    Scheduler::new(Sequence::from_container(&container).unwrap())
}

#[test]
fn offset_is_samples_past_due() {
    // One quarter note at 120 per minute falls due at half a second.
    assert_eq!(offset_in_samples(1_000_000, 96, 96, 120, 48_000), 24_000);
}

#[test]
fn offset_rounds_down() {
    // 1 microsecond past a due time of zero at 48 kHz is 0.048 samples.
    assert_eq!(offset_in_samples(1, 0, 96, 120, 48_000), 0);
    // 21 microseconds are 1.008 samples.
    assert_eq!(offset_in_samples(21, 0, 96, 120, 48_000), 1);
}

#[test]
fn offset_stops_at_the_largest_value() {
    assert_eq!(offset_in_samples(u64::MAX, 0, 1, 1, u32::MAX), u32::MAX);
    assert_eq!(offset_in_samples(u64::MAX, 0, u16::MAX, u32::MAX, 1), u32::MAX);
}

#[test]
fn offset_at_rate_zero_is_zero() {
    assert_eq!(offset_in_samples(1_000_000, 96, 96, 120, 0), 0);
}

#[test]
fn due_is_strict() {
    assert!(!due(500_000, 96, 96, 120));
    assert!(due(500_001, 96, 96, 120));
    assert!(!due(0, 0, 96, 120));
}

#[test]
fn nothing_is_due_without_a_resolution_or_a_tempo() {
    assert!(!due(u64::MAX, 0, 0, 120));
    assert!(!due(u64::MAX, 0, 96, 0));
}

#[test]
fn tempo_is_an_integer_quotient() {
    assert_eq!(next_tempo(120, 500_000), 120);
    assert_eq!(next_tempo(120, 250_000), 240);
    assert_eq!(next_tempo(120, 700_000), 85);
    assert_eq!(next_tempo(120, 60_000_001), 0);
}

#[test]
fn tempo_change_to_zero_is_ignored() {
    assert_eq!(next_tempo(97, 0), 97);
}

#[test]
fn due_note_is_emitted_at_its_offset() {
    let mut s = scheduler_over(96, vec![note_on(96, 60)]);
    let out = s.advance(1_000_000, 48_000, 512, true);
    assert_eq!(out, vec![HostEvent::NoteOn { timing: 24_000, channel: 0, note: 60, velocity: 100 }]);
    assert_eq!(s.sequence.consumed, vec![true]);
    assert!(s.note_active[60]);
}

#[test]
fn pending_note_waits() {
    let mut s = scheduler_over(96, vec![note_on(96, 60)]);
    let out = s.advance(500_000, 48_000, 512, true);
    assert!(out.is_empty());
    assert_eq!(s.sequence.consumed, vec![false]);
    let out = s.advance(600_000, 48_000, 512, true);
    assert_eq!(out, vec![HostEvent::NoteOn { timing: 4_800, channel: 0, note: 60, velocity: 100 }]);
}

#[test]
fn event_is_emitted_once() {
    let mut s = scheduler_over(96, vec![note_on(0, 60), note_off(96, 60)]);
    let first = s.advance(2_000_000, 48_000, 64, true);
    assert_eq!(first.len(), 2);
    let second = s.advance(2_000_000, 48_000, 64, true);
    assert!(second.is_empty());
    let third = s.advance(3_000_000, 48_000, 64, true);
    assert!(third.is_empty());
    assert_eq!(s.sequence.consumed, vec![true, true]);
}

#[test]
fn second_note_on_for_a_sounding_key_is_suppressed() {
    let mut s = scheduler_over(96, vec![note_on(0, 60), note_on(10, 60)]);
    let out = s.advance(1_000_000, 48_000, 64, true);
    assert_eq!(out.len(), 1);
    assert!(matches!(out[0], HostEvent::NoteOn { note: 60, .. }));
    assert_eq!(s.sequence.consumed, vec![true, true]);
    assert!(s.note_active[60]);
}

#[test]
fn note_on_after_note_off_sounds_again() {
    let mut s = scheduler_over(96, vec![note_on(0, 60), note_off(10, 60), note_on(10, 60)]);
    let out = s.advance(1_000_000, 48_000, 64, true);
    assert_eq!(out.len(), 3);
    assert!(s.note_active[60]);
}

#[test]
fn note_off_is_emitted_without_a_note_on() {
    let mut s = scheduler_over(96, vec![note_off(0, 61)]);
    let out = s.advance(1_000_000, 48_000, 64, true);
    assert_eq!(out, vec![HostEvent::NoteOff { timing: 48_000, channel: 0, note: 61, velocity: 64 }]);
    assert!(!s.note_active[61]);
}

#[test]
fn note_off_clears_a_key_whose_second_note_on_was_suppressed() {
    let mut s = scheduler_over(96, vec![note_on(0, 60), note_on(1, 60), note_off(1, 60)]);
    let out = s.advance(1_000_000, 48_000, 64, true);
    assert_eq!(out.len(), 2);
    assert!(matches!(out[1], HostEvent::NoteOff { note: 60, .. }));
    assert!(!s.note_active[60]);
}

#[test]
fn tempo_change_governs_the_events_behind_it() {
    // 250 000 microseconds per quarter are 240 quarters per minute: the
    // note one quarter in falls due at a quarter of a second.
    let mut s = scheduler_over(96, vec![tempo(0, 250_000), note_on(96, 60)]);
    let out = s.advance(300_000, 48_000, 64, true);
    assert_eq!(s.tempo, 240);
    assert_eq!(out, vec![HostEvent::NoteOn { timing: 2_400, channel: 0, note: 60, velocity: 100 }]);
}

#[test]
fn without_the_tempo_change_the_note_waits() {
    let mut s = scheduler_over(96, vec![note_on(96, 60)]);
    let out = s.advance(300_000, 48_000, 64, true);
    assert!(out.is_empty());
    assert_eq!(s.tempo, 120);
}

#[test]
fn tempo_change_emits_nothing() {
    let mut s = scheduler_over(96, vec![tempo(0, 500_000)]);
    let out = s.advance(1, 48_000, 64, true);
    assert!(out.is_empty());
    assert_eq!(s.sequence.consumed, vec![true]);
}

#[test]
fn pitch_bend_keeps_its_raw_value() {
    let bend = RawEvent { delta: 0, payload: Payload::PitchBend { channel: 3, value: -8192 } };
    let mut s = scheduler_over(96, vec![bend]);
    let out = s.advance(1_000_000, 44_100, 64, true);
    assert_eq!(out, vec![HostEvent::PitchBend { timing: 44_100, channel: 3, value: -8192 }]);
}

#[test]
fn other_events_are_consumed_in_silence() {
    let other = RawEvent { delta: 0, payload: Payload::Other };
    let mut s = scheduler_over(96, vec![other]);
    let out = s.advance(1_000_000, 44_100, 64, true);
    assert!(out.is_empty());
    assert_eq!(s.sequence.consumed, vec![true]);
}

#[test]
fn stopped_transport_changes_nothing() {
    let mut s = scheduler_over(96, vec![tempo(0, 250_000), note_on(0, 60)]);
    let out = s.advance(u64::MAX, 48_000, 512, false);
    assert!(out.is_empty());
    assert_eq!(s.sequence.consumed, vec![false, false]);
    assert_eq!(s.tempo, 120);
    assert!(!s.note_active[60]);
}

#[test]
fn cycle_without_frames_changes_nothing() {
    let mut s = scheduler_over(96, vec![note_on(0, 60)]);
    let out = s.advance(1_000_000, 48_000, 0, true);
    assert!(out.is_empty());
    assert_eq!(s.sequence.consumed, vec![false]);
}

#[test]
fn new_scheduler_is_at_rest() {
    let s = scheduler_over(96, vec![note_on(0, 60)]);
    assert_eq!(s.tempo, 120);
    assert!(s.note_active.iter().all(|a| !*a));
}

#[test]
fn further_frames_add_nothing() {
    let track = vec![tempo(0, 250_000), note_on(96, 60), note_off(96, 60), note_on(96, 62)];
    let mut one = scheduler_over(96, track.clone());
    let mut many = scheduler_over(96, track);
    let a = one.advance(600_000, 48_000, 1, true);
    let b = many.advance(600_000, 48_000, 4_096, true);
    assert_eq!(a, b);
    assert_eq!(a.len(), 2);
    assert_eq!(one.sequence.consumed, many.sequence.consumed);
    assert_eq!(one.sequence.consumed, vec![true, true, true, false]);
    assert_eq!(one.tempo, many.tempo);
}

#[test]
fn events_are_emitted_in_tick_order_over_cycles() {
    let mut s = scheduler_over(96, vec![note_on(0, 60), note_off(96, 60), note_on(0, 64), note_off(96, 64)]);
    let mut all = Vec::new();
    for pos in [0u64, 250_000, 500_000, 750_000, 1_000_000, 1_250_000, 5_000_000, 5_000_000] {
        all.extend(s.advance(pos, 48_000, 256, true));
    }
    assert_eq!(all.len(), 4);
    assert!(matches!(all[0], HostEvent::NoteOn { note: 60, timing: 12_000, .. }));
    assert!(matches!(all[1], HostEvent::NoteOff { note: 60, timing: 12_000, .. }));
    assert!(matches!(all[2], HostEvent::NoteOn { note: 64, timing: 12_000, .. }));
    assert!(matches!(all[3], HostEvent::NoteOff { note: 64, timing: 12_000, .. }));
    assert_eq!(s.sequence.consumed, vec![true; 4]);
}

#[test]
fn well_formed_scheduler_is_recognised() {
    let mut s = scheduler_over(96, vec![note_on(5, 60), note_on(5, 61)]);
    assert!(s.is_well_formed());
    s.sequence.events.swap(0, 1);
    assert!(!s.is_well_formed());
    s.sequence.events.swap(0, 1);
    s.sequence.consumed.pop();
    assert!(!s.is_well_formed());
    s.sequence.consumed.push(true);
    assert!(s.is_well_formed());
    s.sequence.events[1].payload = Payload::NoteOff { channel: 0, key: 128, velocity: 0 };
    assert!(!s.is_well_formed());
}

#[test]
fn advance_into_fills_a_list_with_room_without_growing_it() {
    let mut s = scheduler_over(96, vec![note_on(0, 60), note_off(96, 60), tempo(0, 250_000), note_on(96, 62)]);
    let mut out = Vec::with_capacity(s.sequence.len());
    let room = out.capacity();
    s.advance_into(10_000_000, 48_000, 128, true, &mut out);
    assert_eq!(out.len(), 3);
    assert_eq!(out.capacity(), room);
    assert_eq!(s.tempo, 240);
    assert!(!s.note_active[60]);
    assert!(s.note_active[62]);
}

#[test]
fn last_tempo_change_of_a_cycle_decides() {
    let mut s = scheduler_over(96, vec![tempo(0, 250_000), tempo(0, 1_000_000), note_on(96, 60)]);
    let out = s.advance(900_000, 48_000, 64, true);
    assert_eq!(s.tempo, 60);
    assert!(out.is_empty());
    let out = s.advance(1_500_000, 48_000, 64, true);
    assert_eq!(out, vec![HostEvent::NoteOn { timing: 24_000, channel: 0, note: 60, velocity: 100 }]);
}
