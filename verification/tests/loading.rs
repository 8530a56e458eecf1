use midi_scheduler::engine::Engine;
use midi_scheduler::sequence::{sort_by_tick, Container, LoadError, Sequence, TimeBase};
use midi_scheduler::{has_overflowing_division, load, read_container, HostEvent, Payload, RawEvent, TimedEvent};

fn header(tracks: u8, division: [u8; 2]) -> Vec<u8> {
    let mut bytes = b"MThd".to_vec();
    bytes.extend_from_slice(&[0, 0, 0, 6, 0, 1, 0, tracks, division[0], division[1]]);
    bytes
}

fn chunk(events: &[u8]) -> Vec<u8> {
    let mut bytes = b"MTrk".to_vec();
    bytes.extend_from_slice(&(events.len() as u32).to_be_bytes());
    bytes.extend_from_slice(events);
    bytes
}

fn two_track_file() -> Vec<u8> {
    let mut bytes = header(2, [0, 96]);
    bytes.extend(chunk(&[
        0x00, 0xFF, 0x51, 0x03, 0x03, 0xD0, 0x90, // tempo 250 000
        0x60, 0x90, 0x3C, 0x64, // +96 note on 60
        0x60, 0x80, 0x3C, 0x40, // +96 note off 60
        0x00, 0xFF, 0x2F, 0x00,
    ]));
    bytes.extend(chunk(&[
        0x60, 0xE1, 0x00, 0x40, // +96 pitch bend, centre, channel 1
        0x81, 0x00, 0xB0, 0x07, 0x7F, // +128 controller
        0x00, 0xFF, 0x2F, 0x00,
    ]));
    bytes
}

fn timecode_file() -> Vec<u8> {
    let mut bytes = header(1, [0xE7, 40]);
    bytes.extend(chunk(&[0x00, 0xFF, 0x2F, 0x00]));
    bytes
}

#[test]
fn container_holds_what_the_file_holds() {
    let c = read_container(&two_track_file()).unwrap();
    assert_eq!(c.time_base, TimeBase::Metrical(96));
    assert_eq!(c.tracks.len(), 2);
    assert_eq!(
        c.tracks[0],
        vec![
            RawEvent { delta: 0, payload: Payload::TempoChange { micros_per_quarter: 250_000 } },
            RawEvent { delta: 96, payload: Payload::NoteOn { channel: 0, key: 60, velocity: 100 } },
            RawEvent { delta: 96, payload: Payload::NoteOff { channel: 0, key: 60, velocity: 64 } },
            RawEvent { delta: 0, payload: Payload::Other },
        ]
    );
    assert_eq!(
        c.tracks[1],
        vec![
            RawEvent { delta: 96, payload: Payload::PitchBend { channel: 1, value: 0 } },
            RawEvent { delta: 128, payload: Payload::Other },
            RawEvent { delta: 0, payload: Payload::Other },
        ]
    );
}

#[test]
fn loaded_sequence_is_merged_in_tick_order() {
    let s = load(&two_track_file()).unwrap();
    assert_eq!(s.ticks_per_quarter, 96);
    let ticks: Vec<u64> = s.events.iter().map(|e| e.tick).collect();
    assert_eq!(ticks, vec![0, 96, 96, 192, 192, 224, 224]);
    assert_eq!(s.events[1].payload, Payload::NoteOn { channel: 0, key: 60, velocity: 100 });
    assert_eq!(s.events[2].payload, Payload::PitchBend { channel: 1, value: 0 });
    assert_eq!(s.events[3].payload, Payload::NoteOff { channel: 0, key: 60, velocity: 64 });
    assert_eq!(s.consumed, vec![false; 7]);
}

#[test]
fn timecode_file_is_unsupported() {
    assert_eq!(load(&timecode_file()).unwrap_err(), LoadError::UnsupportedTimeBase);
}

#[test]
fn garbage_is_malformed() {
    assert_eq!(load(b"no midi here").unwrap_err(), LoadError::MalformedContainer);
    assert_eq!(load(&[]).unwrap_err(), LoadError::MalformedContainer);
    assert_eq!(read_container(b"MThd").unwrap_err(), LoadError::MalformedContainer);
}

#[test]
fn timecode_container_is_refused_first() {
    let bad_key = RawEvent { delta: 0, payload: Payload::NoteOn { channel: 0, key: 200, velocity: 1 } };
    let c = Container { time_base: TimeBase::Timecode, tracks: vec![vec![bad_key]] };
    assert_eq!(Sequence::from_container(&c).unwrap_err(), LoadError::UnsupportedTimeBase);
}

#[test]
fn key_above_127_is_malformed() {
    let bad_on = RawEvent { delta: 0, payload: Payload::NoteOn { channel: 0, key: 128, velocity: 1 } };
    let c = Container { time_base: TimeBase::Metrical(96), tracks: vec![vec![], vec![bad_on]] };
    assert_eq!(Sequence::from_container(&c).unwrap_err(), LoadError::MalformedContainer);
    let bad_off = RawEvent { delta: 0, payload: Payload::NoteOff { channel: 0, key: 255, velocity: 1 } };
    let c = Container { time_base: TimeBase::Metrical(96), tracks: vec![vec![bad_off]] };
    assert_eq!(Sequence::from_container(&c).unwrap_err(), LoadError::MalformedContainer);
    assert!(!bad_on.payload.is_well_formed());
    assert!(Payload::NoteOn { channel: 0, key: 127, velocity: 1 }.is_well_formed());
}

#[test]
fn ticks_accumulate_per_track() {
    let e = |delta: u32| RawEvent { delta, payload: Payload::Other };
    let c = Container {
        time_base: TimeBase::Metrical(480),
        tracks: vec![vec![e(10), e(20), e(u32::MAX)], vec![e(5)]],
    };
    let s = Sequence::from_container(&c).unwrap();
    let ticks: Vec<u64> = s.events.iter().map(|e| e.tick).collect();
    assert_eq!(ticks, vec![5, 10, 30, 30 + u32::MAX as u64]);
    assert_eq!(s.len(), 4);
}

#[test]
fn empty_container_gives_an_empty_sequence() {
    let c = Container { time_base: TimeBase::Metrical(0), tracks: vec![] };
    let s = Sequence::from_container(&c).unwrap();
    assert_eq!(s.len(), 0);
    assert_eq!(s.ticks_per_quarter, 0);
}

#[test]
fn sort_keeps_equal_ticks_in_order() {
    let at = |tick: u64, key: u8| TimedEvent { tick, payload: Payload::NoteOn { channel: 0, key, velocity: 1 } };
    let sorted = sort_by_tick(&vec![at(5, 1), at(3, 2), at(5, 3), at(3, 4), at(0, 5), at(5, 6)]);
    assert_eq!(sorted, vec![at(0, 5), at(3, 2), at(3, 4), at(5, 1), at(5, 3), at(5, 6)]);
}

#[test]
fn loading_twice_gives_the_same_sequence() {
    let bytes = two_track_file();
    let mut engine = Engine::new();
    assert!(engine.load(&bytes).is_ok());
    let first = engine.scheduler.as_ref().unwrap().sequence.events.clone();
    let out = engine.advance(10_000_000, 48_000, 64, true);
    assert_eq!(out.len(), 3);
    assert_eq!(engine.scheduler.as_ref().unwrap().tempo, 240);
    assert!(engine.load(&bytes).is_ok());
    let s = engine.scheduler.as_ref().unwrap();
    assert_eq!(s.sequence.events, first);
    assert_eq!(s.sequence.ticks_per_quarter, 96);
    assert_eq!(s.sequence.consumed, vec![false; 7]);
    assert_eq!(s.tempo, 120);
    assert!(s.note_active.iter().all(|a| !*a));
}

#[test]
fn unsupported_time_base_leaves_the_engine_unloaded() {
    let mut engine = Engine::new();
    assert_eq!(engine.load(&timecode_file()), Err(LoadError::UnsupportedTimeBase));
    assert!(!engine.is_loaded());
    assert!(engine.advance(1_000_000, 48_000, 64, true).is_empty());
}

#[test]
fn failed_load_keeps_what_was_loaded() {
    let mut engine = Engine::new();
    assert!(engine.load(&two_track_file()).is_ok());
    let out = engine.advance(300_000, 48_000, 64, true);
    assert_eq!(out, vec![
        HostEvent::NoteOn { timing: 2_400, channel: 0, note: 60, velocity: 100 },
        HostEvent::PitchBend { timing: 2_400, channel: 1, value: 0 },
    ]);
    assert_eq!(engine.load(b"broken"), Err(LoadError::MalformedContainer));
    assert!(engine.is_loaded());
    let s = engine.scheduler.as_ref().unwrap();
    assert_eq!(s.tempo, 240);
    assert!(s.note_active[60]);
    assert_eq!(s.sequence.consumed, vec![true, true, true, false, false, false, false]);
}

#[test]
fn engine_loads_a_container() {
    let on = RawEvent { delta: 0, payload: Payload::NoteOn { channel: 9, key: 36, velocity: 127 } };
    let c = Container { time_base: TimeBase::Metrical(96), tracks: vec![vec![on]] };
    let mut engine = Engine::new();
    assert_eq!(engine.load_container(&c), Ok(()));
    assert!(engine.is_loaded());
    let out = engine.advance(1_000_000, 48_000, 64, true);
    assert_eq!(out, vec![HostEvent::NoteOn { timing: 48_000, channel: 9, note: 36, velocity: 127 }]);
}

#[test]
fn engine_is_well_formed_before_and_after_loading() {
    let mut engine = Engine::new();
    assert!(engine.is_well_formed());
    assert!(engine.load(&two_track_file()).is_ok());
    assert!(engine.is_well_formed());
    engine.advance(10_000_000, 48_000, 64, true);
    assert!(engine.is_well_formed());
}

#[test]
fn zero_resolution_file_never_plays() {
    let mut bytes = header(1, [0, 0]);
    bytes.extend(chunk(&[0x00, 0x90, 0x3C, 0x64, 0x00, 0xFF, 0x2F, 0x00]));
    let mut engine = Engine::new();
    assert!(engine.load(&bytes).is_ok());
    assert!(engine.advance(u64::MAX, 48_000, 64, true).is_empty());
}

#[test]
fn division_of_minus_128_frames_is_malformed() {
    let bytes = [0x4D, 0x54, 0x68, 0x64, 0, 0, 0, 6, 0, 0, 0, 1, 0x80, 0x00];
    assert!(has_overflowing_division(&bytes));
    assert_eq!(read_container(&bytes).unwrap_err(), LoadError::MalformedContainer);
    assert_eq!(load(&bytes).unwrap_err(), LoadError::MalformedContainer);
    let mut engine = Engine::new();
    assert_eq!(engine.load(&bytes), Err(LoadError::MalformedContainer));
    assert!(!engine.is_loaded());
}

fn header_chunk(format: u8, division: [u8; 2]) -> Vec<u8> {
    let mut bytes = b"MThd".to_vec();
    bytes.extend_from_slice(&[0, 0, 0, 6, 0, format, 0, 1, division[0], division[1]]);
    bytes
}

fn wrapped(file: &[u8], before: &[u8]) -> Vec<u8> {
    let mut inner = b"RMID".to_vec();
    inner.extend_from_slice(before);
    inner.extend_from_slice(b"data");
    inner.extend_from_slice(&(file.len() as u32).to_le_bytes());
    inner.extend_from_slice(file);
    let mut bytes = b"RIFF".to_vec();
    bytes.extend_from_slice(&(inner.len() as u32).to_le_bytes());
    bytes.extend(inner);
    bytes
}

#[test]
fn header_pattern_inside_a_text_event_is_no_header() {
    let mut bytes = header(1, [0x01, 0xE0]);
    bytes.extend(chunk(&[
        0x00, 0xFF, 0x01, 0x0D, 0x4D, 0x54, 0x68, 0x64, 0, 0, 0, 0, 0, 0, 0, 0, 0x80, // text
        0x00, 0xFF, 0x2F, 0x00,
    ]));
    assert_eq!(bytes.len(), 43);
    assert!(!has_overflowing_division(&bytes));
    let s = load(&bytes).unwrap();
    assert_eq!(s.ticks_per_quarter, 480);
    assert_eq!(s.len(), 2);
    let mut engine = Engine::new();
    assert_eq!(engine.load(&bytes), Ok(()));
    assert!(engine.is_loaded());
}

#[test]
fn second_header_chunk_with_minus_128_frames_is_malformed() {
    let mut bytes = two_track_file();
    assert!(!has_overflowing_division(&bytes));
    bytes.extend(header_chunk(1, [0x80, 0x00]));
    assert!(has_overflowing_division(&bytes));
    assert_eq!(load(&bytes).unwrap_err(), LoadError::MalformedContainer);
}

#[test]
fn header_chunk_with_one_byte_of_division_is_not_decoded() {
    let mut bytes = two_track_file();
    bytes.extend_from_slice(&[0x4D, 0x54, 0x68, 0x64, 0, 0, 0, 6, 0, 0, 0, 1, 0x80]);
    assert!(!has_overflowing_division(&bytes));
    assert_eq!(load(&bytes).unwrap().len(), 7);
    let first = [0x4D, 0x54, 0x68, 0x64, 0, 0, 0, 5, 0, 0, 0, 1, 0x80];
    assert!(!has_overflowing_division(&first));
    assert_eq!(load(&first).unwrap_err(), LoadError::MalformedContainer);
}

#[test]
fn chain_ends_at_a_header_chunk_that_cannot_be_decoded() {
    let mut bad_format = two_track_file();
    bad_format.extend(header_chunk(7, [0, 96]));
    bad_format.extend(header_chunk(1, [0x80, 0]));
    assert!(!has_overflowing_division(&bad_format));
    assert_eq!(load(&bad_format).unwrap().len(), 7);
    let mut bad_rate = two_track_file();
    bad_rate.extend(header_chunk(1, [0x81, 0]));
    bad_rate.extend(header_chunk(1, [0x80, 0]));
    assert!(!has_overflowing_division(&bad_rate));
    assert_eq!(load(&bad_rate).unwrap().len(), 7);
    let mut good_rate = two_track_file();
    good_rate.extend(header_chunk(1, [0xE7, 40]));
    good_rate.extend(header_chunk(1, [0x80, 0]));
    assert!(has_overflowing_division(&good_rate));
    assert_eq!(load(&good_rate).unwrap_err(), LoadError::MalformedContainer);
}

#[test]
fn unknown_frame_rate_is_malformed_without_overflow() {
    let mut bytes = header(1, [0x81, 40]);
    bytes.extend(chunk(&[0x00, 0xFF, 0x2F, 0x00]));
    assert!(!has_overflowing_division(&bytes));
    assert_eq!(load(&bytes).unwrap_err(), LoadError::MalformedContainer);
}

#[test]
fn bytes_that_start_no_chain_hold_no_overflow() {
    assert!(!has_overflowing_division(&[]));
    assert!(!has_overflowing_division(b"MThd"));
    assert!(!has_overflowing_division(b"RIFF"));
    let mut shifted = vec![0u8];
    shifted.extend(header_chunk(1, [0x80, 0]));
    assert!(!has_overflowing_division(&shifted));
    assert_eq!(load(&shifted).unwrap_err(), LoadError::MalformedContainer);
    assert!(!has_overflowing_division(&timecode_file()));
}

#[test]
fn wrapped_file_is_read_from_its_data_chunk() {
    let file = two_track_file();
    let plain = wrapped(&file, &[]);
    assert!(!has_overflowing_division(&plain));
    assert_eq!(load(&plain).unwrap().len(), 7);
    // A chunk of odd length before the data, with its byte of padding.
    let padded = wrapped(&file, &[b'L', b'I', b'S', b'T', 3, 0, 0, 0, 1, 2, 3, 0]);
    assert!(!has_overflowing_division(&padded));
    assert_eq!(load(&padded).unwrap().len(), 7);
    let bad = wrapped(&header_chunk(0, [0x80, 0]), &[]);
    assert!(has_overflowing_division(&bad));
    assert_eq!(load(&bad).unwrap_err(), LoadError::MalformedContainer);
    let mut other_form = plain.clone();
    other_form[8..12].copy_from_slice(b"WAVE");
    assert!(!has_overflowing_division(&other_form));
    assert_eq!(load(&other_form).unwrap_err(), LoadError::MalformedContainer);
}

#[test]
fn engine_appends_to_the_callers_list() {
    let mut engine = Engine::new();
    let mut out = vec![HostEvent::PitchBend { timing: 7, channel: 0, value: 1 }];
    engine.advance_into(1_000_000, 48_000, 64, true, &mut out);
    assert_eq!(out.len(), 1);
    assert!(engine.load(&two_track_file()).is_ok());
    engine.advance_into(300_000, 48_000, 64, true, &mut out);
    assert_eq!(out, vec![
        HostEvent::PitchBend { timing: 7, channel: 0, value: 1 },
        HostEvent::NoteOn { timing: 2_400, channel: 0, note: 60, velocity: 100 },
        HostEvent::PitchBend { timing: 2_400, channel: 1, value: 0 },
    ]);
    engine.advance_into(u64::MAX, 48_000, 64, false, &mut out);
    assert_eq!(out.len(), 3);
}
