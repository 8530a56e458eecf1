//! Reading a Standard MIDI File through the `midly` parser.
//!
//! The parser itself is not verified. What this module takes on trust is
//! written down in the contracts of the functions marked
//! `external_body`; the loop that copies a parsed file into a
//! [`Container`] is verified against them.

use vstd::prelude::*;
use midly::{MetaMessage, MidiMessage, Smf, Timing, TrackEventKind};
use crate::chunks::{division_overflows, has_overflowing_division};
use crate::event::{Payload, RawEvent};
use crate::sequence::{all_well_formed, tracks_view, Container, LoadError, Sequence, TimeBase};

verus! {

/// `midly::Smf`, a parsed file. Its inside is not visible to the verifier.
#[verifier::external_type_specification]
#[verifier::external_body]
pub struct ExSmf<'a>(midly::Smf<'a>);

/// `midly::Error`, the parser's error.
#[verifier::external_type_specification]
#[verifier::external_body]
pub struct ExParseError(midly::Error);

/// What `midly::Smf::parse` makes of `bytes`: nothing where it fails, else
/// the time base and the tracks of the file it returns.
pub uninterp spec fn parsed(bytes: Seq<u8>) -> Option<(TimeBase, Seq<Seq<RawEvent>>)>;

/// The tracks that a parsed file holds, every event reduced to its delta
/// and to the part of its kind that the scheduler acts on.
pub uninterp spec fn smf_tracks(smf: Smf) -> Seq<Seq<RawEvent>>;

/// The time base in the header of a parsed file.
pub uninterp spec fn smf_time_base(smf: Smf) -> TimeBase;

/// What reading makes of `bytes`: nothing where a division overflows,
/// and so the parser is not asked, or where the parser refuses the bytes;
/// else the time base and the tracks that the parser returns. The bytes
/// parse where this is something.
pub open spec fn contents(bytes: Seq<u8>) -> Option<(TimeBase, Seq<Seq<RawEvent>>)> {
    if division_overflows(bytes) {
        None
    } else {
        parsed(bytes)
    }
}

/// What loading `bytes` gives: bytes that do not parse are malformed, a
/// timecode file is unsupported, and every metrical file gives the fresh
/// sequence of its tracks.
pub open spec fn loaded_from(r: Result<Sequence, LoadError>, bytes: Seq<u8>) -> bool {
    match contents(bytes) {
        None => r == Err::<Sequence, LoadError>(LoadError::MalformedContainer),
        Some((TimeBase::Timecode, _)) => r == Err::<Sequence, LoadError>(LoadError::UnsupportedTimeBase),
        Some((TimeBase::Metrical(ticks_per_quarter), tracks)) => {
            &&& r is Ok
            &&& r->Ok_0.fresh_from(ticks_per_quarter, tracks)
            &&& r->Ok_0.well_formed()
        },
    }
}

/// Calls `midly::Smf::parse`, on bytes in which no chunk that the parser
/// comes to decode holds a division of minus 128 frames per second: the
/// parser negates that byte in eight bits, and on every other input it
/// returns. Trusted: the outcome depends on the bytes alone, a file that
/// is returned is the one that `parsed` names, and every note in it names
/// a key below 128, since the parser builds keys only from bytes with the
/// top bit clear.
#[verifier::external_body]
fn parse_smf<'a>(bytes: &'a [u8]) -> (r: Result<Smf<'a>, midly::Error>)
    requires
        !division_overflows(bytes@),
    ensures
        match r {
            Ok(smf) => {
                &&& parsed(bytes@) == Some((smf_time_base(smf), smf_tracks(smf)))
                &&& all_well_formed(smf_tracks(smf))
            },
            Err(_) => parsed(bytes@) is None,
        },
{
    Smf::parse(bytes)
}

/// Reads `header.timing` of a parsed file; `u15::as_int` gives the ticks
/// per quarter note of a metrical header. Trusted: the result is the time
/// base that `smf_time_base` names.
#[verifier::external_body]
fn time_base_of(smf: &Smf) -> (r: TimeBase)
    ensures
        r == smf_time_base(*smf),
{
    match smf.header.timing {
        Timing::Metrical(ticks) => TimeBase::Metrical(ticks.as_int()),
        Timing::Timecode(..) => TimeBase::Timecode,
    }
}

/// `Vec::len` of the `tracks` of a parsed file. Trusted: it is the number
/// of tracks that `smf_tracks` names.
#[verifier::external_body]
fn track_count(smf: &Smf) -> (r: usize)
    ensures
        r == smf_tracks(*smf).len(),
{
    smf.tracks.len()
}

/// `Vec::len` of one track of a parsed file. Trusted: it is the length of
/// that track in `smf_tracks`.
#[verifier::external_body]
fn track_len(smf: &Smf, t: usize) -> (r: usize)
    requires
        t < smf_tracks(*smf).len(),
    ensures
        r == smf_tracks(*smf)[t as int].len(),
{
    smf.tracks[t].len()
}

/// The delta of one event of a parsed file, through `u28::as_int`.
/// Trusted: it is the delta of that event in `smf_tracks`.
#[verifier::external_body]
fn delta_at(smf: &Smf, t: usize, i: usize) -> (r: u32)
    requires
        t < smf_tracks(*smf).len(),
        i < smf_tracks(*smf)[t as int].len(),
    ensures
        r == smf_tracks(*smf)[t as int][i as int].delta,
{
    smf.tracks[t][i].delta.as_int()
}

/// The kind of one event of a parsed file as a payload: note on, note off,
/// pitch bend and tempo keep their numbers, read with the `as_int` of
/// `midly`'s integer types; every other kind is `Other`. Trusted: it is
/// the payload of that event in `smf_tracks`.
#[verifier::external_body]
fn payload_at(smf: &Smf, t: usize, i: usize) -> (r: Payload)
    requires
        t < smf_tracks(*smf).len(),
        i < smf_tracks(*smf)[t as int].len(),
    ensures
        r == smf_tracks(*smf)[t as int][i as int].payload,
{
    match smf.tracks[t][i].kind {
        TrackEventKind::Midi { channel, message: MidiMessage::NoteOn { key, vel } } => Payload::NoteOn { channel: channel.as_int(), key: key.as_int(), velocity: vel.as_int() },
        TrackEventKind::Midi { channel, message: MidiMessage::NoteOff { key, vel } } => Payload::NoteOff { channel: channel.as_int(), key: key.as_int(), velocity: vel.as_int() },
        TrackEventKind::Midi { channel, message: MidiMessage::PitchBend { bend } } => Payload::PitchBend { channel: channel.as_int(), value: bend.as_int() },
        TrackEventKind::Meta(MetaMessage::Tempo(micros)) => Payload::TempoChange { micros_per_quarter: micros.as_int() },
        _ => Payload::Other,
    }
}

/// Copies one track of a parsed file.
fn read_track(smf: &Smf, t: usize) -> (r: Vec<RawEvent>)
    requires
        t < smf_tracks(*smf).len(),
    ensures
        r@ == smf_tracks(*smf)[t as int],
{
    let n = track_len(smf, t);
    let mut track: Vec<RawEvent> = Vec::new();
    let mut i: usize = 0;
    while i < n
        invariant
            i <= n,
            t < smf_tracks(*smf).len(),
            n == smf_tracks(*smf)[t as int].len(),
            track@ == smf_tracks(*smf)[t as int].take(i as int),
        decreases n - i,
    {
        let delta = delta_at(smf, t, i);
        let payload = payload_at(smf, t, i);
        track.push(RawEvent { delta, payload });
        assert(track@ == smf_tracks(*smf)[t as int].take(i + 1));
        i += 1;
    }
    assert(smf_tracks(*smf)[t as int].take(n as int) == smf_tracks(*smf)[t as int]);
    track
}

/// Parses `bytes` and copies the result into a container.
///
/// Fails with `MalformedContainer` exactly where the bytes do not parse.
/// Every note of a container that is returned names a key below 128.
pub fn read_container(bytes: &[u8]) -> (r: Result<Container, LoadError>)
    ensures
        match contents(bytes@) {
            None => r == Err::<Container, LoadError>(LoadError::MalformedContainer),
            Some((time_base, tracks)) => {
                &&& r is Ok
                &&& r->Ok_0.time_base == time_base
                &&& tracks_view(r->Ok_0.tracks) == tracks
                &&& all_well_formed(tracks)
            },
        },
{
    if has_overflowing_division(bytes) {
        return Err(LoadError::MalformedContainer);
    }
    let smf = match parse_smf(bytes) {
        Ok(smf) => smf,
        Err(_) => {
            return Err(LoadError::MalformedContainer);
        },
    };
    let time_base = time_base_of(&smf);
    let n = track_count(&smf);
    let mut tracks: Vec<Vec<RawEvent>> = Vec::new();
    let mut t: usize = 0;
    while t < n
        invariant
            t <= n,
            n == smf_tracks(smf).len(),
            tracks_view(tracks) == smf_tracks(smf).take(t as int),
        decreases n - t,
    {
        let track = read_track(&smf, t);
        let ghost earlier = tracks_view(tracks);
        tracks.push(track);
        assert(tracks_view(tracks) =~= earlier.push(track@));
        assert(tracks_view(tracks) == smf_tracks(smf).take(t + 1));
        t += 1;
    }
    assert(smf_tracks(smf).take(n as int) == smf_tracks(smf));
    Ok(Container { time_base, tracks })
}

/// Loads a sequence from the bytes of a Standard MIDI File.
///
/// Fails with `MalformedContainer` where the bytes do not parse, with
/// `UnsupportedTimeBase` where the file counts time in timecode, and
/// succeeds on every metrical file.
pub fn load(bytes: &[u8]) -> (r: Result<Sequence, LoadError>)
    ensures
        loaded_from(r, bytes@),
{
    match read_container(bytes) {
        Ok(container) => Sequence::from_container(&container),
        Err(e) => Err(e),
    }
}

} // verus!
