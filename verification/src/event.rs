//! The plain data that flows through the scheduler.

use vstd::prelude::*;

verus! {

/// What a track event carries once its timing has been taken off.
#[derive(Clone, Copy, Debug, PartialEq, Eq, Structural)]
pub enum Payload {
    /// A key goes down.
    NoteOn { channel: u8, key: u8, velocity: u8 },
    /// A key comes up.
    NoteOff { channel: u8, key: u8, velocity: u8 },
    /// The pitch wheel moves; zero is the centre.
    PitchBend { channel: u8, value: i16 },
    /// The tempo becomes this many microseconds per quarter note.
    TempoChange { micros_per_quarter: u32 },
    /// Anything the scheduler does not act on.
    Other,
}

impl Payload {
    /// A note payload names one of the 128 MIDI keys.
    pub open spec fn well_formed(self) -> bool {
        match self {
            Payload::NoteOn { key, .. } => key < 128,
            Payload::NoteOff { key, .. } => key < 128,
            _ => true,
        }
    }

    /// Tells whether the payload names a valid key, if it names one at all.
    pub fn is_well_formed(self) -> (r: bool)
        ensures
            r == self.well_formed(),
    {
        match self {
            Payload::NoteOn { key, .. } => key < 128,
            Payload::NoteOff { key, .. } => key < 128,
            _ => true,
        }
    }
}

/// A track event as it is stored: ticks since the previous event of its track.
#[derive(Clone, Copy, Debug, PartialEq, Eq, Structural)]
pub struct RawEvent {
    pub delta: u32,
    pub payload: Payload,
}

/// An event stamped with ticks since the start of the sequence.
#[derive(Clone, Copy, Debug, PartialEq, Eq, Structural)]
pub struct TimedEvent {
    pub tick: u64,
    pub payload: Payload,
}

/// What the scheduler hands to the host. `timing` is a sample offset;
/// velocities and bend values are the raw MIDI numbers.
#[derive(Clone, Copy, Debug, PartialEq, Eq, Structural)]
pub enum HostEvent {
    NoteOn { timing: u32, channel: u8, note: u8, velocity: u8 },
    NoteOff { timing: u32, channel: u8, note: u8, velocity: u8 },
    PitchBend { timing: u32, channel: u8, value: i16 },
}

} // verus!
