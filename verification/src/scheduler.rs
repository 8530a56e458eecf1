//! The playback scheduler: which pending events fire in a cycle, and at
//! which sample offset.

use vstd::prelude::*;
use crate::event::{HostEvent, Payload, TimedEvent};
use crate::laws::law_one_scan_settles_a_cycle;
use crate::sequence::Sequence;
use crate::timing::{due, is_due, next_tempo, offset_in_samples, sample_offset, tempo_after, DEFAULT_TEMPO};

verus! {

/// The state of play at some point of a cycle: the tempo in quarter notes
/// per minute, which keys sound, which events are consumed, and what has
/// been handed to the host so far.
pub struct Playback {
    pub tempo: u32,
    pub active: Seq<bool>,
    pub consumed: Seq<bool>,
    pub emitted: Seq<HostEvent>,
}

/// The state after the due event `e`, the `i`-th of its sequence, has been
/// dispatched at sample offset `offset`. Whatever its payload, the event is
/// consumed.
pub open spec fn dispatched(p: Playback, e: TimedEvent, i: int, offset: u32) -> Playback {
    let done = Playback { consumed: p.consumed.update(i, true), ..p };
    match e.payload {
        Payload::TempoChange { micros_per_quarter } => Playback {
            tempo: tempo_after(p.tempo, micros_per_quarter),
            ..done
        },
        Payload::NoteOn { channel, key, velocity } => if p.active[key as int] {
            done
        } else {
            Playback {
                active: p.active.update(key as int, true),
                emitted: p.emitted.push(HostEvent::NoteOn { timing: offset, channel, note: key, velocity }),
                ..done
            }
        },
        Payload::NoteOff { channel, key, velocity } => Playback {
            active: p.active.update(key as int, false),
            emitted: p.emitted.push(HostEvent::NoteOff { timing: offset, channel, note: key, velocity }),
            ..done
        },
        Payload::PitchBend { channel, value } => Playback {
            emitted: p.emitted.push(HostEvent::PitchBend { timing: offset, channel, value }),
            ..done
        },
        Payload::Other => done,
    }
}

/// The state after event `e`, the `i`-th of its sequence, has been looked
/// at: untouched where the event is consumed or not yet due at the tempo
/// of the moment, dispatched otherwise.
pub open spec fn stepped(
    p: Playback,
    e: TimedEvent,
    i: int,
    ticks_per_quarter: u16,
    pos_micros: u64,
    sample_rate: u32,
) -> Playback {
    if p.consumed[i] || !is_due(pos_micros, e.tick, ticks_per_quarter, p.tempo) {
        p
    } else {
        dispatched(p, e, i, sample_offset(pos_micros, e.tick, ticks_per_quarter, p.tempo, sample_rate))
    }
}

/// The state after the first `n` events have been looked at in order.
pub open spec fn scanned(
    p: Playback,
    events: Seq<TimedEvent>,
    ticks_per_quarter: u16,
    pos_micros: u64,
    sample_rate: u32,
    n: int,
) -> Playback
    decreases n,
{
    if n <= 0 {
        p
    } else {
        stepped(
            scanned(p, events, ticks_per_quarter, pos_micros, sample_rate, n - 1),
            events[n - 1],
            n - 1,
            ticks_per_quarter,
            pos_micros,
            sample_rate,
        )
    }
}

/// The state after a cycle of `frames` frames: one scan of all events per
/// frame.
pub open spec fn cycled(
    p: Playback,
    events: Seq<TimedEvent>,
    ticks_per_quarter: u16,
    pos_micros: u64,
    sample_rate: u32,
    frames: int,
) -> Playback
    decreases frames,
{
    if frames <= 0 {
        p
    } else {
        scanned(
            cycled(p, events, ticks_per_quarter, pos_micros, sample_rate, frames - 1),
            events,
            ticks_per_quarter,
            pos_micros,
            sample_rate,
            events.len() as int,
        )
    }
}

/// A loaded sequence with the tempo and the sounding keys.
#[derive(Debug)]
pub struct Scheduler {
    pub sequence: Sequence,
    pub tempo: u32,
    pub note_active: [bool; 128],
}

impl Scheduler {
    /// The sequence is well formed.
    pub open spec fn well_formed(&self) -> bool {
        self.sequence.well_formed()
    }

    /// The state of play, with `emitted` as what the host has been handed.
    pub open spec fn state_with(&self, emitted: Seq<HostEvent>) -> Playback {
        Playback {
            tempo: self.tempo,
            active: self.note_active@,
            consumed: self.sequence.consumed@,
            emitted,
        }
    }

    /// The tempo is 120 and no key sounds.
    pub open spec fn at_rest(&self) -> bool {
        &&& self.tempo == 120
        &&& self.note_active@ == Seq::new(128, |k: int| false)
    }

    /// `next` and `after` are what one cycle makes of `self` and of the
    /// host events `before`: the events and the resolution stay; a running
    /// transport scans the events once per frame and appends what falls
    /// due, a stopped one changes nothing and appends nothing.
    pub open spec fn advances_into(
        &self,
        next: &Scheduler,
        before: Seq<HostEvent>,
        after: Seq<HostEvent>,
        pos_micros: u64,
        sample_rate: u32,
        frame_count: u32,
        is_playing: bool,
    ) -> bool {
        &&& next.sequence.events == self.sequence.events
        &&& next.sequence.ticks_per_quarter == self.sequence.ticks_per_quarter
        &&& if is_playing {
            next.state_with(after) == cycled(
                self.state_with(before),
                self.sequence.events@,
                self.sequence.ticks_per_quarter,
                pos_micros,
                sample_rate,
                frame_count as int,
            )
        } else {
            *next == *self && after == before
        }
    }

    /// `advances_into` from no host events.
    pub open spec fn advances_to(
        &self,
        next: &Scheduler,
        out: Seq<HostEvent>,
        pos_micros: u64,
        sample_rate: u32,
        frame_count: u32,
        is_playing: bool,
    ) -> bool {
        self.advances_into(next, Seq::empty(), out, pos_micros, sample_rate, frame_count, is_playing)
    }

    /// Tests `well_formed`.
    pub fn is_well_formed(&self) -> (r: bool)
        ensures
            r == self.well_formed(),
    {
        self.sequence.is_well_formed()
    }

    /// A scheduler at rest over `sequence`.
    pub fn new(sequence: Sequence) -> (r: Scheduler)
        ensures
            r.sequence == sequence,
            r.at_rest(),
    {
        let note_active = [false;128];
        assert(note_active@ =~= Seq::new(128, |k: int| false));
        Scheduler { sequence, tempo: DEFAULT_TEMPO, note_active }
    }

    /// Looks at every event once, in order, and dispatches those that are
    /// pending and due.
    fn scan(&mut self, pos_micros: u64, sample_rate: u32, out: &mut Vec<HostEvent>)
        requires
            old(self).well_formed(),
        ensures
            final(self).well_formed(),
            final(self).sequence.events == old(self).sequence.events,
            final(self).sequence.ticks_per_quarter == old(self).sequence.ticks_per_quarter,
            final(self).state_with(final(out)@) == scanned(
                old(self).state_with(old(out)@),
                old(self).sequence.events@,
                old(self).sequence.ticks_per_quarter,
                pos_micros,
                sample_rate,
                old(self).sequence.events@.len() as int,
            ),
    {
        let ghost start = self.state_with(out@);
        let ghost events = self.sequence.events@;
        let ticks_per_quarter = self.sequence.ticks_per_quarter;
        let n = self.sequence.events.len();
        let mut i: usize = 0;
        while i < n
            invariant
                i <= n,
                n == events.len(),
                self.well_formed(),
                self.sequence.events@ == events,
                self.sequence.events == old(self).sequence.events,
                self.sequence.ticks_per_quarter == ticks_per_quarter,
                self.state_with(out@) == scanned(
                    start,
                    events,
                    ticks_per_quarter,
                    pos_micros,
                    sample_rate,
                    i as int,
                ),
            decreases n - i,
        {
            let ghost before = self.state_with(out@);
            let e = self.sequence.events[i];
            if !self.sequence.consumed[i] && due(pos_micros, e.tick, ticks_per_quarter, self.tempo) {
                let timing = offset_in_samples(pos_micros, e.tick, ticks_per_quarter, self.tempo, sample_rate);
                assert(e.payload.well_formed());
                match e.payload {
                    Payload::TempoChange { micros_per_quarter } => {
                        self.tempo = next_tempo(self.tempo, micros_per_quarter);
                    },
                    Payload::NoteOn { channel, key, velocity } => {
                        if !self.note_active[key as usize] {
                            self.note_active[key as usize] = true;
                            out.push(HostEvent::NoteOn { timing, channel, note: key, velocity });
                        }
                    },
                    Payload::NoteOff { channel, key, velocity } => {
                        self.note_active[key as usize] = false;
                        out.push(HostEvent::NoteOff { timing, channel, note: key, velocity });
                    },
                    Payload::PitchBend { channel, value } => {
                        out.push(HostEvent::PitchBend { timing, channel, value });
                    },
                    Payload::Other => {},
                }
                self.sequence.consumed.set(i, true);
                assert(self.state_with(out@) == dispatched(before, e, i as int, timing));
            }
            assert(self.state_with(out@) == stepped(
                before,
                e,
                i as int,
                ticks_per_quarter,
                pos_micros,
                sample_rate,
            ));
            i += 1;
        }
    }

    /// Advances playback by one audio cycle and appends the events to hand
    /// to the host to `out`, in the order in which they fell due. Nothing
    /// is allocated while `out` has room.
    ///
    /// `pos_micros` is the transport position in microseconds and
    /// `sample_rate` the rate in hertz. A stopped transport changes nothing.
    /// The events are scanned once: in a tick-ordered sequence the scans
    /// of the further frames of the cycle would find nothing due.
    pub fn advance_into(
        &mut self,
        pos_micros: u64,
        sample_rate: u32,
        frame_count: u32,
        is_playing: bool,
        out: &mut Vec<HostEvent>,
    )
        requires
            old(self).well_formed(),
        ensures
            final(self).well_formed(),
            old(self).advances_into(
                final(self),
                old(out)@,
                final(out)@,
                pos_micros,
                sample_rate,
                frame_count,
                is_playing,
            ),
    {
        if !is_playing || frame_count == 0 {
            return ;
        }
        proof {
            law_one_scan_settles_a_cycle(
                self.state_with(out@),
                self.sequence.events@,
                self.sequence.ticks_per_quarter,
                pos_micros,
                sample_rate,
                frame_count as int,
            );
        }
        self.scan(pos_micros, sample_rate, out);
    }

    /// `advance_into` with a list of its own, which it returns.
    pub fn advance(
        &mut self,
        pos_micros: u64,
        sample_rate: u32,
        frame_count: u32,
        is_playing: bool,
    ) -> (out: Vec<HostEvent>)
        requires
            old(self).well_formed(),
        ensures
            final(self).well_formed(),
            old(self).advances_to(final(self), out@, pos_micros, sample_rate, frame_count, is_playing),
    {
        let mut out: Vec<HostEvent> = Vec::new();
        self.advance_into(pos_micros, sample_rate, frame_count, is_playing, &mut out);
        out
    }
}

} // verus!
