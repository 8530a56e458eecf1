//! The engine that a host drives: unloaded at first, then holding the
//! scheduler of the last container that loaded.

use vstd::prelude::*;
use crate::event::{HostEvent, RawEvent};
use crate::scheduler::Scheduler;
use crate::sequence::{built_from, tracks_view, Container, LoadError, Sequence, TimeBase};
use crate::smf::{load, loaded_from};

verus! {

/// A playback engine. `scheduler` is `None` until a container has loaded.
#[derive(Debug)]
pub struct Engine {
    pub scheduler: Option<Scheduler>,
}

impl Engine {
    /// A scheduler that is there is well formed.
    pub open spec fn well_formed(&self) -> bool {
        self.scheduler is Some ==> self.scheduler->Some_0.well_formed()
    }

    /// `self` holds the fresh sequence of a container with this time base
    /// and these tracks, at tempo 120 and with no key sounding.
    pub open spec fn fresh_over(&self, time_base: TimeBase, tracks: Seq<Seq<RawEvent>>) -> bool {
        &&& self.scheduler is Some
        &&& self.scheduler->Some_0.at_rest()
        &&& built_from(Ok::<Sequence, LoadError>(self.scheduler->Some_0.sequence), time_base, tracks)
    }

    /// Tests `well_formed`.
    pub fn is_well_formed(&self) -> (r: bool)
        ensures
            r == self.well_formed(),
    {
        match &self.scheduler {
            Some(scheduler) => scheduler.is_well_formed(),
            None => true,
        }
    }

    /// An engine with nothing loaded.
    pub fn new() -> (r: Engine)
        ensures
            r.scheduler is None,
            r.well_formed(),
    {
        Engine { scheduler: None }
    }

    /// Tells whether a sequence is loaded.
    pub fn is_loaded(&self) -> (r: bool)
        ensures
            r == (self.scheduler is Some),
    {
        self.scheduler.is_some()
    }

    /// Loads a parsed container.
    ///
    /// On success the engine holds the fresh sequence of the container,
    /// the tempo is 120 and no key sounds. On failure the engine is as it
    /// was: one that had nothing loaded still has nothing loaded.
    pub fn load_container(&mut self, container: &Container) -> (r: Result<(), LoadError>)
        requires
            old(self).well_formed(),
        ensures
            final(self).well_formed(),
            match r {
                Ok(_) => final(self).fresh_over(container.time_base, tracks_view(container.tracks)),
                Err(e) => {
                    &&& built_from(
                        Err::<Sequence, LoadError>(e),
                        container.time_base,
                        tracks_view(container.tracks),
                    )
                    &&& *final(self) == *old(self)
                },
            },
    {
        match Sequence::from_container(container) {
            Ok(sequence) => {
                self.scheduler = Some(Scheduler::new(sequence));
                Ok(())
            },
            Err(e) => Err(e),
        }
    }

    /// `self` holds the fresh sequence that `bytes` load to, at tempo 120
    /// and with no key sounding.
    pub open spec fn fresh_from_bytes(&self, bytes: Seq<u8>) -> bool {
        &&& self.scheduler is Some
        &&& self.scheduler->Some_0.at_rest()
        &&& loaded_from(Ok::<Sequence, LoadError>(self.scheduler->Some_0.sequence), bytes)
    }

    /// `next` and `r` are what loading `bytes` makes of `self`: on success
    /// `next` holds the fresh sequence of the bytes, on failure it is
    /// `self` and the error is the one that the bytes call for.
    pub open spec fn loads_to(&self, next: &Engine, r: Result<(), LoadError>, bytes: Seq<u8>) -> bool {
        match r {
            Ok(_) => next.fresh_from_bytes(bytes),
            Err(e) => *next == *self && loaded_from(Err::<Sequence, LoadError>(e), bytes),
        }
    }

    /// Loads the bytes of a Standard MIDI File.
    ///
    /// Every metrical file that parses loads: the engine then holds its
    /// fresh sequence, whatever it held before. Any other bytes fail with
    /// the error that `load` gives and leave the engine as it was.
    pub fn load(&mut self, bytes: &[u8]) -> (r: Result<(), LoadError>)
        requires
            old(self).well_formed(),
        ensures
            final(self).well_formed(),
            old(self).loads_to(final(self), r, bytes@),
    {
        match load(bytes) {
            Ok(sequence) => {
                self.scheduler = Some(Scheduler::new(sequence));
                Ok(())
            },
            Err(e) => Err(e),
        }
    }

    /// Advances playback by one audio cycle and appends what falls due to
    /// `out`. With nothing loaded this does nothing; otherwise it is the
    /// loaded scheduler's `advance_into`.
    pub fn advance_into(
        &mut self,
        pos_micros: u64,
        sample_rate: u32,
        frame_count: u32,
        is_playing: bool,
        out: &mut Vec<HostEvent>,
    )
        requires
            old(self).well_formed(),
        ensures
            final(self).well_formed(),
            match old(self).scheduler {
                None => *final(self) == *old(self) && final(out)@ == old(out)@,
                Some(before) => {
                    &&& final(self).scheduler is Some
                    &&& before.advances_into(
                        &final(self).scheduler->Some_0,
                        old(out)@,
                        final(out)@,
                        pos_micros,
                        sample_rate,
                        frame_count,
                        is_playing,
                    )
                },
            },
    {
        match &mut self.scheduler {
            Some(scheduler) => scheduler.advance_into(pos_micros, sample_rate, frame_count, is_playing, out),
            None => {},
        }
    }

    /// `advance_into` with a list of its own, which it returns.
    pub fn advance(
        &mut self,
        pos_micros: u64,
        sample_rate: u32,
        frame_count: u32,
        is_playing: bool,
    ) -> (out: Vec<HostEvent>)
        requires
            old(self).well_formed(),
        ensures
            final(self).well_formed(),
            match old(self).scheduler {
                None => *final(self) == *old(self) && out@ == Seq::<HostEvent>::empty(),
                Some(before) => {
                    &&& final(self).scheduler is Some
                    &&& before.advances_to(
                        &final(self).scheduler->Some_0,
                        out@,
                        pos_micros,
                        sample_rate,
                        frame_count,
                        is_playing,
                    )
                },
            },
    {
        let mut out: Vec<HostEvent> = Vec::new();
        self.advance_into(pos_micros, sample_rate, frame_count, is_playing, &mut out);
        out
    }
}

} // verus!
