//! From the tracks of a container to one tick-ordered sequence.

use vstd::prelude::*;
use crate::event::{RawEvent, TimedEvent};

verus! {

/// Why a container could not be loaded.
#[derive(Clone, Copy, Debug, PartialEq, Eq, Structural)]
pub enum LoadError {
    /// The container counts time in timecode frames, not in ticks per quarter note.
    UnsupportedTimeBase,
    /// The bytes do not parse as a container, or a note of a container
    /// that was put together by hand names no MIDI key.
    MalformedContainer,
}

/// How a container divides time.
#[derive(Clone, Copy, Debug, PartialEq, Eq, Structural)]
pub enum TimeBase {
    /// Ticks per quarter note.
    Metrical(u16),
    /// Frames and subframes of a second.
    Timecode,
}

/// A parsed container: its time base and its tracks, each a list of
/// delta-timed events.
#[derive(Debug)]
pub struct Container {
    pub time_base: TimeBase,
    pub tracks: Vec<Vec<RawEvent>>,
}

/// The tracks of a container as nested sequences.
pub open spec fn tracks_view(tracks: Vec<Vec<RawEvent>>) -> Seq<Seq<RawEvent>> {
    tracks@.map_values(|t: Vec<RawEvent>| t@)
}

/// Every note of the track names one of the 128 keys.
pub open spec fn track_well_formed(track: Seq<RawEvent>) -> bool {
    forall|i: int| 0 <= i < track.len() ==> (#[trigger] track[i]).payload.well_formed()
}

/// Every note in every track names one of the 128 keys.
pub open spec fn all_well_formed(tracks: Seq<Seq<RawEvent>>) -> bool {
    forall|t: int| 0 <= t < tracks.len() ==> track_well_formed(#[trigger] tracks[t])
}

/// Every note of the sequence names one of the 128 keys.
pub open spec fn events_well_formed(s: Seq<TimedEvent>) -> bool {
    forall|i: int| 0 <= i < s.len() ==> (#[trigger] s[i]).payload.well_formed()
}

/// The sum of the first `n` deltas of a track.
pub open spec fn elapsed(track: Seq<RawEvent>, n: int) -> int
    decreases n,
{
    if n <= 0 {
        0
    } else {
        elapsed(track, n - 1) + track[n - 1].delta as int
    }
}

/// A tick count held at the largest 64-bit value.
pub open spec fn held(n: int) -> u64 {
    if n > u64::MAX as int {
        u64::MAX
    } else {
        n as u64
    }
}

/// The events of one track, each stamped with the ticks elapsed up to and
/// including its own delta.
pub open spec fn stamped(track: Seq<RawEvent>) -> Seq<TimedEvent> {
    Seq::new(
        track.len(),
        |i: int| (TimedEvent { tick: held(elapsed(track, i + 1)), payload: track[i].payload }),
    )
}

/// The stamped events of all tracks, track after track.
pub open spec fn walked(tracks: Seq<Seq<RawEvent>>) -> Seq<TimedEvent>
    decreases tracks.len(),
{
    if tracks.len() == 0 {
        Seq::empty()
    } else {
        walked(tracks.drop_last()) + stamped(tracks.last())
    }
}

/// Ticks never decrease along the sequence.
pub open spec fn ascending(s: Seq<TimedEvent>) -> bool {
    forall|i: int, j: int| 0 <= i <= j < s.len() ==> (#[trigger] s[i]).tick <= (#[trigger] s[j]).tick
}

/// Where an event at `tick` goes in `s`: behind the last event that is not
/// later than it.
pub open spec fn slot(s: Seq<TimedEvent>, tick: u64) -> int
    decreases s.len(),
{
    if s.len() == 0 || s.last().tick <= tick {
        s.len() as int
    } else {
        slot(s.drop_last(), tick)
    }
}

/// The events of `s` in ascending tick order, events of equal tick in the
/// order in which `s` has them.
pub open spec fn ordered(s: Seq<TimedEvent>) -> Seq<TimedEvent>
    decreases s.len(),
{
    if s.len() == 0 {
        Seq::empty()
    } else {
        let front = ordered(s.drop_last());
        front.insert(slot(front, s.last().tick), s.last())
    }
}

/// `r` is what loading a container with this time base and these tracks
/// gives: a timecode container is refused first, a metrical one is
/// refused where a note names a key above 127, and any other gives the
/// fresh sequence of its tracks.
pub open spec fn built_from(r: Result<Sequence, LoadError>, time_base: TimeBase, tracks: Seq<Seq<RawEvent>>) -> bool {
    match time_base {
        TimeBase::Timecode => r == Err::<Sequence, LoadError>(LoadError::UnsupportedTimeBase),
        TimeBase::Metrical(ticks_per_quarter) => if all_well_formed(tracks) {
            &&& r is Ok
            &&& r->Ok_0.fresh_from(ticks_per_quarter, tracks)
            &&& r->Ok_0.well_formed()
        } else {
            r == Err::<Sequence, LoadError>(LoadError::MalformedContainer)
        },
    }
}

/// A loaded sequence: the resolution, the events in tick order, and for
/// each event whether it has been consumed.
#[derive(Debug)]
pub struct Sequence {
    pub ticks_per_quarter: u16,
    pub events: Vec<TimedEvent>,
    pub consumed: Vec<bool>,
}

impl Sequence {
    /// One flag per event, ticks ascending, every note on a valid key.
    pub open spec fn well_formed(&self) -> bool {
        &&& self.consumed@.len() == self.events@.len()
        &&& ascending(self.events@)
        &&& events_well_formed(self.events@)
    }

    /// The sequence that `tracks` give at resolution `ticks_per_quarter`,
    /// nothing consumed yet.
    pub open spec fn fresh_from(&self, ticks_per_quarter: u16, tracks: Seq<Seq<RawEvent>>) -> bool {
        &&& self.ticks_per_quarter == ticks_per_quarter
        &&& self.events@ == ordered(walked(tracks))
        &&& self.consumed@ == Seq::new(self.events@.len(), |i: int| false)
    }

    /// Builds the sequence of a container.
    ///
    /// A timecode container is refused first; a metrical one is refused
    /// where a note names a key above 127.
    pub fn from_container(container: &Container) -> (r: Result<Sequence, LoadError>)
        ensures
            built_from(r, container.time_base, tracks_view(container.tracks)),
    {
        let ticks_per_quarter = match container.time_base {
            TimeBase::Timecode => {
                return Err(LoadError::UnsupportedTimeBase);
            },
            TimeBase::Metrical(t) => t,
        };
        let ghost tracks = tracks_view(container.tracks);
        let mut flat: Vec<TimedEvent> = Vec::new();
        let mut t: usize = 0;
        while t < container.tracks.len()
            invariant
                t <= container.tracks.len(),
                container.time_base == TimeBase::Metrical(ticks_per_quarter),
                tracks == tracks_view(container.tracks),
                flat@ == walked(tracks.take(t as int)),
                all_well_formed(tracks.take(t as int)),
                events_well_formed(flat@),
            decreases container.tracks.len() - t,
        {
            let track = &container.tracks[t];
            assert(track@ == tracks[t as int]);
            if !append_stamped(track, &mut flat) {
                assert(!track_well_formed(tracks[t as int]));
                return Err(LoadError::MalformedContainer);
            }
            proof {
                assert(tracks.take(t + 1).drop_last() == tracks.take(t as int));
                assert(tracks.take(t + 1).last() == track@);
                assert forall|a: int| 0 <= a < tracks.take(t + 1).len() implies track_well_formed(
                    #[trigger] tracks.take(t + 1)[a],
                ) by {
                    if a < t {
                        assert(tracks.take(t + 1)[a] == tracks.take(t as int)[a]);
                    }
                }
            }
            t += 1;
        }
        assert(tracks.take(t as int) == tracks);
        let events = sort_by_tick(&flat);
        proof {
            lemma_ordered_sorts(flat@);
            lemma_ordered_keeps_keys(flat@);
        }
        let consumed = all_pending(events.len());
        Ok(Sequence { ticks_per_quarter, events, consumed })
    }

    /// Tests `well_formed`.
    pub fn is_well_formed(&self) -> (r: bool)
        ensures
            r == self.well_formed(),
    {
        if self.consumed.len() != self.events.len() {
            return false;
        }
        let mut i: usize = 0;
        while i < self.events.len()
            invariant
                i <= self.events.len(),
                ascending(self.events@.take(i as int)),
                events_well_formed(self.events@.take(i as int)),
            decreases self.events.len() - i,
        {
            if !self.events[i].payload.is_well_formed() {
                return false;
            }
            if i > 0 && self.events[i - 1].tick > self.events[i].tick {
                assert(!(self.events@[i - 1].tick <= self.events@[i as int].tick));
                return false;
            }
            proof {
                let head = self.events@.take(i as int);
                let more = self.events@.take(i + 1);
                assert forall|a: int, b: int| 0 <= a <= b < more.len() implies (#[trigger] more[a]).tick <= (
                #[trigger] more[b]).tick by {
                    if b < i {
                        assert(head[a].tick <= head[b].tick);
                    } else if a < i {
                        assert(head[a].tick <= head[i - 1].tick);
                    }
                }
                assert forall|a: int| 0 <= a < more.len() implies (#[trigger] more[a]).payload.well_formed() by {
                    if a < i {
                        assert(head[a].payload.well_formed());
                    }
                }
            }
            i += 1;
        }
        assert(self.events@.take(i as int) == self.events@);
        true
    }

    /// The number of events.
    pub fn len(&self) -> (r: usize)
        ensures
            r == self.events@.len(),
    {
        self.events.len()
    }
}

/// The running tick count after one more delta is the held sum.
proof fn lemma_elapsed_grows(track: Seq<RawEvent>, n: int)
    requires
        0 <= n < track.len(),
    ensures
        0 <= elapsed(track, n) <= elapsed(track, n + 1),
        elapsed(track, n + 1) == elapsed(track, n) + track[n].delta as int,
    decreases n,
{
    if n > 0 {
        lemma_elapsed_grows(track, n - 1);
    }
}

/// Appends the stamped events of `track` to `flat`, or stops at a note
/// that names no key and says so.
fn append_stamped(track: &Vec<RawEvent>, flat: &mut Vec<TimedEvent>) -> (ok: bool)
    requires
        events_well_formed(old(flat)@),
    ensures
        ok == track_well_formed(track@),
        ok ==> final(flat)@ == old(flat)@ + stamped(track@),
        ok ==> events_well_formed(final(flat)@),
{
    let ghost before = flat@;
    let mut ticks: u64 = 0;
    let mut i: usize = 0;
    while i < track.len()
        invariant
            i <= track.len(),
            ticks == held(elapsed(track@, i as int)),
            flat@ == before + stamped(track@).take(i as int),
            track_well_formed(track@.take(i as int)),
            events_well_formed(flat@),
        decreases track.len() - i,
    {
        let raw = track[i];
        if !raw.payload.is_well_formed() {
            assert(!track@[i as int].payload.well_formed());
            return false;
        }
        proof {
            lemma_elapsed_grows(track@, i as int);
        }
        let step: u64 = raw.delta as u64;
        ticks = if ticks > u64::MAX - step {
            u64::MAX
        } else {
            ticks + step
        };
        let ghost earlier = flat@;
        flat.push(TimedEvent { tick: ticks, payload: raw.payload });
        proof {
            assert(stamped(track@).take(i + 1) == stamped(track@).take(i as int).push(
                stamped(track@)[i as int],
            ));
            assert(flat@ == before + stamped(track@).take(i + 1));
            assert forall|j: int| 0 <= j < track@.take(i + 1).len() implies (#[trigger] track@.take(
                i + 1,
            )[j]).payload.well_formed() by {
                if j < i {
                    assert(track@.take(i as int)[j].payload.well_formed());
                }
            }
            assert forall|j: int| 0 <= j < flat@.len() implies (#[trigger] flat@[j]).payload.well_formed() by {
                if j < earlier.len() {
                    assert(earlier[j].payload.well_formed());
                }
            }
        }
        i += 1;
    }
    assert(stamped(track@).take(i as int) == stamped(track@));
    assert(track@.take(i as int) == track@);
    true
}

/// One pending flag for each of `n` events.
fn all_pending(n: usize) -> (r: Vec<bool>)
    ensures
        r@ == Seq::new(n as nat, |i: int| false),
{
    let mut flags: Vec<bool> = Vec::new();
    let mut k: usize = 0;
    while k < n
        invariant
            k <= n,
            flags@ == Seq::new(k as nat, |i: int| false),
        decreases n - k,
    {
        flags.push(false);
        assert(flags@ == Seq::new((k + 1) as nat, |i: int| false));
        k += 1;
    }
    flags
}

/// Sorts by tick, keeping events of equal tick in their order.
pub fn sort_by_tick(events: &Vec<TimedEvent>) -> (r: Vec<TimedEvent>)
    ensures
        r@ == ordered(events@),
{
    let mut out: Vec<TimedEvent> = Vec::new();
    let mut k: usize = 0;
    while k < events.len()
        invariant
            k <= events.len(),
            out@ == ordered(events@.take(k as int)),
            out@.len() == k,
        decreases events.len() - k,
    {
        let e = events[k];
        let mut i: usize = out.len();
        assert(out@.take(i as int) == out@);
        while i > 0 && out[i - 1].tick > e.tick
            invariant
                i <= out.len(),
                slot(out@, e.tick) == slot(out@.take(i as int), e.tick),
            decreases i,
        {
            assert(out@.take(i as int).drop_last() == out@.take(i - 1));
            i -= 1;
        }
        assert(events@.take(k + 1).drop_last() == events@.take(k as int));
        out.insert(i, e);
        k += 1;
    }
    assert(events@.take(k as int) == events@);
    out
}

/// Every event before the slot of `tick` is not later than it, every event
/// from the slot on is later.
pub proof fn lemma_slot_splits(s: Seq<TimedEvent>, tick: u64)
    requires
        ascending(s),
    ensures
        0 <= slot(s, tick) <= s.len(),
        forall|i: int| 0 <= i < slot(s, tick) ==> (#[trigger] s[i]).tick <= tick,
        forall|i: int| slot(s, tick) <= i < s.len() ==> (#[trigger] s[i]).tick > tick,
    decreases s.len(),
{
    if s.len() == 0 || s.last().tick <= tick {
        assert forall|i: int| 0 <= i < s.len() implies (#[trigger] s[i]).tick <= tick by {
            assert(s[i].tick <= s[s.len() - 1].tick);
        }
    } else {
        let front = s.drop_last();
        assert forall|i: int, j: int| 0 <= i <= j < front.len() implies (#[trigger] front[i]).tick <= (
        #[trigger] front[j]).tick by {
            assert(s[i].tick <= s[j].tick);
        }
        lemma_slot_splits(front, tick);
        assert forall|i: int| 0 <= i < slot(s, tick) implies (#[trigger] s[i]).tick <= tick by {
            assert(front[i].tick <= tick);
        }
        assert forall|i: int| slot(s, tick) <= i < s.len() implies (#[trigger] s[i]).tick > tick by {
            if i < front.len() {
                assert(front[i].tick > tick);
            }
        }
    }
}

/// Putting an event into its slot keeps an ascending sequence ascending.
proof fn lemma_insert_ascends(front: Seq<TimedEvent>, e: TimedEvent)
    requires
        ascending(front),
    ensures
        ascending(front.insert(slot(front, e.tick), e)),
{
    let p = slot(front, e.tick);
    lemma_slot_splits(front, e.tick);
    front.insert_ensures(p, e);
    let r = front.insert(p, e);
    assert forall|i: int, j: int| 0 <= i <= j < r.len() implies (#[trigger] r[i]).tick <= (#[trigger] r[j]).tick by {
        let a = if i < p { i } else { i - 1 };
        let b = if j < p { j } else { j - 1 };
        if i != p {
            assert(r[i] == front[a]);
        }
        if j != p {
            assert(r[j] == front[b]);
        }
        if i != p && j != p {
            assert(front[a].tick <= front[b].tick);
        }
    }
}

/// `ordered` sorts: the result ascends and holds exactly the events of
/// `s`, each as often as `s` does.
pub proof fn lemma_ordered_sorts(s: Seq<TimedEvent>)
    ensures
        ordered(s).len() == s.len(),
        ascending(ordered(s)),
        ordered(s).to_multiset() == s.to_multiset(),
    decreases s.len(),
{
    if s.len() > 0 {
        let front = ordered(s.drop_last());
        let e = s.last();
        lemma_ordered_sorts(s.drop_last());
        lemma_slot_splits(front, e.tick);
        lemma_insert_ascends(front, e);
        front.insert_ensures(slot(front, e.tick), e);
        vstd::seq_lib::to_multiset_insert(front, slot(front, e.tick), e);
        vstd::seq_lib::to_multiset_insert(s.drop_last(), s.len() - 1, e);
        assert(s.drop_last().insert(s.len() - 1, e) == s);
    } else {
        assert(ordered(s) == s);
    }
}

/// `ordered` leaves every event as it is, so valid keys stay valid.
proof fn lemma_ordered_keeps_keys(s: Seq<TimedEvent>)
    requires
        events_well_formed(s),
    ensures
        events_well_formed(ordered(s)),
    decreases s.len(),
{
    if s.len() > 0 {
        let front = ordered(s.drop_last());
        let e = s.last();
        assert forall|i: int| 0 <= i < s.drop_last().len() implies (#[trigger] s.drop_last()[i]).payload.well_formed() by {
            assert(s[i].payload.well_formed());
        }
        lemma_ordered_keeps_keys(s.drop_last());
        lemma_ordered_sorts(s.drop_last());
        lemma_slot_splits(front, e.tick);
        let p = slot(front, e.tick);
        front.insert_ensures(p, e);
        let r = front.insert(p, e);
        assert forall|i: int| 0 <= i < r.len() implies (#[trigger] r[i]).payload.well_formed() by {
            if i < p {
                assert(r[i] == front[i]);
            } else if i > p {
                assert(r[i] == front[i - 1]);
            }
        }
    }
}

} // verus!
