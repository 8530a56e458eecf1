//! What holds of a whole scan, and so of a whole cycle: by
//! `law_one_scan_settles_a_cycle` a cycle of one frame or more over a
//! tick-ordered sequence is one scan of all its events.

use vstd::prelude::*;
use crate::engine::Engine;
use crate::event::{HostEvent, Payload, TimedEvent};
use crate::laws::{continues, fits, law_continuation_chains, law_step_consumes_once};
use crate::scheduler::{dispatched, scanned, stepped, Playback};
use crate::sequence::{ascending, lemma_ordered_sorts, walked, LoadError, Sequence};
use crate::smf::{contents, loaded_from};
use crate::timing::{is_due, sample_offset, tempo_after};

verus! {

/// The scan dispatches event `i`: the event is pending and due when the
/// scan reaches it.
pub open spec fn fires(
    p: Playback,
    events: Seq<TimedEvent>,
    ticks_per_quarter: u16,
    pos_micros: u64,
    sample_rate: u32,
    i: int,
) -> bool {
    let q = scanned(p, events, ticks_per_quarter, pos_micros, sample_rate, i);
    !q.consumed[i] && is_due(pos_micros, events[i].tick, ticks_per_quarter, q.tempo)
}

/// What the dispatch of `e` in state `p` hands to the host: a note on for
/// a silent key, every note off and every pitch bend, with the channel,
/// the key and the value of `e`; nothing else.
pub open spec fn emission(p: Playback, e: TimedEvent, offset: u32) -> Option<HostEvent> {
    match e.payload {
        Payload::NoteOn { channel, key, velocity } => if p.active[key as int] {
            None
        } else {
            Some(HostEvent::NoteOn { timing: offset, channel, note: key, velocity })
        },
        Payload::NoteOff { channel, key, velocity } => Some(
            HostEvent::NoteOff { timing: offset, channel, note: key, velocity },
        ),
        Payload::PitchBend { channel, value } => Some(HostEvent::PitchBend { timing: offset, channel, value }),
        _ => None,
    }
}

/// The sample offset at which the scan times event `i`: by the position
/// and by the tempo at which the scan reaches the event.
pub open spec fn timing_at(
    p: Playback,
    events: Seq<TimedEvent>,
    ticks_per_quarter: u16,
    pos_micros: u64,
    sample_rate: u32,
    i: int,
) -> u32 {
    sample_offset(
        pos_micros,
        events[i].tick,
        ticks_per_quarter,
        scanned(p, events, ticks_per_quarter, pos_micros, sample_rate, i).tempo,
        sample_rate,
    )
}

/// The indices, in order, of the events among the first `n` whose
/// dispatch hands something to the host.
pub open spec fn origins(
    p: Playback,
    events: Seq<TimedEvent>,
    ticks_per_quarter: u16,
    pos_micros: u64,
    sample_rate: u32,
    n: int,
) -> Seq<int>
    decreases n,
{
    if n <= 0 {
        Seq::empty()
    } else {
        let earlier = origins(p, events, ticks_per_quarter, pos_micros, sample_rate, n - 1);
        let q = scanned(p, events, ticks_per_quarter, pos_micros, sample_rate, n - 1);
        if fires(p, events, ticks_per_quarter, pos_micros, sample_rate, n - 1) && emission(
            q,
            events[n - 1],
            0,
        ) is Some {
            earlier.push(n - 1)
        } else {
            earlier
        }
    }
}

/// A scan of the first `m` events leaves the flags from `m` on as they
/// were, and the state it reaches still fits the sequence.
pub proof fn law_scan_leaves_later_flags(
    p: Playback,
    events: Seq<TimedEvent>,
    ticks_per_quarter: u16,
    pos_micros: u64,
    sample_rate: u32,
    m: int,
)
    requires
        fits(p, events),
        m <= events.len(),
    ensures
        fits(scanned(p, events, ticks_per_quarter, pos_micros, sample_rate, m), events),
        forall|j: int|
            m <= j < events.len() && 0 <= j ==> scanned(
                p,
                events,
                ticks_per_quarter,
                pos_micros,
                sample_rate,
                m,
            ).consumed[j] == p.consumed[j],
    decreases m,
{
    if m > 0 {
        let q = scanned(p, events, ticks_per_quarter, pos_micros, sample_rate, m - 1);
        law_scan_leaves_later_flags(p, events, ticks_per_quarter, pos_micros, sample_rate, m - 1);
        law_step_consumes_once(q, events[m - 1], m - 1, ticks_per_quarter, pos_micros, sample_rate);
    }
}

/// The scan only goes on: the state after `n` events continues the state
/// after `m` of them.
pub proof fn law_scan_goes_on(
    p: Playback,
    events: Seq<TimedEvent>,
    ticks_per_quarter: u16,
    pos_micros: u64,
    sample_rate: u32,
    m: int,
    n: int,
)
    requires
        fits(p, events),
        0 <= m <= n <= events.len(),
    ensures
        continues(
            scanned(p, events, ticks_per_quarter, pos_micros, sample_rate, m),
            scanned(p, events, ticks_per_quarter, pos_micros, sample_rate, n),
        ),
    decreases n,
{
    let a = scanned(p, events, ticks_per_quarter, pos_micros, sample_rate, m);
    law_scan_leaves_later_flags(p, events, ticks_per_quarter, pos_micros, sample_rate, m);
    if n == m {
        assert(a.emitted.take(a.emitted.len() as int) =~= a.emitted);
    } else {
        let q = scanned(p, events, ticks_per_quarter, pos_micros, sample_rate, n - 1);
        law_scan_goes_on(p, events, ticks_per_quarter, pos_micros, sample_rate, m, n - 1);
        law_scan_leaves_later_flags(p, events, ticks_per_quarter, pos_micros, sample_rate, n - 1);
        law_step_consumes_once(q, events[n - 1], n - 1, ticks_per_quarter, pos_micros, sample_rate);
        law_continuation_chains(
            a,
            q,
            stepped(q, events[n - 1], n - 1, ticks_per_quarter, pos_micros, sample_rate),
        );
    }
}

proof fn lemma_dispatch_emits(p: Playback, e: TimedEvent, i: int, offset: u32)
    ensures
        dispatched(p, e, i, offset).emitted == match emission(p, e, offset) {
            Some(h) => p.emitted.push(h),
            None => p.emitted,
        },
        emission(p, e, offset) is Some <==> emission(p, e, 0) is Some,
{
}

/// Every host event of a scan has an event of its own that it comes
/// from: the events emitted since the start are, in order, the emissions
/// of the events at `origins`, each timed by the position and the tempo
/// of its moment; the origins ascend, so no two host events share one;
/// each origin was pending before the scan and is consumed after it; and
/// every event that fires with something to emit is among them.
pub proof fn law_every_emitted_event_has_its_own_origin(
    p: Playback,
    events: Seq<TimedEvent>,
    ticks_per_quarter: u16,
    pos_micros: u64,
    sample_rate: u32,
    n: int,
)
    requires
        fits(p, events),
        0 <= n <= events.len(),
    ensures
        ({
            let end = scanned(p, events, ticks_per_quarter, pos_micros, sample_rate, n);
            let o = origins(p, events, ticks_per_quarter, pos_micros, sample_rate, n);
            &&& end.emitted.len() == p.emitted.len() + o.len()
            &&& forall|k: int|
                0 <= k < o.len() ==> {
                    &&& 0 <= #[trigger] o[k] < n
                    &&& !p.consumed[o[k]]
                    &&& end.consumed[o[k]]
                    &&& fires(p, events, ticks_per_quarter, pos_micros, sample_rate, o[k])
                    &&& emission(
                        scanned(p, events, ticks_per_quarter, pos_micros, sample_rate, o[k]),
                        events[o[k]],
                        timing_at(p, events, ticks_per_quarter, pos_micros, sample_rate, o[k]),
                    ) == Some(end.emitted[p.emitted.len() + k])
                }
            &&& forall|k: int, l: int| 0 <= k < l < o.len() ==> #[trigger] o[k] < #[trigger] o[l]
            &&& forall|i: int|
                0 <= i < n && #[trigger] fires(p, events, ticks_per_quarter, pos_micros, sample_rate, i)
                    && emission(
                    scanned(p, events, ticks_per_quarter, pos_micros, sample_rate, i),
                    events[i],
                    0,
                ) is Some ==> o.contains(i)
        }),
    decreases n,
{
    if n > 0 {
        let q = scanned(p, events, ticks_per_quarter, pos_micros, sample_rate, n - 1);
        let e = events[n - 1];
        let end = scanned(p, events, ticks_per_quarter, pos_micros, sample_rate, n);
        let earlier = origins(p, events, ticks_per_quarter, pos_micros, sample_rate, n - 1);
        let o = origins(p, events, ticks_per_quarter, pos_micros, sample_rate, n);
        let offset = timing_at(p, events, ticks_per_quarter, pos_micros, sample_rate, n - 1);
        let base = p.emitted.len() as int;
        law_every_emitted_event_has_its_own_origin(
            p,
            events,
            ticks_per_quarter,
            pos_micros,
            sample_rate,
            n - 1,
        );
        law_scan_leaves_later_flags(p, events, ticks_per_quarter, pos_micros, sample_rate, n - 1);
        law_step_consumes_once(q, e, n - 1, ticks_per_quarter, pos_micros, sample_rate);
        lemma_dispatch_emits(q, e, n - 1, offset);
        assert(end == stepped(q, e, n - 1, ticks_per_quarter, pos_micros, sample_rate));
        assert(continues(q, end));
        assert forall|k: int| 0 <= k < earlier.len() implies end.emitted[base + k] == q.emitted[base + k]
            && o[k] == earlier[k] by {
            assert(end.emitted.take(q.emitted.len() as int)[base + k] == end.emitted[base + k]);
        }
        assert forall|i: int|
            0 <= i < n && #[trigger] fires(p, events, ticks_per_quarter, pos_micros, sample_rate, i)
                && emission(
                scanned(p, events, ticks_per_quarter, pos_micros, sample_rate, i),
                events[i],
                0,
            ) is Some implies o.contains(i) by {
            if i < n - 1 {
                assert(earlier.contains(i));
                let k = choose|k: int| 0 <= k < earlier.len() && earlier[k] == i;
                assert(o[k] == i);
            } else {
                assert(o[o.len() - 1] == i);
            }
        }
    }
}

/// A due note on for a silent key is handed to the host with the offset
/// `floor((position - due time) * sample_rate)` at the tempo of its
/// moment, wherever in the sequence it stands, and its key then sounds.
pub proof fn law_due_note_on_is_timed(
    p: Playback,
    events: Seq<TimedEvent>,
    ticks_per_quarter: u16,
    pos_micros: u64,
    sample_rate: u32,
    i: int,
    n: int,
)
    requires
        fits(p, events),
        0 <= i < n <= events.len(),
        fires(p, events, ticks_per_quarter, pos_micros, sample_rate, i),
        events[i].payload is NoteOn,
        !scanned(p, events, ticks_per_quarter, pos_micros, sample_rate, i).active[events[i].payload->NoteOn_key as int],
    ensures
        ({
            let q = scanned(p, events, ticks_per_quarter, pos_micros, sample_rate, i);
            let end = scanned(p, events, ticks_per_quarter, pos_micros, sample_rate, n);
            &&& q.emitted.len() < end.emitted.len()
            &&& end.emitted[q.emitted.len() as int] == HostEvent::NoteOn {
                timing: timing_at(p, events, ticks_per_quarter, pos_micros, sample_rate, i),
                channel: events[i].payload->NoteOn_channel,
                note: events[i].payload->NoteOn_key,
                velocity: events[i].payload->NoteOn_velocity,
            }
            &&& scanned(p, events, ticks_per_quarter, pos_micros, sample_rate, i + 1).active[events[i].payload->NoteOn_key as int]
        }),
{
    let q = scanned(p, events, ticks_per_quarter, pos_micros, sample_rate, i);
    let next = scanned(p, events, ticks_per_quarter, pos_micros, sample_rate, i + 1);
    let end = scanned(p, events, ticks_per_quarter, pos_micros, sample_rate, n);
    law_scan_leaves_later_flags(p, events, ticks_per_quarter, pos_micros, sample_rate, i);
    law_scan_goes_on(p, events, ticks_per_quarter, pos_micros, sample_rate, i + 1, n);
    assert(next == stepped(q, events[i], i, ticks_per_quarter, pos_micros, sample_rate));
    assert(end.emitted.take(next.emitted.len() as int)[q.emitted.len() as int] == end.emitted[q.emitted.len() as int]);
}

/// Every due note off is handed to the host, whether its key sounded or
/// not, with its channel, key and velocity and the offset of its moment.
pub proof fn law_due_note_off_is_emitted(
    p: Playback,
    events: Seq<TimedEvent>,
    ticks_per_quarter: u16,
    pos_micros: u64,
    sample_rate: u32,
    i: int,
    n: int,
)
    requires
        fits(p, events),
        0 <= i < n <= events.len(),
        fires(p, events, ticks_per_quarter, pos_micros, sample_rate, i),
        events[i].payload is NoteOff,
    ensures
        ({
            let q = scanned(p, events, ticks_per_quarter, pos_micros, sample_rate, i);
            let end = scanned(p, events, ticks_per_quarter, pos_micros, sample_rate, n);
            &&& q.emitted.len() < end.emitted.len()
            &&& end.emitted[q.emitted.len() as int] == HostEvent::NoteOff {
                timing: timing_at(p, events, ticks_per_quarter, pos_micros, sample_rate, i),
                channel: events[i].payload->NoteOff_channel,
                note: events[i].payload->NoteOff_key,
                velocity: events[i].payload->NoteOff_velocity,
            }
        }),
{
    let q = scanned(p, events, ticks_per_quarter, pos_micros, sample_rate, i);
    let next = scanned(p, events, ticks_per_quarter, pos_micros, sample_rate, i + 1);
    let end = scanned(p, events, ticks_per_quarter, pos_micros, sample_rate, n);
    law_scan_goes_on(p, events, ticks_per_quarter, pos_micros, sample_rate, i + 1, n);
    assert(next == stepped(q, events[i], i, ticks_per_quarter, pos_micros, sample_rate));
    assert(end.emitted.take(next.emitted.len() as int)[q.emitted.len() as int] == end.emitted[q.emitted.len() as int]);
}

/// A key whose last dispatched note event is a note off is silent: after
/// a note off for `key` fires at `i`, the key stays silent as long as no
/// note on for it fires.
pub proof fn law_key_is_silent_after_its_last_note_off(
    p: Playback,
    events: Seq<TimedEvent>,
    ticks_per_quarter: u16,
    pos_micros: u64,
    sample_rate: u32,
    i: int,
    n: int,
)
    requires
        fits(p, events),
        0 <= i < n <= events.len(),
        fires(p, events, ticks_per_quarter, pos_micros, sample_rate, i),
        events[i].payload is NoteOff,
        forall|j: int|
            i < j < n && #[trigger] fires(p, events, ticks_per_quarter, pos_micros, sample_rate, j)
                && events[j].payload is NoteOn ==> events[j].payload->NoteOn_key
                != events[i].payload->NoteOff_key,
    ensures
        !scanned(p, events, ticks_per_quarter, pos_micros, sample_rate, n).active[events[i].payload->NoteOff_key as int],
    decreases n,
{
    let key = events[i].payload->NoteOff_key as int;
    assert(events[i].payload.well_formed());
    if n == i + 1 {
        let q = scanned(p, events, ticks_per_quarter, pos_micros, sample_rate, i);
        law_scan_leaves_later_flags(p, events, ticks_per_quarter, pos_micros, sample_rate, i);
        assert(scanned(p, events, ticks_per_quarter, pos_micros, sample_rate, n) == stepped(
            q,
            events[i],
            i,
            ticks_per_quarter,
            pos_micros,
            sample_rate,
        ));
    } else {
        let q = scanned(p, events, ticks_per_quarter, pos_micros, sample_rate, n - 1);
        law_key_is_silent_after_its_last_note_off(
            p,
            events,
            ticks_per_quarter,
            pos_micros,
            sample_rate,
            i,
            n - 1,
        );
        law_scan_leaves_later_flags(p, events, ticks_per_quarter, pos_micros, sample_rate, n - 1);
        assert(events[n - 1].payload.well_formed());
        if fires(p, events, ticks_per_quarter, pos_micros, sample_rate, n - 1) && events[n - 1].payload is NoteOn {
            assert(events[n - 1].payload->NoteOn_key != events[i].payload->NoteOff_key);
        }
    }
}

/// Between two dispatched tempo changes the tempo holds: a scan from `m`
/// to `n` in which no tempo change fires ends at the tempo it began with.
pub proof fn law_tempo_holds_between_changes(
    p: Playback,
    events: Seq<TimedEvent>,
    ticks_per_quarter: u16,
    pos_micros: u64,
    sample_rate: u32,
    m: int,
    n: int,
)
    requires
        0 <= m <= n <= events.len(),
        forall|j: int|
            m <= j < n && #[trigger] fires(p, events, ticks_per_quarter, pos_micros, sample_rate, j)
                ==> !(events[j].payload is TempoChange),
    ensures
        scanned(p, events, ticks_per_quarter, pos_micros, sample_rate, n).tempo == scanned(
            p,
            events,
            ticks_per_quarter,
            pos_micros,
            sample_rate,
            m,
        ).tempo,
    decreases n,
{
    if n > m {
        law_tempo_holds_between_changes(p, events, ticks_per_quarter, pos_micros, sample_rate, m, n - 1);
        if fires(p, events, ticks_per_quarter, pos_micros, sample_rate, n - 1) {
            assert(!(events[n - 1].payload is TempoChange));
        }
    }
}

/// The last tempo change that a scan dispatches decides the tempo it
/// ends with; a tempo change hands nothing to the host and touches no key.
pub proof fn law_last_tempo_change_decides(
    p: Playback,
    events: Seq<TimedEvent>,
    ticks_per_quarter: u16,
    pos_micros: u64,
    sample_rate: u32,
    i: int,
    n: int,
)
    requires
        0 <= i < n <= events.len(),
        fires(p, events, ticks_per_quarter, pos_micros, sample_rate, i),
        events[i].payload is TempoChange,
        forall|j: int|
            i < j < n && #[trigger] fires(p, events, ticks_per_quarter, pos_micros, sample_rate, j)
                ==> !(events[j].payload is TempoChange),
    ensures
        ({
            let q = scanned(p, events, ticks_per_quarter, pos_micros, sample_rate, i);
            let next = scanned(p, events, ticks_per_quarter, pos_micros, sample_rate, i + 1);
            &&& scanned(p, events, ticks_per_quarter, pos_micros, sample_rate, n).tempo == tempo_after(
                q.tempo,
                events[i].payload->TempoChange_micros_per_quarter,
            )
            &&& next.emitted == q.emitted
            &&& next.active == q.active
        }),
{
    let q = scanned(p, events, ticks_per_quarter, pos_micros, sample_rate, i);
    assert(scanned(p, events, ticks_per_quarter, pos_micros, sample_rate, i + 1) == stepped(
        q,
        events[i],
        i,
        ticks_per_quarter,
        pos_micros,
        sample_rate,
    ));
    law_tempo_holds_between_changes(p, events, ticks_per_quarter, pos_micros, sample_rate, i + 1, n);
}

/// Every metrical file that parses loads, to a sequence at the file's
/// resolution with every event pending.
pub proof fn law_metrical_file_loads(r: Result<Sequence, LoadError>, bytes: Seq<u8>)
    requires
        loaded_from(r, bytes),
        contents(bytes) is Some,
        contents(bytes)->Some_0.0 is Metrical,
    ensures
        r is Ok,
        r->Ok_0.ticks_per_quarter == contents(bytes)->Some_0.0->Metrical_0,
        r->Ok_0.fresh_from(contents(bytes)->Some_0.0->Metrical_0, contents(bytes)->Some_0.1),
        r->Ok_0.consumed@.len() == r->Ok_0.events@.len(),
        forall|i: int| 0 <= i < r->Ok_0.consumed@.len() ==> !r->Ok_0.consumed@[i],
{
}

/// Loading succeeds exactly where the bytes parse and the file is
/// metrical.
pub proof fn law_load_succeeds_on_metrical_files_only(r: Result<Sequence, LoadError>, bytes: Seq<u8>)
    requires
        loaded_from(r, bytes),
    ensures
        r is Ok <==> contents(bytes) is Some && contents(bytes)->Some_0.0 is Metrical,
{
}

/// Two engines that have loaded the same bytes are alike, whatever each
/// held before: the same resolution, the same events, all pending, the
/// tempo 120 and no key sounding.
pub proof fn law_reload_forgets_the_past(a: Engine, b: Engine, bytes: Seq<u8>)
    requires
        a.fresh_from_bytes(bytes),
        b.fresh_from_bytes(bytes),
    ensures
        ({
            let x = a.scheduler->Some_0;
            let y = b.scheduler->Some_0;
            &&& x.sequence.ticks_per_quarter == y.sequence.ticks_per_quarter
            &&& x.sequence.events@ == y.sequence.events@
            &&& x.sequence.consumed@ == y.sequence.consumed@
            &&& forall|i: int| 0 <= i < x.sequence.consumed@.len() ==> !x.sequence.consumed@[i]
            &&& x.tempo == 120 && y.tempo == 120
            &&& x.note_active@ == y.note_active@
            &&& forall|k: int| 0 <= k < 128 ==> !x.note_active@[k]
        }),
{
}

/// Loading into an engine succeeds exactly where the bytes parse and the
/// file is metrical, whatever the engine held; it then holds the fresh
/// sequence of the bytes, and otherwise is as it was.
pub proof fn law_engine_loads_metrical_files_only(
    before: Engine,
    after: Engine,
    r: Result<(), LoadError>,
    bytes: Seq<u8>,
)
    requires
        before.loads_to(&after, r, bytes),
    ensures
        r is Ok <==> contents(bytes) is Some && contents(bytes)->Some_0.0 is Metrical,
        r is Ok ==> after.fresh_from_bytes(bytes),
        r is Err ==> after == before,
{
}

/// Loading the same metrical bytes into two engines, whatever each held,
/// succeeds on both and leaves them alike: a reload is a first load.
pub proof fn law_reload_is_a_first_load(
    first: Engine,
    first_after: Engine,
    first_result: Result<(), LoadError>,
    second: Engine,
    second_after: Engine,
    second_result: Result<(), LoadError>,
    bytes: Seq<u8>,
)
    requires
        first.loads_to(&first_after, first_result, bytes),
        second.loads_to(&second_after, second_result, bytes),
        contents(bytes) is Some,
        contents(bytes)->Some_0.0 is Metrical,
    ensures
        first_result is Ok,
        second_result is Ok,
        first_after.fresh_from_bytes(bytes),
        second_after.fresh_from_bytes(bytes),
        first_after.scheduler->Some_0.sequence.events@ == second_after.scheduler->Some_0.sequence.events@,
        first_after.scheduler->Some_0.sequence.consumed@ == second_after.scheduler->Some_0.sequence.consumed@,
        first_after.scheduler->Some_0.sequence.ticks_per_quarter
            == second_after.scheduler->Some_0.sequence.ticks_per_quarter,
        first_after.scheduler->Some_0.tempo == second_after.scheduler->Some_0.tempo,
        first_after.scheduler->Some_0.note_active@ == second_after.scheduler->Some_0.note_active@,
{
}

/// A metrical file that parses loads to its track events in tick order:
/// the loaded events ascend, are as many as the walk of the tracks
/// gives, and hold each of them as often as the walk does, none dropped
/// and none added.
pub proof fn law_loaded_events_are_the_sorted_walk(r: Result<Sequence, LoadError>, bytes: Seq<u8>)
    requires
        loaded_from(r, bytes),
        contents(bytes) is Some,
        contents(bytes)->Some_0.0 is Metrical,
    ensures
        r is Ok,
        ascending(r->Ok_0.events@),
        r->Ok_0.events@.len() == walked(contents(bytes)->Some_0.1).len(),
        r->Ok_0.events@.to_multiset() == walked(contents(bytes)->Some_0.1).to_multiset(),
{
    lemma_ordered_sorts(walked(contents(bytes)->Some_0.1));
}

} // verus!
