//! What holds of every sequence, every state of play and every cycle.

use vstd::prelude::*;
use crate::event::{HostEvent, RawEvent, TimedEvent};
use crate::scheduler::{cycled, dispatched, scanned, stepped, Playback};
use crate::sequence::{
    ascending, built_from, events_well_formed, lemma_ordered_sorts, lemma_slot_splits, ordered, slot,
    LoadError, Sequence, TimeBase,
};
use crate::timing::{is_due, sample_offset, tempo_after};

verus! {

/// The number of events that are still pending.
pub open spec fn pending(consumed: Seq<bool>) -> int
    decreases consumed.len(),
{
    if consumed.len() == 0 {
        0
    } else {
        pending(consumed.drop_last()) + if consumed.last() {
            0int
        } else {
            1int
        }
    }
}

/// `later` continues `earlier`: what was consumed stays consumed, what was
/// emitted stays emitted in its place, and every event emitted since has
/// used up a pending event of its own.
pub open spec fn continues(earlier: Playback, later: Playback) -> bool {
    &&& later.consumed.len() == earlier.consumed.len()
    &&& later.active.len() == earlier.active.len()
    &&& forall|i: int| 0 <= i < earlier.consumed.len() && earlier.consumed[i] ==> later.consumed[i]
    &&& earlier.emitted.len() <= later.emitted.len()
    &&& later.emitted.take(earlier.emitted.len() as int) == earlier.emitted
    &&& later.emitted.len() + pending(later.consumed) <= earlier.emitted.len() + pending(earlier.consumed)
}

/// A state of play that fits a sequence: one flag per event, one entry
/// per key, every note on a valid key.
pub open spec fn fits(p: Playback, events: Seq<TimedEvent>) -> bool {
    &&& p.consumed.len() == events.len()
    &&& p.active.len() == 128
    &&& events_well_formed(events)
}

proof fn lemma_consuming_one(consumed: Seq<bool>, i: int)
    requires
        0 <= i < consumed.len(),
        !consumed[i],
    ensures
        pending(consumed.update(i, true)) == pending(consumed) - 1,
    decreases consumed.len(),
{
    let after = consumed.update(i, true);
    if i == consumed.len() - 1 {
        assert(after.drop_last() == consumed.drop_last());
    } else {
        assert(after.drop_last() == consumed.drop_last().update(i, true));
        lemma_consuming_one(consumed.drop_last(), i);
    }
}

/// Continuation chains: over any run of steps, scans or cycles an event
/// that was consumed stays consumed and is not emitted again.
pub proof fn law_continuation_chains(a: Playback, b: Playback, c: Playback)
    requires
        continues(a, b),
        continues(b, c),
    ensures
        continues(a, c),
{
    assert(c.emitted.take(a.emitted.len() as int) =~= b.emitted.take(a.emitted.len() as int));
}

/// A consumed event is never looked at again: the step over it changes
/// nothing.
pub proof fn law_consumed_event_is_skipped(
    p: Playback,
    e: TimedEvent,
    i: int,
    ticks_per_quarter: u16,
    pos_micros: u64,
    sample_rate: u32,
)
    requires
        p.consumed[i],
    ensures
        stepped(p, e, i, ticks_per_quarter, pos_micros, sample_rate) == p,
{
}

/// One step consumes at most the event it looks at, never unconsumes one,
/// and emits at most one host event, and that only while consuming.
pub proof fn law_step_consumes_once(
    p: Playback,
    e: TimedEvent,
    i: int,
    ticks_per_quarter: u16,
    pos_micros: u64,
    sample_rate: u32,
)
    requires
        0 <= i < p.consumed.len(),
        p.active.len() == 128,
        e.payload.well_formed(),
    ensures
        continues(p, stepped(p, e, i, ticks_per_quarter, pos_micros, sample_rate)),
        forall|j: int|
            0 <= j < p.consumed.len() && j != i ==> stepped(
                p,
                e,
                i,
                ticks_per_quarter,
                pos_micros,
                sample_rate,
            ).consumed[j] == p.consumed[j],
{
    let q = stepped(p, e, i, ticks_per_quarter, pos_micros, sample_rate);
    if q != p {
        lemma_consuming_one(p.consumed, i);
        assert(q.emitted.take(p.emitted.len() as int) =~= p.emitted);
    } else {
        assert(q.emitted.take(p.emitted.len() as int) =~= p.emitted);
    }
}

/// Within one scan no event is consumed twice and none is emitted more
/// than once: the state after the scan continues the state before it.
pub proof fn law_scan_consumes_once(
    p: Playback,
    events: Seq<TimedEvent>,
    ticks_per_quarter: u16,
    pos_micros: u64,
    sample_rate: u32,
    n: int,
)
    requires
        fits(p, events),
        n <= events.len(),
    ensures
        continues(p, scanned(p, events, ticks_per_quarter, pos_micros, sample_rate, n)),
    decreases n,
{
    if n <= 0 {
        assert(p.emitted.take(p.emitted.len() as int) =~= p.emitted);
    } else {
        let q = scanned(p, events, ticks_per_quarter, pos_micros, sample_rate, n - 1);
        law_scan_consumes_once(p, events, ticks_per_quarter, pos_micros, sample_rate, n - 1);
        law_step_consumes_once(q, events[n - 1], n - 1, ticks_per_quarter, pos_micros, sample_rate);
        law_continuation_chains(
            p,
            q,
            stepped(q, events[n - 1], n - 1, ticks_per_quarter, pos_micros, sample_rate),
        );
    }
}

/// Over a whole cycle, and so over any run of cycles, every event is
/// consumed at most once and emitted at most once.
pub proof fn law_cycle_consumes_once(
    p: Playback,
    events: Seq<TimedEvent>,
    ticks_per_quarter: u16,
    pos_micros: u64,
    sample_rate: u32,
    frames: int,
)
    requires
        fits(p, events),
    ensures
        continues(p, cycled(p, events, ticks_per_quarter, pos_micros, sample_rate, frames)),
    decreases frames,
{
    if frames <= 0 {
        assert(p.emitted.take(p.emitted.len() as int) =~= p.emitted);
    } else {
        let q = cycled(p, events, ticks_per_quarter, pos_micros, sample_rate, frames - 1);
        law_cycle_consumes_once(p, events, ticks_per_quarter, pos_micros, sample_rate, frames - 1);
        law_scan_consumes_once(q, events, ticks_per_quarter, pos_micros, sample_rate, events.len() as int);
        law_continuation_chains(
            p,
            q,
            scanned(q, events, ticks_per_quarter, pos_micros, sample_rate, events.len() as int),
        );
    }
}

/// A note on for a key that already sounds is consumed, emits nothing and
/// leaves the key sounding.
pub proof fn law_sounding_key_suppresses_note_on(p: Playback, e: TimedEvent, i: int, offset: u32)
    requires
        e.payload is NoteOn,
        p.active[e.payload->NoteOn_key as int],
    ensures
        dispatched(p, e, i, offset).emitted == p.emitted,
        dispatched(p, e, i, offset).active == p.active,
        dispatched(p, e, i, offset).tempo == p.tempo,
        dispatched(p, e, i, offset).consumed == p.consumed.update(i, true),
{
}

/// A note off is emitted and leaves its key silent, whether the key
/// sounded or not.
pub proof fn law_note_off_always_sounds(p: Playback, e: TimedEvent, i: int, offset: u32)
    requires
        e.payload is NoteOff,
        e.payload.well_formed(),
        p.active.len() == 128,
    ensures
        dispatched(p, e, i, offset).emitted == p.emitted.push(
            HostEvent::NoteOff {
                timing: offset,
                channel: e.payload->NoteOff_channel,
                note: e.payload->NoteOff_key,
                velocity: e.payload->NoteOff_velocity,
            },
        ),
        !dispatched(p, e, i, offset).active[e.payload->NoteOff_key as int],
        dispatched(p, e, i, offset).consumed == p.consumed.update(i, true),
{
}

/// A tempo change that is dispatched sets the tempo by which the next
/// event of the scan is judged and timed, and emits nothing itself.
pub proof fn law_tempo_change_governs_next_event(
    p: Playback,
    events: Seq<TimedEvent>,
    ticks_per_quarter: u16,
    pos_micros: u64,
    sample_rate: u32,
    n: int,
)
    requires
        0 <= n,
        n + 1 < events.len(),
        events[n].payload is TempoChange,
        !scanned(p, events, ticks_per_quarter, pos_micros, sample_rate, n).consumed[n],
        is_due(
            pos_micros,
            events[n].tick,
            ticks_per_quarter,
            scanned(p, events, ticks_per_quarter, pos_micros, sample_rate, n).tempo,
        ),
    ensures
        ({
            let before = scanned(p, events, ticks_per_quarter, pos_micros, sample_rate, n);
            let changed = scanned(p, events, ticks_per_quarter, pos_micros, sample_rate, n + 1);
            let after = scanned(p, events, ticks_per_quarter, pos_micros, sample_rate, n + 2);
            let tempo = tempo_after(before.tempo, events[n].payload->TempoChange_micros_per_quarter);
            let next = events[n + 1];
            &&& changed.tempo == tempo
            &&& changed.emitted == before.emitted
            &&& after == if changed.consumed[n + 1] || !is_due(pos_micros, next.tick, ticks_per_quarter, tempo) {
                changed
            } else {
                dispatched(
                    changed,
                    next,
                    n + 1,
                    sample_offset(pos_micros, next.tick, ticks_per_quarter, tempo, sample_rate),
                )
            }
        }),
{
    let changed = scanned(p, events, ticks_per_quarter, pos_micros, sample_rate, n + 1);
    assert(scanned(p, events, ticks_per_quarter, pos_micros, sample_rate, n + 2) == stepped(
        changed,
        events[n + 1],
        n + 1,
        ticks_per_quarter,
        pos_micros,
        sample_rate,
    ));
}

/// Loading the same container twice gives the same outcome: the same
/// error, or sequences with the same resolution, the same events and
/// nothing consumed.
pub proof fn law_load_is_repeatable(
    a: Result<Sequence, LoadError>,
    b: Result<Sequence, LoadError>,
    time_base: TimeBase,
    tracks: Seq<Seq<RawEvent>>,
)
    requires
        built_from(a, time_base, tracks),
        built_from(b, time_base, tracks),
    ensures
        a is Ok <==> b is Ok,
        a is Err ==> a == b,
        a is Ok ==> {
            &&& a->Ok_0.ticks_per_quarter == b->Ok_0.ticks_per_quarter
            &&& a->Ok_0.events@ == b->Ok_0.events@
            &&& a->Ok_0.consumed@ == b->Ok_0.consumed@
            &&& forall|i: int| 0 <= i < a->Ok_0.consumed@.len() ==> !a->Ok_0.consumed@[i]
        },
{
}

/// A container that counts time in timecode is refused as unsupported,
/// whatever its tracks hold.
pub proof fn law_timecode_is_refused(r: Result<Sequence, LoadError>, tracks: Seq<Seq<RawEvent>>)
    requires
        built_from(r, TimeBase::Timecode, tracks),
    ensures
        r == Err::<Sequence, LoadError>(LoadError::UnsupportedTimeBase),
{
}

/// Every pending event among the first `n` holds back itself and all
/// events behind it: none of them is due at the tempo of `q`.
spec fn held_back(
    q: Playback,
    events: Seq<TimedEvent>,
    ticks_per_quarter: u16,
    pos_micros: u64,
    n: int,
) -> bool {
    forall|i: int, j: int|
        0 <= i < n && i <= j < events.len() && !#[trigger] q.consumed[i] ==> !is_due(
            pos_micros,
            (#[trigger] events[j]).tick,
            ticks_per_quarter,
            q.tempo,
        )
}

proof fn lemma_scan_holds_back(
    p: Playback,
    events: Seq<TimedEvent>,
    ticks_per_quarter: u16,
    pos_micros: u64,
    sample_rate: u32,
    n: int,
)
    requires
        ascending(events),
        p.consumed.len() == events.len(),
        0 <= n <= events.len(),
    ensures
        scanned(p, events, ticks_per_quarter, pos_micros, sample_rate, n).consumed.len() == events.len(),
        held_back(
            scanned(p, events, ticks_per_quarter, pos_micros, sample_rate, n),
            events,
            ticks_per_quarter,
            pos_micros,
            n,
        ),
    decreases n,
{
    if n > 0 {
        let q = scanned(p, events, ticks_per_quarter, pos_micros, sample_rate, n - 1);
        let e = events[n - 1];
        let r = stepped(q, e, n - 1, ticks_per_quarter, pos_micros, sample_rate);
        lemma_scan_holds_back(p, events, ticks_per_quarter, pos_micros, sample_rate, n - 1);
        if q.consumed[n - 1] || !is_due(pos_micros, e.tick, ticks_per_quarter, q.tempo) {
            assert forall|i: int, j: int|
                0 <= i < n && i <= j < events.len() && !#[trigger] r.consumed[i] implies !is_due(
                pos_micros,
                (#[trigger] events[j]).tick,
                ticks_per_quarter,
                r.tempo,
            ) by {
                if i == n - 1 {
                    assert(events[n - 1].tick <= events[j].tick);
                }
            }
        } else {
            assert forall|i: int| 0 <= i < n implies r.consumed[i] by {
                if i < n - 1 && !q.consumed[i] {
                    assert(!is_due(pos_micros, events[n - 1].tick, ticks_per_quarter, q.tempo));
                }
            }
        }
    }
}

proof fn lemma_idle_scan(
    q: Playback,
    events: Seq<TimedEvent>,
    ticks_per_quarter: u16,
    pos_micros: u64,
    sample_rate: u32,
    n: int,
)
    requires
        n <= events.len(),
        forall|i: int|
            0 <= i < n ==> #[trigger] q.consumed[i] || !is_due(
                pos_micros,
                events[i].tick,
                ticks_per_quarter,
                q.tempo,
            ),
    ensures
        scanned(q, events, ticks_per_quarter, pos_micros, sample_rate, n) == q,
    decreases n,
{
    if n > 0 {
        lemma_idle_scan(q, events, ticks_per_quarter, pos_micros, sample_rate, n - 1);
        assert(q.consumed[n - 1] || !is_due(pos_micros, events[n - 1].tick, ticks_per_quarter, q.tempo));
    }
}

/// At an unchanged position a second scan of a tick-ordered sequence finds
/// nothing to do: what the first scan left pending is still not due.
pub proof fn law_rescan_changes_nothing(
    p: Playback,
    events: Seq<TimedEvent>,
    ticks_per_quarter: u16,
    pos_micros: u64,
    sample_rate: u32,
)
    requires
        ascending(events),
        p.consumed.len() == events.len(),
    ensures
        ({
            let once = scanned(p, events, ticks_per_quarter, pos_micros, sample_rate, events.len() as int);
            scanned(once, events, ticks_per_quarter, pos_micros, sample_rate, events.len() as int) == once
        }),
{
    let n = events.len() as int;
    let once = scanned(p, events, ticks_per_quarter, pos_micros, sample_rate, n);
    lemma_scan_holds_back(p, events, ticks_per_quarter, pos_micros, sample_rate, n);
    assert forall|i: int| 0 <= i < n implies #[trigger] once.consumed[i] || !is_due(
        pos_micros,
        events[i].tick,
        ticks_per_quarter,
        once.tempo,
    ) by {
        if !once.consumed[i] {
            assert(!is_due(pos_micros, events[i].tick, ticks_per_quarter, once.tempo));
        }
    }
    lemma_idle_scan(once, events, ticks_per_quarter, pos_micros, sample_rate, n);
}

/// A cycle of one frame or more over a tick-ordered sequence comes to one
/// scan: the scans of the later frames change nothing.
pub proof fn law_one_scan_settles_a_cycle(
    p: Playback,
    events: Seq<TimedEvent>,
    ticks_per_quarter: u16,
    pos_micros: u64,
    sample_rate: u32,
    frames: int,
)
    requires
        ascending(events),
        p.consumed.len() == events.len(),
        frames >= 1,
    ensures
        cycled(p, events, ticks_per_quarter, pos_micros, sample_rate, frames) == scanned(
            p,
            events,
            ticks_per_quarter,
            pos_micros,
            sample_rate,
            events.len() as int,
        ),
    decreases frames,
{
    if frames > 1 {
        law_one_scan_settles_a_cycle(p, events, ticks_per_quarter, pos_micros, sample_rate, frames - 1);
        law_rescan_changes_nothing(p, events, ticks_per_quarter, pos_micros, sample_rate);
    } else {
        assert(cycled(p, events, ticks_per_quarter, pos_micros, sample_rate, 0) == p);
    }
}

/// Whether an event stands at `tick`.
pub open spec fn stands_at(tick: u64) -> spec_fn(TimedEvent) -> bool {
    |e: TimedEvent| e.tick == tick
}

/// The events of `s` at `tick`, in the order in which `s` has them.
pub open spec fn at_tick(s: Seq<TimedEvent>, tick: u64) -> Seq<TimedEvent> {
    s.filter(stands_at(tick))
}

proof fn lemma_none_at_tick(s: Seq<TimedEvent>, tick: u64)
    requires
        forall|i: int| 0 <= i < s.len() ==> (#[trigger] s[i]).tick != tick,
    ensures
        at_tick(s, tick) == Seq::<TimedEvent>::empty(),
    decreases s.len(),
{
    reveal(Seq::filter);
    if s.len() > 0 {
        assert forall|i: int| 0 <= i < s.drop_last().len() implies (#[trigger] s.drop_last()[i]).tick != tick by {
            assert(s[i].tick != tick);
        }
        lemma_none_at_tick(s.drop_last(), tick);
        assert(s[s.len() - 1].tick != tick);
    }
}

/// Sorting by tick is stable: at every tick the sorted sequence has the
/// events that `s` has there, in the order in which `s` has them.
pub proof fn law_order_is_stable(s: Seq<TimedEvent>, tick: u64)
    ensures
        at_tick(ordered(s), tick) == at_tick(s, tick),
    decreases s.len(),
{
    reveal(Seq::filter);
    if s.len() > 0 {
        let rest = s.drop_last();
        let e = s.last();
        let front = ordered(rest);
        let p = slot(front, e.tick);
        law_order_is_stable(rest, tick);
        lemma_ordered_sorts(rest);
        lemma_slot_splits(front, e.tick);
        let head = front.subrange(0, p);
        let tail = front.subrange(p, front.len() as int);
        assert(front == head + tail);
        assert(ordered(s) == head.push(e) + tail);
        Seq::filter_distributes_over_add(head, tail, stands_at(tick));
        Seq::filter_distributes_over_add(head.push(e), tail, stands_at(tick));
        assert(head.push(e).drop_last() == head);
        if e.tick == tick {
            assert forall|i: int| 0 <= i < tail.len() implies (#[trigger] tail[i]).tick != tick by {
                assert(front[p + i].tick > tick);
            }
            lemma_none_at_tick(tail, tick);
            assert(at_tick(head, tick) + Seq::<TimedEvent>::empty() == at_tick(head, tick));
            assert(at_tick(head.push(e), tick) + Seq::<TimedEvent>::empty() == at_tick(head.push(e), tick));
        }
    }
}

/// A scan of the first `n` events reads no event behind them: what
/// stands later in the sequence, a tempo change too, has no part in how
/// they are judged.
pub proof fn law_scan_reads_only_what_it_passed(
    p: Playback,
    events: Seq<TimedEvent>,
    others: Seq<TimedEvent>,
    ticks_per_quarter: u16,
    pos_micros: u64,
    sample_rate: u32,
    n: int,
)
    requires
        n <= events.len(),
        n <= others.len(),
        forall|i: int| 0 <= i < n ==> events[i] == others[i],
    ensures
        scanned(p, events, ticks_per_quarter, pos_micros, sample_rate, n) == scanned(
            p,
            others,
            ticks_per_quarter,
            pos_micros,
            sample_rate,
            n,
        ),
    decreases n,
{
    if n > 0 {
        law_scan_reads_only_what_it_passed(
            p,
            events,
            others,
            ticks_per_quarter,
            pos_micros,
            sample_rate,
            n - 1,
        );
    }
}

} // verus!
