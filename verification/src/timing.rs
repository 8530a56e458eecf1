//! Exact tick-to-time arithmetic.
//!
//! An event at tick `t` falls due `t / ticks_per_quarter * 60 / tempo`
//! seconds after the start. With the position in microseconds every
//! comparison and the sample offset can be computed in integers, without
//! rounding anywhere but in the final floor.

use vstd::prelude::*;
use vstd::arithmetic::div_mod::{
    lemma_div_pos_is_pos, lemma_fundamental_div_mod, lemma_hoist_over_denominator, lemma_mod_bound,
};

verus! {

/// Microseconds in a minute.
pub const MICROS_PER_MINUTE: u32 = 60_000_000;

/// The tempo every sequence starts with, in quarter notes per minute.
pub const DEFAULT_TEMPO: u32 = 120;

/// The position scaled so that it can be compared with `scaled_due`.
pub open spec fn scaled_position(pos_micros: u64, ticks_per_quarter: u16, tempo: u32) -> int {
    pos_micros as int * ticks_per_quarter as int * tempo as int
}

/// The due time of a tick on the same scale: both sides of
/// `pos_micros / 1e6 > tick / ticks_per_quarter * 60 / tempo`
/// multiplied by `1e6 * ticks_per_quarter * tempo`.
pub open spec fn scaled_due(tick: u64) -> int {
    tick as int * 60_000_000
}

/// The position lies strictly past the due time of `tick`. With a
/// resolution or a tempo of zero no due time exists and nothing is due.
pub open spec fn is_due(pos_micros: u64, tick: u64, ticks_per_quarter: u16, tempo: u32) -> bool {
    scaled_position(pos_micros, ticks_per_quarter, tempo) > scaled_due(tick)
}

/// `floor((position - due time) * sample_rate)` in samples, as an
/// unbounded integer. Meaningful where `is_due` holds.
pub open spec fn samples_past_due(
    pos_micros: u64,
    tick: u64,
    ticks_per_quarter: u16,
    tempo: u32,
    sample_rate: u32,
) -> int {
    ((scaled_position(pos_micros, ticks_per_quarter, tempo) - scaled_due(tick)) * sample_rate as int)
        / (1_000_000 * ticks_per_quarter as int * tempo as int)
}

/// The sample offset reported for a due event: `samples_past_due`, held at
/// the largest 32-bit value.
pub open spec fn sample_offset(
    pos_micros: u64,
    tick: u64,
    ticks_per_quarter: u16,
    tempo: u32,
    sample_rate: u32,
) -> u32 {
    let n = samples_past_due(pos_micros, tick, ticks_per_quarter, tempo, sample_rate);
    if n > u32::MAX as int {
        u32::MAX
    } else {
        n as u32
    }
}

/// The tempo after a tempo change: `60_000_000 / micros_per_quarter`
/// quarter notes per minute, rounded down. A change to zero microseconds
/// names no tempo and leaves the current one in place.
pub open spec fn tempo_after(current: u32, micros_per_quarter: u32) -> u32 {
    if micros_per_quarter == 0 {
        current
    } else {
        (60_000_000int / micros_per_quarter as int) as u32
    }
}

proof fn lemma_scaled_bounds(pos_micros: u64, tick: u64, ticks_per_quarter: u16, tempo: u32)
    ensures
        0 <= pos_micros as int * ticks_per_quarter as int <= 0xFFFF_FFFF_FFFF_FFFF * 0xFFFF,
        0 <= scaled_position(pos_micros, ticks_per_quarter, tempo) <= 0xFFFF_FFFF_FFFF_FFFF * 0xFFFF
            * 0xFFFF_FFFF,
        0 <= scaled_due(tick) <= 0xFFFF_FFFF_FFFF_FFFF * 60_000_000,
        0 <= 1_000_000 * ticks_per_quarter as int <= 1_000_000 * 0xFFFF,
        0 <= 1_000_000 * ticks_per_quarter as int * tempo as int <= 1_000_000 * 0xFFFF * 0xFFFF_FFFF,
{
    let p = pos_micros as int;
    let q = ticks_per_quarter as int;
    let t = tempo as int;
    assert(0 <= p * q <= 0xFFFF_FFFF_FFFF_FFFF * 0xFFFF) by (nonlinear_arith)
        requires
            0 <= p <= 0xFFFF_FFFF_FFFF_FFFF,
            0 <= q <= 0xFFFF,
    ;
    let pq = p * q;
    assert(0 <= pq * t <= 0xFFFF_FFFF_FFFF_FFFF * 0xFFFF * 0xFFFF_FFFF) by (nonlinear_arith)
        requires
            0 <= pq <= 0xFFFF_FFFF_FFFF_FFFF * 0xFFFF,
            0 <= t <= 0xFFFF_FFFF,
    ;
    let mq = 1_000_000 * q;
    assert(0 <= mq * t <= 1_000_000 * 0xFFFF * 0xFFFF_FFFF) by (nonlinear_arith)
        requires
            0 <= mq <= 1_000_000 * 0xFFFF,
            0 <= t <= 0xFFFF_FFFF,
    ;
}

/// Decides whether the event at `tick` is due at `pos_micros`.
pub fn due(pos_micros: u64, tick: u64, ticks_per_quarter: u16, tempo: u32) -> (r: bool)
    ensures
        r == is_due(pos_micros, tick, ticks_per_quarter, tempo),
{
    proof {
        lemma_scaled_bounds(pos_micros, tick, ticks_per_quarter, tempo);
    }
    let position: u128 = pos_micros as u128 * ticks_per_quarter as u128 * tempo as u128;
    let due_at: u128 = tick as u128 * 60_000_000;
    position > due_at
}

/// Computes the sample offset of an event that is due.
pub fn offset_in_samples(
    pos_micros: u64,
    tick: u64,
    ticks_per_quarter: u16,
    tempo: u32,
    sample_rate: u32,
) -> (r: u32)
    requires
        is_due(pos_micros, tick, ticks_per_quarter, tempo),
    ensures
        r == sample_offset(pos_micros, tick, ticks_per_quarter, tempo, sample_rate),
{
    proof {
        lemma_scaled_bounds(pos_micros, tick, ticks_per_quarter, tempo);
    }
    let position: u128 = pos_micros as u128 * ticks_per_quarter as u128 * tempo as u128;
    let due_at: u128 = tick as u128 * 60_000_000;
    let past: u128 = position - due_at;
    let unit: u128 = 1_000_000 * ticks_per_quarter as u128 * tempo as u128;
    assert(unit > 0) by (nonlinear_arith)
        requires
            unit == 1_000_000 * ticks_per_quarter as int * tempo as int,
            pos_micros as int * ticks_per_quarter as int * tempo as int > 0,
            pos_micros >= 0,
            ticks_per_quarter >= 0,
            tempo >= 0,
    ;
    let whole: u128 = past / unit;
    let rest: u128 = past % unit;
    let rate: u128 = sample_rate as u128;
    proof {
        let n = samples_past_due(pos_micros, tick, ticks_per_quarter, tempo, sample_rate);
        lemma_fundamental_div_mod(past as int, unit as int);
        lemma_mod_bound(past as int, unit as int);
        assert(past as int * rate as int == (rest as int * rate as int) + (whole as int * rate as int)
            * unit as int) by (nonlinear_arith)
            requires
                past as int == unit as int * whole as int + rest as int,
        ;
        lemma_hoist_over_denominator(rest as int * rate as int, whole as int * rate as int, unit as nat);
        assert(n == (rest as int * rate as int) / (unit as int) + whole as int * rate as int);
        assert(0 <= rest as int * rate as int <= unit as int * rate as int) by (nonlinear_arith)
            requires
                0 <= rest < unit,
                0 <= rate,
        ;
        assert(rest as int * rate as int <= 1_000_000 * 0xFFFF * 0xFFFF_FFFF * 0xFFFF_FFFF) by (nonlinear_arith)
            requires
                rest as int * rate as int <= unit as int * rate as int,
                unit as int <= 1_000_000 * 0xFFFF * 0xFFFF_FFFF,
                0 <= rate as int <= 0xFFFF_FFFF,
        ;
        lemma_div_pos_is_pos(rest as int * rate as int, unit as int);
        if sample_rate > 0 {
            assert(whole as int * rate as int >= whole as int) by (nonlinear_arith)
                requires
                    rate >= 1,
                    whole >= 0,
            ;
        } else {
            assert(rest as int * rate as int == 0 && whole as int * rate as int == 0) by (nonlinear_arith)
                requires
                    rate == 0,
            ;
        }
    }
    if sample_rate == 0 {
        return 0;
    }
    if whole > 0xFFFF_FFFF {
        return u32::MAX;
    }
    assert(whole * rate <= 0xFFFF_FFFF * 0xFFFF_FFFF) by (nonlinear_arith)
        requires
            0 <= whole <= 0xFFFF_FFFF,
            0 <= rate <= 0xFFFF_FFFF,
    ;
    let total: u128 = whole * rate + (rest * rate) / unit;
    if total > 0xFFFF_FFFF {
        u32::MAX
    } else {
        total as u32
    }
}

/// Computes the tempo that a tempo change leaves behind.
pub fn next_tempo(current: u32, micros_per_quarter: u32) -> (r: u32)
    ensures
        r == tempo_after(current, micros_per_quarter),
{
    if micros_per_quarter == 0 {
        current
    } else {
        MICROS_PER_MINUTE / micros_per_quarter
    }
}

} // verus!
