//! The chunk structure of a Standard MIDI File, as far as it decides
//! which time divisions a reader of the file decodes.
//!
//! A file is a chain of chunks: a four-byte id, a four-byte length and
//! that many bytes of data, cut short where the file ends. The chain
//! starts at the first byte, or, in a RIFF wrapper of form `RMID`, at the
//! start of the wrapper's `data` chunk. A header chunk, `MThd`, holds a
//! format word, a track count and the time division. Track data is
//! stepped over by its length, so bytes inside an event are never read as
//! a chunk.

use vstd::prelude::*;

verus! {

/// The four bytes `a b c d` stand at `p`.
pub open spec fn tag_at(b: Seq<u8>, p: int, tag: (u8, u8, u8, u8)) -> bool {
    b[p] == tag.0 && b[p + 1] == tag.1 && b[p + 2] == tag.2 && b[p + 3] == tag.3
}

/// `MThd`, the id of a header chunk.
pub open spec fn header_tag() -> (u8, u8, u8, u8) {
    (0x4D, 0x54, 0x68, 0x64)
}

/// `RIFF`, the id of a wrapper.
pub open spec fn riff_tag() -> (u8, u8, u8, u8) {
    (0x52, 0x49, 0x46, 0x46)
}

/// `RMID`, the form of a wrapper that holds a MIDI file.
pub open spec fn rmid_tag() -> (u8, u8, u8, u8) {
    (0x52, 0x4D, 0x49, 0x44)
}

/// `data`, the id of the wrapper's chunk that holds the file.
pub open spec fn data_tag() -> (u8, u8, u8, u8) {
    (0x64, 0x61, 0x74, 0x61)
}

/// The four bytes at `p` as a number, highest byte first.
pub open spec fn word_be(b: Seq<u8>, p: int) -> int {
    b[p] as int * 0x100_0000 + b[p + 1] as int * 0x1_0000 + b[p + 2] as int * 0x100 + b[p + 3] as int
}

/// The four bytes at `p` as a number, lowest byte first.
pub open spec fn word_le(b: Seq<u8>, p: int) -> int {
    b[p] as int + b[p + 1] as int * 0x100 + b[p + 2] as int * 0x1_0000 + b[p + 3] as int * 0x100_0000
}

/// Where the data of a chunk at `p` with length `len` ends in a region
/// that ends at `end`: after `len` bytes, or with the region.
pub open spec fn data_end(p: int, len: int, end: int) -> int {
    if p + 8 + len <= end {
        p + 8 + len
    } else {
        end
    }
}

/// The high byte of a timecode division that names one of the four
/// frame rates: minus 24, 25, 29 or 30.
pub open spec fn known_frame_rate(high: u8) -> bool {
    high == 0xE8 || high == 0xE7 || high == 0xE3 || high == 0xE2
}

/// The chain of chunks from `p` to `end` reaches a header chunk whose
/// division has the high byte `0x80`: minus 128 frames per second, a
/// number without a negation in eight bits.
///
/// A header chunk is decoded where it has six bytes of data or more and
/// a format word of 0, 1 or 2. The chain ends at the first header chunk
/// that cannot be decoded, be it for its length, its format or an unknown
/// frame rate, and where fewer than eight bytes are left.
pub open spec fn chain_overflows(b: Seq<u8>, p: int, end: int) -> bool
    decreases end - p,
{
    if p < 0 || end > b.len() || end - p < 8 {
        false
    } else {
        let next = data_end(p, word_be(b, p + 4), end);
        if !tag_at(b, p, header_tag()) {
            chain_overflows(b, next, end)
        } else if next - (p + 8) < 6 || b[p + 8] != 0 || b[p + 9] > 2 {
            false
        } else if b[p + 12] == 0x80 {
            true
        } else if b[p + 12] > 0x80 && !known_frame_rate(b[p + 12]) {
            false
        } else {
            chain_overflows(b, next, end)
        }
    }
}

/// The data of the first `data` chunk among the wrapper's chunks from `p`
/// to `end`, as its first index and the index behind its last. A chunk
/// of odd length is followed by one byte of padding.
pub open spec fn wrapped_data(b: Seq<u8>, p: int, end: int) -> Option<(int, int)>
    decreases end - p,
{
    if p < 0 || end > b.len() || end - p < 8 {
        None
    } else {
        let len = word_le(b, p + 4);
        let stop = data_end(p, len, end);
        if tag_at(b, p, data_tag()) {
            Some((p + 8, stop))
        } else if len % 2 == 1 && stop < end {
            wrapped_data(b, stop + 1, end)
        } else {
            wrapped_data(b, stop, end)
        }
    }
}

/// The part of the file that holds the chain of chunks: all of a file
/// that starts with `MThd`, the `data` chunk of a wrapper of form `RMID`,
/// and nothing of any other file.
pub open spec fn chain_region(b: Seq<u8>) -> Option<(int, int)> {
    if b.len() < 4 {
        None
    } else if tag_at(b, 0, header_tag()) {
        Some((0, b.len() as int))
    } else if !tag_at(b, 0, riff_tag()) || b.len() < 8 {
        None
    } else {
        let stop = data_end(0, word_le(b, 4), b.len() as int);
        if stop < 12 || !tag_at(b, 8, rmid_tag()) {
            None
        } else {
            wrapped_data(b, 12, stop)
        }
    }
}

/// A reader that follows the chunks of the file comes to decode a
/// division of minus 128 frames per second.
pub open spec fn division_overflows(b: Seq<u8>) -> bool {
    match chain_region(b) {
        Some((start, end)) => chain_overflows(b, start, end),
        None => false,
    }
}

fn has_tag(bytes: &[u8], p: usize, tag: (u8, u8, u8, u8)) -> (r: bool)
    requires
        p + 4 <= bytes@.len(),
    ensures
        r == tag_at(bytes@, p as int, tag),
{
    bytes[p] == tag.0 && bytes[p + 1] == tag.1 && bytes[p + 2] == tag.2 && bytes[p + 3] == tag.3
}

fn read_be(bytes: &[u8], p: usize) -> (r: u32)
    requires
        p + 4 <= bytes@.len(),
    ensures
        r == word_be(bytes@, p as int),
{
    bytes[p] as u32 * 0x100_0000 + bytes[p + 1] as u32 * 0x1_0000 + bytes[p + 2] as u32 * 0x100 + bytes[p
        + 3] as u32
}

fn read_le(bytes: &[u8], p: usize) -> (r: u32)
    requires
        p + 4 <= bytes@.len(),
    ensures
        r == word_le(bytes@, p as int),
{
    bytes[p] as u32 + bytes[p + 1] as u32 * 0x100 + bytes[p + 2] as u32 * 0x1_0000 + bytes[p + 3] as u32
        * 0x100_0000
}

fn end_of_data(p: usize, len: u32, end: usize) -> (r: usize)
    requires
        p + 8 <= end,
    ensures
        r == data_end(p as int, len as int, end as int),
        p + 8 <= r <= end,
{
    if len as usize > end - p - 8 {
        end
    } else {
        p + 8 + len as usize
    }
}

/// Tests `chain_overflows`.
pub fn chain_has_overflow(bytes: &[u8], start: usize, end: usize) -> (r: bool)
    requires
        start <= end <= bytes@.len(),
    ensures
        r == chain_overflows(bytes@, start as int, end as int),
{
    let mut p = start;
    while end - p >= 8
        invariant
            start <= p <= end <= bytes@.len(),
            chain_overflows(bytes@, p as int, end as int) == chain_overflows(bytes@, start as int, end as int),
        decreases end - p,
    {
        let next = end_of_data(p, read_be(bytes, p + 4), end);
        if has_tag(bytes, p, (0x4D, 0x54, 0x68, 0x64)) {
            if next - (p + 8) < 6 || bytes[p + 8] != 0 || bytes[p + 9] > 2 {
                return false;
            }
            let high = bytes[p + 12];
            if high == 0x80 {
                return true;
            }
            if high > 0x80 && !(high == 0xE8 || high == 0xE7 || high == 0xE3 || high == 0xE2) {
                return false;
            }
        }
        p = next;
    }
    false
}

/// Finds `wrapped_data`.
fn find_wrapped_data(bytes: &[u8], start: usize, end: usize) -> (r: Option<(usize, usize)>)
    requires
        start <= end <= bytes@.len(),
    ensures
        r is Some <==> wrapped_data(bytes@, start as int, end as int) is Some,
        r is Some ==> {
            &&& r->Some_0.0 == wrapped_data(bytes@, start as int, end as int)->Some_0.0
            &&& r->Some_0.1 == wrapped_data(bytes@, start as int, end as int)->Some_0.1
            &&& r->Some_0.0 <= r->Some_0.1 <= end
        },
{
    let mut p = start;
    while end - p >= 8
        invariant
            start <= p <= end <= bytes@.len(),
            wrapped_data(bytes@, p as int, end as int) == wrapped_data(bytes@, start as int, end as int),
        decreases end - p,
    {
        let len = read_le(bytes, p + 4);
        let stop = end_of_data(p, len, end);
        if has_tag(bytes, p, (0x64, 0x61, 0x74, 0x61)) {
            return Some((p + 8, stop));
        }
        p = if len % 2 == 1 && stop < end {
            stop + 1
        } else {
            stop
        };
    }
    None
}

/// Finds `chain_region`.
pub fn find_chain_region(bytes: &[u8]) -> (r: Option<(usize, usize)>)
    ensures
        r is Some <==> chain_region(bytes@) is Some,
        r is Some ==> {
            &&& r->Some_0.0 == chain_region(bytes@)->Some_0.0
            &&& r->Some_0.1 == chain_region(bytes@)->Some_0.1
            &&& r->Some_0.0 <= r->Some_0.1 <= bytes@.len()
        },
{
    let n = bytes.len();
    if n < 4 {
        return None;
    }
    if has_tag(bytes, 0, (0x4D, 0x54, 0x68, 0x64)) {
        return Some((0, n));
    }
    if !has_tag(bytes, 0, (0x52, 0x49, 0x46, 0x46)) || n < 8 {
        return None;
    }
    let stop = end_of_data(0, read_le(bytes, 4), n);
    if stop < 12 || !has_tag(bytes, 8, (0x52, 0x4D, 0x49, 0x44)) {
        return None;
    }
    find_wrapped_data(bytes, 12, stop)
}

/// Tests `division_overflows`.
pub fn has_overflowing_division(bytes: &[u8]) -> (r: bool)
    ensures
        r == division_overflows(bytes@),
{
    match find_chain_region(bytes) {
        Some((start, end)) => chain_has_overflow(bytes, start, end),
        None => false,
    }
}

} // verus!
