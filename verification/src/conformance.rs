//! The test that a record of bytes is the image of a planned packet.
//!
//! The record is compared in place, field by field, with what the plan
//! asks for; nothing is built to compare it with.

use vstd::prelude::*;
use crate::clock::MAX_TIMESTAMP;
use crate::wire::{
    adaptation_image, header_image, lemma_image_framing, stuffing, timestamp_image, PacketPlan, Payload, PesHeader,
    PlanView, BODY_SIZE, MAX_COUNTER, MAX_PID, PACKET_SIZE, SYNC_BYTE,
};

verus! {

/// A range of `s` equals two sequences laid end to end exactly when its two
/// parts equal them.
proof fn lemma_range_split(s: Seq<u8>, from: int, mid: int, to: int, a: Seq<u8>, b: Seq<u8>)
    requires
        0 <= from <= mid <= to <= s.len(),
        a.len() == mid - from,
    ensures
        (s.subrange(from, to) == a + b) <==> (s.subrange(from, mid) == a && s.subrange(mid, to)
            == b),
{
    if s.subrange(from, to) == a + b {
        assert(s.subrange(from, mid) =~= (a + b).subrange(0, a.len() as int));
        assert((a + b).subrange(0, a.len() as int) =~= a);
        assert(s.subrange(mid, to) =~= (a + b).subrange(a.len() as int, (a + b).len() as int));
        assert((a + b).subrange(a.len() as int, (a + b).len() as int) =~= b);
    }
    if s.subrange(from, mid) == a && s.subrange(mid, to) == b {
        assert(s.subrange(from, to) =~= a + b);
    }
}

/// Whether `bytes[at..at + expected.len()]` is `expected`.
fn range_is(bytes: &Vec<u8>, at: usize, expected: &Vec<u8>) -> (ok: bool)
    requires
        at + expected.len() <= bytes.len(),
    ensures
        ok == (bytes@.subrange(at as int, at + expected.len()) == expected@),
{
    let ghost range = bytes@.subrange(at as int, at + expected.len());
    let mut index: usize = 0;
    while index < expected.len()
        invariant
            index <= expected.len(),
            at + expected.len() <= bytes.len(),
            range == bytes@.subrange(at as int, at + expected.len()),
            forall|i: int| 0 <= i < index ==> range[i] == expected@[i],
        decreases expected.len() - index,
    {
        if bytes[at + index] != expected[index] {
            assert(range[index as int] != expected@[index as int]);
            return false;
        }
        index = index + 1;
    }
    assert(range =~= expected@);
    true
}

/// Whether `bytes[from..to]` is stuffing.
fn range_is_stuffing(bytes: &Vec<u8>, from: usize, to: usize) -> (ok: bool)
    requires
        from <= to <= bytes.len(),
    ensures
        ok == (bytes@.subrange(from as int, to as int) == stuffing((to - from) as nat)),
{
    let ghost range = bytes@.subrange(from as int, to as int);
    let mut index: usize = from;
    while index < to
        invariant
            from <= index <= to <= bytes.len(),
            range == bytes@.subrange(from as int, to as int),
            forall|i: int| 0 <= i < index - from ==> range[i] == 0xFFu8,
        decreases to - index,
    {
        if bytes[index] != 0xFF {
            assert(range[index - from] != stuffing((to - from) as nat)[index - from]);
            return false;
        }
        index = index + 1;
    }
    assert(range =~= stuffing((to - from) as nat));
    true
}

/// Whether the five bytes at `at` are the image of a timestamp.
fn timestamp_is(bytes: &Vec<u8>, at: usize, marker: u8, ticks: u64) -> (ok: bool)
    requires
        at + 5 <= bytes.len(),
        marker <= 15,
        ticks <= MAX_TIMESTAMP,
    ensures
        ok == (bytes@.subrange(at as int, at + 5) == timestamp_image(marker, ticks)),
{
    let ghost range = bytes@.subrange(at as int, at + 5);
    let ghost image = timestamp_image(marker, ticks);
    let first: u64 = marker as u64 * 16 + (ticks / 0x4000_0000) * 2 + 1;
    let second: u64 = (ticks / 0x40_0000) % 256;
    let third: u64 = ((ticks / 0x8000) % 128) * 2 + 1;
    let fourth: u64 = (ticks / 128) % 256;
    let fifth: u64 = (ticks % 128) * 2 + 1;
    let ok = bytes[at] == first as u8 && bytes[at + 1] == second as u8 && bytes[at + 2]
        == third as u8 && bytes[at + 3] == fourth as u8 && bytes[at + 4] == fifth as u8;
    proof {
        if ok {
            assert(range =~= image);
        } else {
            assert(range[0] != image[0] || range[1] != image[1] || range[2] != image[2]
                || range[3] != image[3] || range[4] != image[4]);
        }
    }
    ok
}

/// Whether the bytes at `at` are the image of a PES header.
fn pes_header_is(bytes: &Vec<u8>, at: usize, header: &PesHeader) -> (ok: bool)
    requires
        header.is_valid(),
        at + header.image_len() <= bytes.len(),
    ensures
        ok == (bytes@.subrange(at as int, at + header.image_len()) == header.image()),
{
    let ghost range = bytes@.subrange(at as int, at + 9);
    let ghost fixed = header.fixed_image();
    let flags: u8 = if header.data_alignment { 0x85 } else { 0x81 };
    let stamps: u8 = if header.dts.is_some() { 0xC0 } else { 0x80 };
    let rest: u8 = if header.dts.is_some() { 10 } else { 5 };
    let fixed_ok = bytes[at] == 0 && bytes[at + 1] == 0 && bytes[at + 2] == 1 && bytes[at + 3]
        == header.stream_id && bytes[at + 4] == (header.packet_length / 256) as u8 && bytes[at
        + 5] == (header.packet_length % 256) as u8 && bytes[at + 6] == flags && bytes[at + 7]
        == stamps && bytes[at + 8] == rest;
    proof {
        if fixed_ok {
            assert(range =~= fixed);
        } else {
            assert(range[0] != fixed[0] || range[1] != fixed[1] || range[2] != fixed[2]
                || range[3] != fixed[3] || range[4] != fixed[4] || range[5] != fixed[5]
                || range[6] != fixed[6] || range[7] != fixed[7] || range[8] != fixed[8]);
        }
    }
    match header.dts {
        Some(dts) => {
            let pts_ok = timestamp_is(bytes, at + 9, 3, header.pts);
            let dts_ok = timestamp_is(bytes, at + 14, 1, dts);
            proof {
                lemma_range_split(
                    bytes@,
                    at as int,
                    at + 14,
                    at + 19,
                    fixed + timestamp_image(3, header.pts),
                    timestamp_image(1, dts),
                );
                lemma_range_split(
                    bytes@,
                    at as int,
                    at + 9,
                    at + 14,
                    fixed,
                    timestamp_image(3, header.pts),
                );
            }
            fixed_ok && pts_ok && dts_ok
        },
        None => {
            let pts_ok = timestamp_is(bytes, at + 9, 2, header.pts);
            proof {
                lemma_range_split(
                    bytes@,
                    at as int,
                    at + 9,
                    at + 14,
                    fixed,
                    timestamp_image(2, header.pts),
                );
            }
            fixed_ok && pts_ok
        },
    }
}

/// Number of bytes that a payload occupies, or `None` when that is more
/// than the body of a packet.
pub fn payload_len(payload: &Payload) -> (r: Option<usize>)
    ensures
        match r {
            Some(n) => n == payload@.image().len() && n <= BODY_SIZE,
            None => payload@.image().len() > BODY_SIZE,
        },
{
    let (overhead, data_len): (usize, usize) = match payload {
        Payload::PesStart { header, data } => (
            if header.dts.is_some() {
                19
            } else {
                14
            },
            data.len(),
        ),
        Payload::PesContinuation { data } => (0, data.len()),
        Payload::Section { data } => (1, data.len()),
    };
    if data_len > BODY_SIZE - overhead {
        None
    } else {
        Some(overhead + data_len)
    }
}

/// Whether the fields of a PES header are in range.
pub fn pes_header_is_valid(header: &PesHeader) -> (ok: bool)
    ensures
        ok == header.is_valid(),
{
    let dts_ok = match header.dts {
        Some(dts) => dts <= MAX_TIMESTAMP,
        None => true,
    };
    0xC0 <= header.stream_id && header.stream_id <= 0xEF && header.pts <= MAX_TIMESTAMP && dts_ok
}

/// Whether a plan fits in one packet.
pub fn plan_fits(plan: &PacketPlan) -> (ok: bool)
    ensures
        ok == plan@.fits(),
{
    let payload_ok = match &plan.payload {
        Payload::PesStart { header, data } => pes_header_is_valid(header),
        Payload::PesContinuation { data } => true,
        Payload::Section { data } => true,
    };
    let needed: usize = if plan.random_access { 2 } else { 0 };
    match payload_len(&plan.payload) {
        Some(n) => plan.pid <= MAX_PID && plan.counter <= MAX_COUNTER && payload_ok && n > 0
            && BODY_SIZE - n >= needed,
        None => false,
    }
}

/// Whether the first four bytes are the header of the plan.
fn header_is(bytes: &Vec<u8>, plan: &PacketPlan, room: usize) -> (ok: bool)
    requires
        bytes.len() >= 4,
        plan@.fits(),
        room == plan@.room(),
    ensures
        ok == (bytes@.subrange(0, 4) == header_image(
            plan.pid,
            plan.payload@.starts_unit(),
            plan@.room() > 0,
            plan.counter,
        )),
{
    let ghost range = bytes@.subrange(0, 4);
    let ghost image = header_image(
        plan.pid,
        plan.payload@.starts_unit(),
        plan@.room() > 0,
        plan.counter,
    );
    let starts: u16 = match &plan.payload {
        Payload::PesContinuation { data } => 0,
        _ => 64,
    };
    let control: u8 = if room > 0 { 48 } else { 16 };
    let ok = bytes[0] == SYNC_BYTE && bytes[1] == (starts + plan.pid / 256) as u8 && bytes[2] == (
    plan.pid % 256) as u8 && bytes[3] == control + plan.counter;
    proof {
        if ok {
            assert(range =~= image);
        } else {
            assert(range[0] != image[0] || range[1] != image[1] || range[2] != image[2]
                || range[3] != image[3]);
        }
    }
    ok
}

/// Whether the `room` bytes after the header are the adaptation field.
fn adaptation_is(bytes: &Vec<u8>, random_access: bool, room: usize) -> (ok: bool)
    requires
        4 + room <= bytes.len(),
        room <= BODY_SIZE,
    ensures
        ok == (bytes@.subrange(4, 4 + room) == adaptation_image(random_access, room as int)),
{
    let ghost range = bytes@.subrange(4, 4 + room);
    let ghost image = adaptation_image(random_access, room as int);
    if room == 0 {
        assert(range =~= image);
        return true;
    }
    if room == 1 {
        let ok = bytes[4] == 0;
        proof {
            if ok {
                assert(range =~= image);
            } else {
                assert(range[0] != image[0]);
            }
        }
        return ok;
    }
    let flags: u8 = if random_access { 0x40 } else { 0 };
    let lead_ok = bytes[4] == (room - 1) as u8 && bytes[5] == flags;
    let fill_ok = range_is_stuffing(bytes, 6, 4 + room);
    proof {
        let lead = seq![(room - 1) as u8, flags];
        lemma_range_split(bytes@, 4, 6, 4 + room, lead, stuffing((room - 2) as nat));
        if lead_ok {
            assert(bytes@.subrange(4, 6) =~= lead);
        } else {
            assert(bytes@.subrange(4, 6)[0] != lead[0] || bytes@.subrange(4, 6)[1] != lead[1]);
        }
    }
    lead_ok && fill_ok
}

/// Whether the bytes from `at` to the end are the payload.
fn payload_is(bytes: &Vec<u8>, at: usize, payload: &Payload) -> (ok: bool)
    requires
        payload@.is_valid(),
        at + payload@.image().len() == bytes.len(),
    ensures
        ok == (bytes@.subrange(at as int, bytes.len() as int) == payload@.image()),
{
    match payload {
        Payload::PesStart { header, data } => {
            let header_len: usize = if header.dts.is_some() { 19 } else { 14 };
            let header_ok = pes_header_is(bytes, at, header);
            let data_ok = range_is(bytes, at + header_len, data);
            proof {
                lemma_range_split(
                    bytes@,
                    at as int,
                    at + header_len,
                    bytes.len() as int,
                    header.image(),
                    data@,
                );
            }
            header_ok && data_ok
        },
        Payload::PesContinuation { data } => range_is(bytes, at, data),
        Payload::Section { data } => {
            let pointer_ok = bytes[at] == 0;
            let data_ok = range_is(bytes, at + 1, data);
            proof {
                lemma_range_split(bytes@, at as int, at + 1, bytes.len() as int, seq![0u8], data@);
                if pointer_ok {
                    assert(bytes@.subrange(at as int, at + 1) =~= seq![0u8]);
                } else {
                    assert(bytes@.subrange(at as int, at + 1)[0] != seq![0u8][0]);
                }
            }
            pointer_ok && data_ok
        },
    }
}

/// Whether `bytes` is the wire image of `plan`.
pub fn is_image_of(bytes: &Vec<u8>, plan: &PacketPlan) -> (ok: bool)
    ensures
        ok == (plan@.fits() && bytes@ == plan@.image()),
{
    if !plan_fits(plan) {
        return false;
    }
    if bytes.len() != PACKET_SIZE {
        proof {
            lemma_image_framing(plan@);
        }
        return false;
    }
    let room: usize = match payload_len(&plan.payload) {
        Some(n) => BODY_SIZE - n,
        None => 0,
    };
    let head_ok = header_is(bytes, plan, room);
    let field_ok = adaptation_is(bytes, plan.random_access, room);
    let payload_ok = payload_is(bytes, 4 + room, &plan.payload);
    proof {
        reveal(PlanView::image);
        let head = header_image(plan.pid, plan.payload@.starts_unit(), room > 0, plan.counter);
        let field = adaptation_image(plan.random_access, room as int);
        assert(bytes@.subrange(0, PACKET_SIZE as int) =~= bytes@);
        lemma_range_split(bytes@, 0, 4 + room, PACKET_SIZE as int, head + field, plan.payload@.image());
        lemma_range_split(bytes@, 0, 4, 4 + room, head, field);
    }
    head_ok && field_ok && payload_ok
}

} // verus!
