//! Cutting a PES unit into transport packets.
//!
//! The first packet of a unit carries the PES header, the random-access
//! flag of the unit and as many payload bytes as still fit; every further
//! packet carries up to 184 payload bytes. Stuffing goes into the adaptation
//! field of the last packet, so that no packet is short.

use vstd::prelude::*;
use crate::bytes::copy_of;
use crate::clock::MAX_TIMESTAMP;
use crate::continuity::{advanced, lemma_advanced_twice, successor, ContinuityState};
use crate::encoder::{encode, serialises};
use crate::error::MuxError;
use crate::packet::{
    counter_of, lemma_image_fields, payload_of, pid_of, random_access_of, starts_unit_of,
    TransportPacket,
};
use crate::pes::{PesUnit, PesUnitView};
use crate::sequence::images_of;
use crate::wire::{
    lemma_image_framing, PacketPlan, Payload, PayloadView, PesHeader, PlanView, BODY_SIZE,
    PACKET_SIZE, SYNC_BYTE,
};

verus! {

/// Lowest identifier that an elementary stream or a program map may use.
pub const MIN_STREAM_PID: u16 = 0x0010;

/// Highest identifier that an elementary stream or a program map may use.
pub const MAX_STREAM_PID: u16 = 0x1FFE;

/// Identifiers below `0x0010` are kept for fixed tables and `0x1FFF` for
/// null packets; every other identifier can carry a stream.
pub open spec fn is_stream_pid(pid: u16) -> bool {
    MIN_STREAM_PID <= pid <= MAX_STREAM_PID
}

/// Whether `pid` can carry a stream.
pub fn check_stream_pid(pid: u16) -> (ok: bool)
    ensures
        ok == is_stream_pid(pid),
{
    MIN_STREAM_PID <= pid && pid <= MAX_STREAM_PID
}

impl PesUnitView {
    /// Bytes of the PES header of the unit.
    pub open spec fn header_len(self) -> int {
        if self.dts is Some {
            19
        } else {
            14
        }
    }

    /// Value of the packet length field: the number of bytes that follow
    /// it, or 0, which leaves the length open, when that number does not fit
    /// in 16 bits.
    pub open spec fn length_field(self) -> u16 {
        let following = self.header_len() - 6 + self.payload.len();
        if following <= 0xFFFF {
            following as u16
        } else {
            0
        }
    }

    /// The PES header of the unit.
    pub open spec fn header(self) -> PesHeader {
        PesHeader {
            stream_id: self.stream_id.wire_value(),
            data_alignment: self.data_alignment,
            pts: self.pts,
            dts: self.dts,
            packet_length: self.length_field(),
        }
    }

    /// The unit as one run of bytes: the PES header, then the payload.
    pub open spec fn image(self) -> Seq<u8> {
        self.header().image() + self.payload
    }

    /// Payload bytes that fit in the first packet.
    pub open spec fn first_capacity(self) -> int {
        BODY_SIZE - self.header_len() - (if self.random_access { 2int } else { 0int })
    }

    /// Number of packets that the unit is cut into.
    pub open spec fn packet_count(self) -> int {
        if self.payload.len() <= self.first_capacity() {
            1
        } else {
            1 + (self.payload.len() - self.first_capacity() + BODY_SIZE - 1) / (BODY_SIZE as int)
        }
    }

    /// Index of the first payload byte in packet `index`.
    pub open spec fn chunk_start(self, index: int) -> int {
        if index <= 0 {
            0
        } else {
            self.first_capacity() + (index - 1) * BODY_SIZE
        }
    }

    /// Index after the last payload byte in packet `index`.
    pub open spec fn chunk_end(self, index: int) -> int {
        let limit = self.first_capacity() + index * BODY_SIZE;
        if limit < self.payload.len() {
            limit
        } else {
            self.payload.len() as int
        }
    }

    /// The payload bytes in packet `index`.
    pub open spec fn chunk(self, index: int) -> Seq<u8> {
        self.payload.subrange(self.chunk_start(index), self.chunk_end(index))
    }

    /// Packet `index` of the unit, sent with identifier `pid` when the
    /// counter of `pid` stands at `first_counter` before the unit.
    pub open spec fn plan(self, pid: u16, first_counter: u8, index: int) -> PlanView {
        PlanView {
            pid,
            counter: advanced(first_counter, index as nat),
            random_access: index == 0 && self.random_access,
            payload: if index == 0 {
                PayloadView::PesStart { header: self.header(), data: self.chunk(0) }
            } else {
                PayloadView::PesContinuation { data: self.chunk(index) }
            },
        }
    }

    /// Whether every packet of the unit is written as its image.
    pub open spec fn all_serialise(self, pid: u16, first_counter: u8) -> bool {
        forall|index: int|
            0 <= index < self.packet_count() ==> serialises(
                #[trigger] self.plan(pid, first_counter, index),
            )
    }

    /// Why sending the unit fails, if it does: the unit is refused, or one
    /// of its packets is not written as its image, which is `Framing`.
    pub open spec fn failure(self, pid: u16, first_counter: u8) -> Option<MuxError> {
        match self.refusal(pid) {
            Some(reason) => Some(reason),
            None => if self.all_serialise(pid, first_counter) {
                None
            } else {
                Some(MuxError::Framing)
            },
        }
    }

    /// All the packets of the unit, as bytes.
    pub open spec fn images(self, pid: u16, first_counter: u8) -> Seq<Seq<u8>> {
        Seq::new(
            self.packet_count() as nat,
            |index: int| self.plan(pid, first_counter, index).image(),
        )
    }

    /// Why a unit cannot be sent with identifier `pid`, if it cannot.
    pub open spec fn refusal(self, pid: u16) -> Option<MuxError> {
        if !is_stream_pid(pid) || !self.stream_id.is_valid() {
            Some(MuxError::Configuration)
        } else if !self.timestamps_fit() {
            Some(MuxError::ClockOverflow)
        } else {
            None
        }
    }
}

/// The mathematical form of each of the given units.
pub open spec fn unit_views(units: Seq<PesUnit>) -> Seq<PesUnitView> {
    Seq::new(units.len(), |index: int| units[index]@)
}

/// Number of packets that a run of units is cut into.
pub open spec fn total_packets(units: Seq<PesUnitView>) -> nat
    decreases units.len(),
{
    if units.len() == 0 {
        0
    } else {
        (total_packets(units.drop_last()) + units.last().packet_count()) as nat
    }
}

/// All the packets of a run of units sent one after the other with
/// identifier `pid`, when the counter of `pid` stands at `first_counter`
/// before the first unit.
pub open spec fn stream_images(units: Seq<PesUnitView>, pid: u16, first_counter: u8) -> Seq<Seq<u8>>
    decreases units.len(),
{
    if units.len() == 0 {
        Seq::<Seq<u8>>::empty()
    } else {
        stream_images(units.drop_last(), pid, first_counter) + units.last().images(
            pid,
            advanced(first_counter, total_packets(units.drop_last())),
        )
    }
}

/// Whether every packet of every unit of a run is written as its image.
pub open spec fn run_serialises(units: Seq<PesUnitView>, pid: u16, first_counter: u8) -> bool
    decreases units.len(),
{
    if units.len() == 0 {
        true
    } else {
        run_serialises(units.drop_last(), pid, first_counter) && units.last().all_serialise(
            pid,
            advanced(first_counter, total_packets(units.drop_last())),
        )
    }
}

/// The units of a run as one run of bytes: every PES header followed by its
/// payload.
pub open spec fn run_image(units: Seq<PesUnitView>) -> Seq<u8>
    decreases units.len(),
{
    if units.len() == 0 {
        Seq::<u8>::empty()
    } else {
        run_image(units.drop_last()) + units.last().image()
    }
}

/// Why sending a run of units fails, if it does: the failure of the first
/// unit that fails.
pub open spec fn run_failure(units: Seq<PesUnitView>, pid: u16, first_counter: u8) -> Option<MuxError>
    decreases units.len(),
{
    if units.len() == 0 {
        None
    } else {
        match run_failure(units.drop_last(), pid, first_counter) {
            Some(reason) => Some(reason),
            None => units.last().failure(
                pid,
                advanced(first_counter, total_packets(units.drop_last())),
            ),
        }
    }
}

/// Whether every unit of a run can be sent with identifier `pid`.
pub open spec fn all_accepted(units: Seq<PesUnitView>, pid: u16) -> bool {
    forall|index: int| 0 <= index < units.len() ==> (#[trigger] units[index]).refusal(pid) is None
}

/// The payloads of the given packets, laid end to end.
pub open spec fn reassembled(packets: Seq<Seq<u8>>) -> Seq<u8>
    decreases packets.len(),
{
    if packets.len() == 0 {
        Seq::<u8>::empty()
    } else {
        reassembled(packets.drop_last()) + payload_of(packets.last())
    }
}

/// The PES header of a unit.
pub fn header_of(unit: &PesUnit) -> (header: PesHeader)
    ensures
        header == unit@.header(),
{
    let header_len: usize = if unit.dts.is_some() { 19 } else { 14 };
    let packet_length: u16 = if unit.payload.len() <= 0xFFFF - (header_len - 6) {
        (header_len - 6 + unit.payload.len()) as u16
    } else {
        0
    };
    PesHeader {
        stream_id: unit.stream_id.as_u8(),
        data_alignment: unit.data_alignment,
        pts: unit.pts,
        dts: unit.dts,
        packet_length,
    }
}

/// Why a unit cannot be sent with identifier `pid`, if it cannot.
pub fn check_unit(unit: &PesUnit, pid: u16) -> (r: Option<MuxError>)
    ensures
        r == unit@.refusal(pid),
{
    if !check_stream_pid(pid) || !unit.stream_id.check() {
        return Some(MuxError::Configuration);
    }
    let dts_fits = match unit.dts {
        Some(dts) => dts <= MAX_TIMESTAMP,
        None => true,
    };
    if unit.pts > MAX_TIMESTAMP || !dts_fits {
        return Some(MuxError::ClockOverflow);
    }
    None
}

/// Cuts `unit` into packets with identifier `pid`, the first of which
/// carries the counter `first_counter`.
///
/// The call succeeds exactly when the unit can be sent and every one of its
/// packets is written as its image; the packets are then exactly those
/// images, in order. A unit that cannot be sent is refused with the error
/// that [`PesUnitView::refusal`] names; any other failure is `Framing`.
pub fn packetize_from(unit: &PesUnit, pid: u16, first_counter: u8) -> (r: Result<
    Vec<TransportPacket>,
    MuxError,
>)
    ensures
        r is Ok <==> unit@.refusal(pid) is None && unit@.all_serialise(pid, first_counter),
        match r {
            Ok(packets) => {
                &&& unit@.refusal(pid) is None
                &&& packets.len() == unit@.packet_count()
                &&& forall|index: int|
                    0 <= index < packets.len() ==> (#[trigger] packets[index])@ == unit@.plan(
                        pid,
                        first_counter,
                        index,
                    ).image()
            },
            Err(e) => match unit@.refusal(pid) {
                Some(reason) => e == reason,
                None => e == MuxError::Framing,
            },
        },
{
    if let Some(reason) = check_unit(unit, pid) {
        return Err(reason);
    }
    let header = header_of(unit);
    let total: usize = unit.payload.len();
    let first_capacity: usize = BODY_SIZE - (if unit.dts.is_some() { 19 } else { 14 }) - (
    if unit.random_access { 2 } else { 0 });
    let mut packets: Vec<TransportPacket> = Vec::new();
    let first_end: usize = if total < first_capacity { total } else { first_capacity };
    let first_plan = PacketPlan {
        pid,
        counter: first_counter % 16,
        random_access: unit.random_access,
        payload: Payload::PesStart { header, data: copy_of(unit.payload.as_slice(), 0, first_end) },
    };
    assert(first_plan@ == unit@.plan(pid, first_counter, 0));
    let first_packet = match encode(&first_plan) {
        Ok(packet) => packet,
        Err(e) => {
            assert(!serialises(unit@.plan(pid, first_counter, 0)));
            return Err(e);
        },
    };
    packets.push(first_packet);
    let mut offset: usize = first_end;
    let mut counter: u8 = (first_counter % 16 + 1) % 16;
    while offset < total
        invariant
            unit@.refusal(pid) is None,
            total == unit.payload.len(),
            first_capacity == unit@.first_capacity(),
            offset <= total,
            1 <= packets.len(),
            offset == unit@.chunk_end(packets.len() - 1),
            offset < total ==> offset == unit@.chunk_start(packets.len() as int),
            counter == advanced(first_counter, packets.len() as nat),
            packets.len() <= unit@.packet_count(),
            offset >= total ==> packets.len() == unit@.packet_count(),
            forall|index: int|
                0 <= index < packets.len() ==> (#[trigger] packets[index])@ == unit@.plan(
                    pid,
                    first_counter,
                    index,
                ).image(),
            forall|index: int|
                0 <= index < packets.len() ==> serialises(
                    #[trigger] unit@.plan(pid, first_counter, index),
                ),
        decreases total - offset,
    {
        let end: usize = if total - offset < BODY_SIZE { total } else { offset + BODY_SIZE };
        let plan = PacketPlan {
            pid,
            counter,
            random_access: false,
            payload: Payload::PesContinuation { data: copy_of(unit.payload.as_slice(), offset, end) },
        };
        assert(plan@ == unit@.plan(pid, first_counter, packets.len() as int));
        let packet = match encode(&plan) {
            Ok(packet) => packet,
            Err(e) => {
                assert(!serialises(unit@.plan(pid, first_counter, packets.len() as int)));
                return Err(e);
            },
        };
        packets.push(packet);
        offset = end;
        counter = (counter + 1) % 16;
    }
    Ok(packets)
}

/// Cuts one unit of a run into packets and tells the counter that the next
/// unit begins with.
fn packetize_next(unit: &PesUnit, pid: u16, counter: u8) -> (r: Result<
    (Vec<TransportPacket>, u8),
    MuxError,
>)
    requires
        counter <= 15,
    ensures
        r is Ok <==> unit@.refusal(pid) is None && unit@.all_serialise(pid, counter),
        match r {
            Ok((packets, next)) => {
                &&& unit@.refusal(pid) is None
                &&& packets.len() == unit@.packet_count()
                &&& images_of(packets@) == unit@.images(pid, counter)
                &&& next == advanced(counter, packets.len() as nat)
            },
            Err(e) => match unit@.refusal(pid) {
                Some(reason) => e == reason,
                None => e == MuxError::Framing,
            },
        },
{
    let packets = packetize_from(unit, pid, counter)?;
    assert(images_of(packets@) =~= unit@.images(pid, counter));
    let next = (counter + (packets.len() % 16) as u8) % 16;
    Ok((packets, next))
}

/// Cuts PES units into transport packets and keeps the continuity counters
/// of the identifiers it has sent on.
pub struct Packetizer {
    pub counters: ContinuityState,
}

impl Packetizer {
    /// A packetizer whose counters are all 0.
    pub fn new() -> (packetizer: Packetizer)
        ensures
            forall|pid: u16| packetizer.counters.current(pid) == 0,
    {
        Packetizer { counters: ContinuityState::new() }
    }

    /// Cuts `unit` into packets with identifier `pid`.
    ///
    /// The call succeeds exactly when the unit can be sent and every one of
    /// its packets is written as its image. The packets continue the counter
    /// of `pid`, which moves on by one for every packet; no other counter
    /// changes. A failure changes no counter at all.
    pub fn packetize(&mut self, unit: &PesUnit, pid: u16) -> (r: Result<
        Vec<TransportPacket>,
        MuxError,
    >)
        ensures
            r is Ok <==> unit@.refusal(pid) is None && unit@.all_serialise(
                pid,
                old(self).counters.current(pid),
            ),
            match r {
                Ok(packets) => {
                    &&& unit@.refusal(pid) is None
                    &&& packets.len() == unit@.packet_count()
                    &&& forall|index: int|
                        0 <= index < packets.len() ==> (#[trigger] packets[index])@ == unit@.plan(
                            pid,
                            old(self).counters.current(pid),
                            index,
                        ).image()
                    &&& final(self).counters.current(pid) == advanced(
                        old(self).counters.current(pid),
                        packets.len() as nat,
                    )
                    &&& forall|other: u16|
                        other != pid ==> final(self).counters.current(other) == old(
                            self,
                        ).counters.current(other)
                },
                Err(e) => {
                    &&& match unit@.refusal(pid) {
                        Some(reason) => e == reason,
                        None => e == MuxError::Framing,
                    }
                    &&& forall|any: u16|
                        final(self).counters.current(any) == old(self).counters.current(any)
                },
            },
    {
        let first_counter = self.counters.peek(pid);
        let packets = packetize_from(unit, pid, first_counter)?;
        let steps: u8 = (packets.len() % 16) as u8;
        self.counters.set(pid, (first_counter + steps) % 16);
        Ok(packets)
    }

    /// Cuts a run of units into packets with identifier `pid`, one unit
    /// after the other.
    ///
    /// The call succeeds exactly when every unit can be sent and every
    /// packet is written as its image. The counter of `pid` runs on through
    /// all the packets and over the unit boundaries. On failure nothing is
    /// sent and no counter changes; the error is that of the first unit that
    /// fails: its refusal if it cannot be sent, else `Framing`.
    pub fn packetize_all(&mut self, units: &Vec<PesUnit>, pid: u16) -> (r: Result<
        Vec<TransportPacket>,
        MuxError,
    >)
        ensures
            match r {
                Ok(packets) => {
                    &&& all_accepted(unit_views(units@), pid)
                    &&& images_of(packets@) == stream_images(
                        unit_views(units@),
                        pid,
                        old(self).counters.current(pid),
                    )
                    &&& final(self).counters.current(pid) == advanced(
                        old(self).counters.current(pid),
                        total_packets(unit_views(units@)),
                    )
                    &&& forall|other: u16|
                        other != pid ==> final(self).counters.current(other) == old(
                            self,
                        ).counters.current(other)
                },
                Err(e) => {
                    &&& forall|any: u16|
                        final(self).counters.current(any) == old(self).counters.current(any)
                    &&& run_failure(unit_views(units@), pid, old(self).counters.current(pid))
                        == Some(e)
                },
            },
            r is Ok <==> all_accepted(unit_views(units@), pid) && run_serialises(
                unit_views(units@),
                pid,
                old(self).counters.current(pid),
            ),
    {
        let ghost views = unit_views(units@);
        let first_counter = self.counters.peek(pid);
        let mut counter: u8 = first_counter;
        let mut packets: Vec<TransportPacket> = Vec::new();
        let mut index: usize = 0;
        proof {
            assert(views.take(0) =~= Seq::<PesUnitView>::empty());
            assert(images_of(packets@) =~= stream_images(views.take(0), pid, first_counter));
        }
        while index < units.len()
            invariant
                index <= units.len(),
                views == unit_views(units@),
                first_counter <= 15,
                counter == advanced(first_counter, total_packets(views.take(index as int))),
                images_of(packets@) == stream_images(views.take(index as int), pid, first_counter),
                all_accepted(views.take(index as int), pid),
                run_serialises(views.take(index as int), pid, first_counter),
                run_failure(views.take(index as int), pid, first_counter) is None,
                first_counter == old(self).counters.current(pid),
            decreases units.len() - index,
        {
            let ghost earlier = packets@;
            let (mut more, next) = match packetize_next(&units[index], pid, counter) {
                Ok(pair) => pair,
                Err(e) => {
                    proof {
                        assert(views[index as int] == units[index as int]@);
                        lemma_stream_step(views, pid, first_counter, index as int);
                        lemma_failure_stays(views, pid, first_counter, index + 1);
                        if units[index as int]@.refusal(pid) is Some {
                            assert(views[index as int].refusal(pid) == Some(e));
                        } else if run_serialises(views, pid, first_counter) {
                            lemma_run_prefix(views, pid, first_counter, index + 1);
                        }
                    }
                    return Err(e);
                },
            };
            proof {
                assert(views[index as int] == units[index as int]@);
                lemma_stream_step(views, pid, first_counter, index as int);
                lemma_accepted_step(views, pid, index as int);
                lemma_images_of_add(earlier, more@);
                lemma_advanced_twice(
                    first_counter,
                    total_packets(views.take(index as int)),
                    more.len() as nat,
                );
            }
            counter = next;
            packets.append(&mut more);
            index = index + 1;
        }
        proof {
            assert(views.take(units.len() as int) =~= views);
        }
        self.counters.set(pid, counter);
        Ok(packets)
    }
}

/// Joins the payloads of the given packets.
pub fn reassemble(packets: &Vec<TransportPacket>) -> (bytes: Vec<u8>)
    ensures
        bytes@ == reassembled(images_of(packets@)),
{
    let ghost images = images_of(packets@);
    let mut bytes: Vec<u8> = Vec::new();
    let mut index: usize = 0;
    assert(bytes@ =~= reassembled(images.take(0)));
    while index < packets.len()
        invariant
            index <= packets.len(),
            images == images_of(packets@),
            bytes@ == reassembled(images.take(index as int)),
        decreases packets.len() - index,
    {
        packets[index].append_payload(&mut bytes);
        proof {
            let next = images.take(index + 1);
            assert(next.drop_last() =~= images.take(index as int));
            assert(next.last() == packets[index as int]@);
        }
        index = index + 1;
    }
    proof {
        assert(images.take(packets.len() as int) =~= images);
    }
    bytes
}

/// A unit is cut into at least one packet.
pub proof fn lemma_packet_count_positive(unit: PesUnitView)
    ensures
        unit.packet_count() >= 1,
{
}

/// Where the chunks of a unit begin and end: every chunk lies inside the
/// payload, each begins where the one before ended, no chunk but the first
/// is empty, and the last one ends with the payload.
pub proof fn lemma_chunks(unit: PesUnitView, index: int)
    requires
        0 <= index < unit.packet_count(),
    ensures
        0 <= unit.chunk_start(index) <= unit.chunk_end(index) <= unit.payload.len(),
        unit.chunk_end(index) - unit.chunk_start(index) <= (if index == 0 {
            unit.first_capacity()
        } else {
            BODY_SIZE as int
        }),
        index > 0 ==> unit.chunk_start(index) == unit.chunk_end(index - 1),
        index > 0 ==> unit.chunk_start(index) < unit.chunk_end(index),
        index == unit.packet_count() - 1 ==> unit.chunk_end(index) == unit.payload.len(),
{
}

/// Every packet of a unit that can be sent fits in 188 bytes.
pub proof fn lemma_plan_fits(unit: PesUnitView, pid: u16, first_counter: u8, index: int)
    requires
        unit.refusal(pid) is None,
        0 <= index < unit.packet_count(),
    ensures
        unit.plan(pid, first_counter, index).fits(),
{
    lemma_chunks(unit, index);
}

/// Every packet of a unit is exactly 188 bytes long and begins with `0x47`.
pub proof fn lemma_packets_framed(unit: PesUnitView, pid: u16, first_counter: u8, index: int)
    requires
        unit.refusal(pid) is None,
        0 <= index < unit.packet_count(),
    ensures
        unit.images(pid, first_counter)[index].len() == PACKET_SIZE,
        unit.images(pid, first_counter)[index][0] == SYNC_BYTE,
{
    lemma_plan_fits(unit, pid, first_counter, index);
    lemma_image_framing(unit.plan(pid, first_counter, index));
}

/// The header fields of the packets of a unit: all carry the identifier
/// and a payload, packet `index` carries the counter reached after `index`
/// steps, only the first packet starts a unit, and only the first packet of
/// a random-access unit is flagged as a random-access point.
pub proof fn lemma_packet_fields(unit: PesUnitView, pid: u16, first_counter: u8, index: int)
    requires
        unit.refusal(pid) is None,
        0 <= index < unit.packet_count(),
    ensures
        pid_of(unit.images(pid, first_counter)[index]) == pid,
        counter_of(unit.images(pid, first_counter)[index]) == advanced(first_counter, index as nat),
        starts_unit_of(unit.images(pid, first_counter)[index]) == (index == 0),
        random_access_of(unit.images(pid, first_counter)[index]) == (index == 0
            && unit.random_access),
{
    lemma_plan_fits(unit, pid, first_counter, index);
    lemma_image_fields(unit.plan(pid, first_counter, index));
}

/// Two packets of a unit that follow each other never carry the same
/// counter: the second carries the successor of the first.
pub proof fn lemma_neighbours_differ(unit: PesUnitView, pid: u16, first_counter: u8, index: int)
    requires
        unit.refusal(pid) is None,
        0 <= index,
        index + 1 < unit.packet_count(),
    ensures
        counter_of(unit.images(pid, first_counter)[index + 1]) == successor(
            counter_of(unit.images(pid, first_counter)[index]),
        ),
        counter_of(unit.images(pid, first_counter)[index + 1]) != counter_of(
            unit.images(pid, first_counter)[index],
        ),
{
    lemma_packet_fields(unit, pid, first_counter, index);
    lemma_packet_fields(unit, pid, first_counter, index + 1);
}

/// What is left of packet `index` of a unit without header, adaptation
/// field and stuffing: the chunk of the packet, behind the PES header in the
/// first packet.
pub proof fn lemma_packet_payload(unit: PesUnitView, pid: u16, first_counter: u8, index: int)
    requires
        unit.refusal(pid) is None,
        0 <= index < unit.packet_count(),
    ensures
        payload_of(unit.images(pid, first_counter)[index]) == (if index == 0 {
            unit.header().image() + unit.chunk(0)
        } else {
            unit.chunk(index)
        }),
{
    lemma_plan_fits(unit, pid, first_counter, index);
    lemma_image_fields(unit.plan(pid, first_counter, index));
}

proof fn lemma_subrange_join(s: Seq<u8>, from: int, mid: int, to: int)
    requires
        0 <= from <= mid <= to <= s.len(),
    ensures
        s.subrange(from, mid) + s.subrange(mid, to) == s.subrange(from, to),
{
    assert(s.subrange(from, mid) + s.subrange(mid, to) =~= s.subrange(from, to));
}

proof fn lemma_reassembled_prefix(unit: PesUnitView, pid: u16, first_counter: u8, count: int)
    requires
        unit.refusal(pid) is None,
        1 <= count <= unit.packet_count(),
    ensures
        reassembled(unit.images(pid, first_counter).take(count)) == unit.header().image()
            + unit.payload.subrange(0, unit.chunk_end(count - 1)),
    decreases count,
{
    let images = unit.images(pid, first_counter);
    let taken = images.take(count);
    let last = count - 1;
    let head = unit.header().image();
    let piece = payload_of(images[last]);
    lemma_chunks(unit, last);
    lemma_packet_payload(unit, pid, first_counter, last);
    assert(taken.last() == images[last]);
    assert(taken.drop_last() =~= images.take(last));
    assert(reassembled(taken) == reassembled(images.take(last)) + piece);
    if count == 1 {
        assert(reassembled(images.take(0)) =~= Seq::<u8>::empty());
        assert(Seq::<u8>::empty() + piece =~= piece);
    } else {
        lemma_reassembled_prefix(unit, pid, first_counter, last);
        let done = unit.payload.subrange(0, unit.chunk_end(last - 1));
        assert(reassembled(images.take(last)) == head + done);
        assert(piece == unit.payload.subrange(unit.chunk_end(last - 1), unit.chunk_end(last)));
        lemma_subrange_join(unit.payload, 0, unit.chunk_end(last - 1), unit.chunk_end(last));
        assert((head + done) + piece =~= head + (done + piece));
    }
}

/// Taking header, adaptation field and stuffing away from every packet of
/// a unit and joining what is left gives back the PES header followed by
/// the payload of the unit, byte for byte.
pub proof fn lemma_round_trip(unit: PesUnitView, pid: u16, first_counter: u8)
    requires
        unit.refusal(pid) is None,
    ensures
        reassembled(unit.images(pid, first_counter)) == unit.image(),
{
    let images = unit.images(pid, first_counter);
    let count = unit.packet_count();
    lemma_reassembled_prefix(unit, pid, first_counter, count);
    lemma_chunks(unit, count - 1);
    assert(images.take(count) =~= images);
    assert(unit.payload.subrange(0, unit.payload.len() as int) =~= unit.payload);
}

/// Only the low four bits of the first counter matter to the packets of a
/// unit.
pub proof fn lemma_images_from(unit: PesUnitView, pid: u16, first: u8, second: u8)
    requires
        advanced(first, 0) == advanced(second, 0),
    ensures
        unit.images(pid, first) == unit.images(pid, second),
{
    assert forall|index: int| 0 <= index < unit.packet_count() implies unit.plan(
        pid,
        first,
        index,
    ) == unit.plan(pid, second, index) by {
        lemma_advanced_twice(first, 0, index as nat);
        lemma_advanced_twice(second, 0, index as nat);
    }
    assert(unit.images(pid, first) =~= unit.images(pid, second));
}

/// The payloads of two runs of packets, one after the other.
pub proof fn lemma_reassembled_add(first: Seq<Seq<u8>>, second: Seq<Seq<u8>>)
    ensures
        reassembled(first + second) == reassembled(first) + reassembled(second),
    decreases second.len(),
{
    if second.len() == 0 {
        assert(first + second =~= first);
        assert(reassembled(first) + reassembled(second) =~= reassembled(first));
    } else {
        let whole = first + second;
        assert(whole.drop_last() =~= first + second.drop_last());
        assert(whole.last() == second.last());
        lemma_reassembled_add(first, second.drop_last());
        assert(reassembled(whole) =~= reassembled(first) + reassembled(second));
    }
}

/// Over a whole run of units, taking header, adaptation field and stuffing
/// away from every packet and joining what is left gives back the units,
/// each PES header followed by its payload, byte for byte.
pub proof fn lemma_stream_round_trip(units: Seq<PesUnitView>, pid: u16, first_counter: u8)
    requires
        all_accepted(units, pid),
    ensures
        reassembled(stream_images(units, pid, first_counter)) == run_image(units),
    decreases units.len(),
{
    if units.len() == 0 {
        assert(reassembled(Seq::<Seq<u8>>::empty()) =~= Seq::<u8>::empty());
    } else {
        let before = units.drop_last();
        let last = units.last();
        assert(all_accepted(before, pid)) by {
            assert forall|i: int| 0 <= i < before.len() implies (#[trigger] before[i]).refusal(
                pid,
            ) is None by {
                assert(before[i] == units[i]);
            }
        }
        assert(last == units[units.len() - 1]);
        lemma_stream_round_trip(before, pid, first_counter);
        let start = advanced(first_counter, total_packets(before));
        lemma_round_trip(last, pid, start);
        lemma_reassembled_add(stream_images(before, pid, first_counter), last.images(pid, start));
    }
}

/// A unit without payload is sent as a single packet, which holds the PES
/// header behind 170 bytes of adaptation field, or behind 165 when the unit
/// has a decode timestamp.
pub proof fn lemma_empty_unit(unit: PesUnitView, pid: u16, first_counter: u8)
    requires
        unit.refusal(pid) is None,
        unit.payload.len() == 0,
    ensures
        unit.packet_count() == 1,
        payload_of(unit.images(pid, first_counter)[0]) == unit.header().image(),
        unit.plan(pid, first_counter, 0).room() == BODY_SIZE - unit.header_len(),
{
    lemma_plan_fits(unit, pid, first_counter, 0);
    lemma_image_fields(unit.plan(pid, first_counter, 0));
    assert(unit.chunk(0) =~= Seq::<u8>::empty());
    assert(unit.header().image() + unit.chunk(0) =~= unit.header().image());
}

/// A run of units is cut into as many packets as its units together.
pub proof fn lemma_stream_length(units: Seq<PesUnitView>, pid: u16, first_counter: u8)
    ensures
        stream_images(units, pid, first_counter).len() == total_packets(units),
    decreases units.len(),
{
    if units.len() > 0 {
        lemma_stream_length(units.drop_last(), pid, first_counter);
        lemma_packet_count_positive(units.last());
    }
}

/// Over a whole run of units, packet `index` on the identifier carries the
/// counter reached from the first one after `index` steps, whatever the
/// unit boundaries are; every packet carries the identifier.
pub proof fn lemma_stream_counters(
    units: Seq<PesUnitView>,
    pid: u16,
    first_counter: u8,
    index: int,
)
    requires
        all_accepted(units, pid),
        0 <= index < total_packets(units),
    ensures
        stream_images(units, pid, first_counter).len() == total_packets(units),
        pid_of(stream_images(units, pid, first_counter)[index]) == pid,
        counter_of(stream_images(units, pid, first_counter)[index]) == advanced(
            first_counter,
            index as nat,
        ),
    decreases units.len(),
{
    lemma_stream_length(units, pid, first_counter);
    let before = units.drop_last();
    let last = units.last();
    let done = total_packets(before);
    lemma_stream_length(before, pid, first_counter);
    if index < done {
        assert(all_accepted(before, pid)) by {
            assert forall|i: int| 0 <= i < before.len() implies (#[trigger] before[i]).refusal(
                pid,
            ) is None by {
                assert(before[i] == units[i]);
            }
        }
        lemma_stream_counters(before, pid, first_counter, index);
    } else {
        let start = advanced(first_counter, done);
        assert(last == units[units.len() - 1]);
        lemma_packet_fields(last, pid, start, index - done);
        assert(stream_images(units, pid, first_counter)[index] == last.images(pid, start)[index
            - done]);
        lemma_advanced_twice(first_counter, done, (index - done) as nat);
    }
}

/// Over a whole run of units, two packets on the identifier that follow
/// each other never carry the same counter.
pub proof fn lemma_stream_neighbours_differ(
    units: Seq<PesUnitView>,
    pid: u16,
    first_counter: u8,
    index: int,
)
    requires
        all_accepted(units, pid),
        0 <= index,
        index + 1 < total_packets(units),
    ensures
        counter_of(stream_images(units, pid, first_counter)[index + 1]) != counter_of(
            stream_images(units, pid, first_counter)[index],
        ),
{
    lemma_stream_counters(units, pid, first_counter, index);
    lemma_stream_counters(units, pid, first_counter, index + 1);
}

/// What one more unit adds to a run.
proof fn lemma_stream_step(units: Seq<PesUnitView>, pid: u16, first_counter: u8, count: int)
    requires
        0 <= count < units.len(),
    ensures
        total_packets(units.take(count + 1)) == total_packets(units.take(count))
            + units[count].packet_count(),
        stream_images(units.take(count + 1), pid, first_counter) == stream_images(
            units.take(count),
            pid,
            first_counter,
        ) + units[count].images(pid, advanced(first_counter, total_packets(units.take(count)))),
        run_serialises(units.take(count + 1), pid, first_counter) == (run_serialises(
            units.take(count),
            pid,
            first_counter,
        ) && units[count].all_serialise(
            pid,
            advanced(first_counter, total_packets(units.take(count))),
        )),
        run_failure(units.take(count + 1), pid, first_counter) == (match run_failure(
            units.take(count),
            pid,
            first_counter,
        ) {
            Some(reason) => Some(reason),
            None => units[count].failure(
                pid,
                advanced(first_counter, total_packets(units.take(count))),
            ),
        }),
{
    let next = units.take(count + 1);
    assert(next.drop_last() =~= units.take(count));
    assert(next.last() == units[count]);
    lemma_packet_count_positive(units[count]);
}

/// A run fails as its beginning does, if that fails.
proof fn lemma_failure_stays(units: Seq<PesUnitView>, pid: u16, first_counter: u8, count: int)
    requires
        0 <= count <= units.len(),
        run_failure(units.take(count), pid, first_counter) is Some,
    ensures
        run_failure(units, pid, first_counter) == run_failure(
            units.take(count),
            pid,
            first_counter,
        ),
    decreases units.len() - count,
{
    if count == units.len() {
        assert(units.take(count) =~= units);
    } else {
        lemma_stream_step(units, pid, first_counter, count);
        lemma_failure_stays(units, pid, first_counter, count + 1);
    }
}

/// Every beginning of a run that is written as its images is.
proof fn lemma_run_prefix(units: Seq<PesUnitView>, pid: u16, first_counter: u8, count: int)
    requires
        run_serialises(units, pid, first_counter),
        0 <= count <= units.len(),
    ensures
        run_serialises(units.take(count), pid, first_counter),
    decreases units.len() - count,
{
    if count == units.len() {
        assert(units.take(count) =~= units);
    } else {
        lemma_run_prefix(units, pid, first_counter, count + 1);
        lemma_stream_step(units, pid, first_counter, count);
    }
}

/// A run of accepted units stays one when an accepted unit is added.
proof fn lemma_accepted_step(units: Seq<PesUnitView>, pid: u16, count: int)
    requires
        0 <= count < units.len(),
        all_accepted(units.take(count), pid),
        units[count].refusal(pid) is None,
    ensures
        all_accepted(units.take(count + 1), pid),
{
    let next = units.take(count + 1);
    assert forall|i: int| 0 <= i < next.len() implies (#[trigger] next[i]).refusal(pid) is None by {
        if i < count {
            assert(next[i] == units.take(count)[i]);
        }
    }
}

/// The packets of two runs of packets, one after the other.
proof fn lemma_images_of_add(first: Seq<TransportPacket>, second: Seq<TransportPacket>)
    ensures
        images_of(first + second) == images_of(first) + images_of(second),
{
    assert(images_of(first + second) =~= images_of(first) + images_of(second));
}

} // verus!
