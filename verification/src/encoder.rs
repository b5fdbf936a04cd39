//! Serialisation of planned packets by the `mpeg2ts` crate.
//!
//! What `mpeg2ts` writes for a plan is a function of the plan, and it has a
//! name here, [`serialized`]. Nothing else is assumed of it: [`encode`]
//! releases a packet only after comparing it, byte for byte, with the image
//! of its plan, so it succeeds exactly for the plans that `mpeg2ts` writes
//! as their image.

use vstd::prelude::*;
use mpeg2ts::es::StreamId;
use mpeg2ts::pes::PesHeader as PesFields;
use mpeg2ts::time::Timestamp;
use mpeg2ts::ts::payload::{Bytes, Pes, Section};
use mpeg2ts::ts::TransportScramblingControl::NotScrambled;
use mpeg2ts::ts::TsPayload::{PesContinuation, PesStart};
use mpeg2ts::ts::{
    AdaptationField, ContinuityCounter, Pid, TsHeader, TsPacket, TsPacketWriter, TsPayload,
    WriteTsPacket,
};
use crate::error::MuxError;
use crate::packet::TransportPacket;
use crate::wire::{PacketPlan, Payload, PayloadView, PesHeader, PlanView};

verus! {

/// `mpeg2ts::Error`, the error of every fallible call into `mpeg2ts`.
#[verifier::external_type_specification]
#[verifier::external_body]
pub struct ExError(mpeg2ts::Error);

/// The bytes that `mpeg2ts` writes for a packet with the fields of `plan`,
/// or `None` where it refuses the packet. Each of the three wrappers below
/// hands `WriteTsPacket::write_ts_packet` a packet built of plain values
/// and a fresh buffer, so that what comes back depends on the plan alone.
pub uninterp spec fn serialized(plan: PlanView) -> Option<Seq<u8>>;

/// Whether `mpeg2ts` writes for a plan exactly its image.
pub open spec fn serialises(plan: PlanView) -> bool {
    plan.fits() && serialized(plan) == Some(plan.image())
}

/// The plan of a first packet with the given fields.
pub open spec fn start_plan(
    pid: u16,
    counter: u8,
    random_access: bool,
    header: PesHeader,
    data: Seq<u8>,
) -> PlanView {
    PlanView { pid, counter, random_access, payload: PayloadView::PesStart { header, data } }
}

/// The plan of a further packet with the given fields.
pub open spec fn continuation_plan(pid: u16, counter: u8, random_access: bool, data: Seq<u8>) -> PlanView {
    PlanView { pid, counter, random_access, payload: PayloadView::PesContinuation { data } }
}

/// The plan of a section packet with the given fields.
pub open spec fn section_plan(pid: u16, counter: u8, random_access: bool, data: Seq<u8>) -> PlanView {
    PlanView { pid, counter, random_access, payload: PayloadView::Section { data } }
}

/// Writes the first packet of a PES unit with `Pid::new`,
/// `ContinuityCounter::from_u8`, `StreamId::new`, `Timestamp::new`,
/// `Bytes::new` and `TsPacketWriter`'s `write_ts_packet`, into a fresh
/// buffer. The flags that the muxer never changes are handed in and must
/// have the values of the image: error indicator, priorities, discontinuity
/// and copyright off, the first-generation bit on. Beside the call stand
/// only what has no plain form: no scrambling and no optional parts.
/// Claimed: the outcome is the one that [`serialized`] names for the plan
/// with these fields.
#[verifier::external_body]
fn write_start(
    pid: u16,
    counter: u8,
    transport_error_indicator: bool,
    transport_priority: bool,
    random_access: Option<bool>,
    discontinuity_indicator: bool,
    es_priority_indicator: bool,
    stream_id: u8,
    priority: bool,
    data_alignment_indicator: bool,
    copyright: bool,
    original_or_copy: bool,
    pts: u64,
    dts: Option<u64>,
    pes_packet_len: u16,
    data: &Vec<u8>,
) -> (r: Result<Vec<u8>, mpeg2ts::Error>)
    requires
        random_access != Some(false),
        !transport_error_indicator && !transport_priority,
        !discontinuity_indicator && !es_priority_indicator,
        !priority && !copyright && original_or_copy,
    ensures
        match r {
            Ok(bytes) => serialized(
                start_plan(
                    pid,
                    counter,
                    random_access is Some,
                    PesHeader {
                        stream_id,
                        data_alignment: data_alignment_indicator,
                        pts,
                        dts,
                        packet_length: pes_packet_len,
                    },
                    data@,
                ),
            ) == Some(bytes@),
            Err(_) => serialized(
                start_plan(
                    pid,
                    counter,
                    random_access is Some,
                    PesHeader {
                        stream_id,
                        data_alignment: data_alignment_indicator,
                        pts,
                        dts,
                        packet_length: pes_packet_len,
                    },
                    data@,
                ),
            ) is None,
        },
{
    let mut out = vec![];
    TsPacketWriter::new(&mut out).write_ts_packet(&TsPacket {
        header: TsHeader { transport_error_indicator, transport_priority, pid: Pid::new(pid)?, transport_scrambling_control: NotScrambled, continuity_counter: ContinuityCounter::from_u8(counter)? },
        adaptation_field: random_access.map(|random_access_indicator| AdaptationField { random_access_indicator, discontinuity_indicator, es_priority_indicator, pcr: None, opcr: None, splice_countdown: None, transport_private_data: vec![], extension: None }),
        payload: Some(PesStart(Pes { header: PesFields { stream_id: StreamId::new(stream_id), priority, data_alignment_indicator, copyright, original_or_copy, pts: Some(Timestamp::new(pts)?), dts: dts.map(Timestamp::new).transpose()?, escr: None }, pes_packet_len, data: Bytes::new(data)? })),
    })?;
    Ok(out)
}

/// Writes a further packet of a PES unit with `Pid::new`,
/// `ContinuityCounter::from_u8`, `Bytes::new` and `TsPacketWriter`'s
/// `write_ts_packet`, into a fresh buffer, with the flags handed in as for
/// [`write_start`]. Claimed: the outcome is the one that [`serialized`]
/// names for the plan with these fields.
#[verifier::external_body]
fn write_continuation(
    pid: u16,
    counter: u8,
    transport_error_indicator: bool,
    transport_priority: bool,
    random_access: Option<bool>,
    discontinuity_indicator: bool,
    es_priority_indicator: bool,
    data: &Vec<u8>,
) -> (r: Result<Vec<u8>, mpeg2ts::Error>)
    requires
        random_access != Some(false),
        !transport_error_indicator && !transport_priority,
        !discontinuity_indicator && !es_priority_indicator,
    ensures
        match r {
            Ok(bytes) => serialized(continuation_plan(pid, counter, random_access is Some, data@))
                == Some(bytes@),
            Err(_) => serialized(continuation_plan(pid, counter, random_access is Some, data@))
                is None,
        },
{
    let mut out = vec![];
    TsPacketWriter::new(&mut out).write_ts_packet(&TsPacket {
        header: TsHeader { transport_error_indicator, transport_priority, pid: Pid::new(pid)?, transport_scrambling_control: NotScrambled, continuity_counter: ContinuityCounter::from_u8(counter)? },
        adaptation_field: random_access.map(|random_access_indicator| AdaptationField { random_access_indicator, discontinuity_indicator, es_priority_indicator, pcr: None, opcr: None, splice_countdown: None, transport_private_data: vec![], extension: None }),
        payload: Some(PesContinuation(Bytes::new(data)?)),
    })?;
    Ok(out)
}

/// Writes a section packet, the section behind a zero pointer byte, with
/// `Pid::new`, `ContinuityCounter::from_u8`, `Bytes::new` and
/// `TsPacketWriter`'s `write_ts_packet`, into a fresh buffer, with the flags
/// handed in as for [`write_start`]. Claimed: the outcome is the one that
/// [`serialized`] names for the plan with these fields.
#[verifier::external_body]
fn write_section(
    pid: u16,
    counter: u8,
    transport_error_indicator: bool,
    transport_priority: bool,
    random_access: Option<bool>,
    discontinuity_indicator: bool,
    es_priority_indicator: bool,
    pointer_field: u8,
    data: &Vec<u8>,
) -> (r: Result<Vec<u8>, mpeg2ts::Error>)
    requires
        random_access != Some(false),
        !transport_error_indicator && !transport_priority,
        !discontinuity_indicator && !es_priority_indicator,
        pointer_field == 0,
    ensures
        match r {
            Ok(bytes) => serialized(section_plan(pid, counter, random_access is Some, data@))
                == Some(bytes@),
            Err(_) => serialized(section_plan(pid, counter, random_access is Some, data@)) is None,
        },
{
    let mut out = vec![];
    TsPacketWriter::new(&mut out).write_ts_packet(&TsPacket {
        header: TsHeader { transport_error_indicator, transport_priority, pid: Pid::new(pid)?, transport_scrambling_control: NotScrambled, continuity_counter: ContinuityCounter::from_u8(counter)? },
        adaptation_field: random_access.map(|random_access_indicator| AdaptationField { random_access_indicator, discontinuity_indicator, es_priority_indicator, pcr: None, opcr: None, splice_countdown: None, transport_private_data: vec![], extension: None }),
        payload: Some(TsPayload::Section(Section { pointer_field, data: Bytes::new(data)? })),
    })?;
    Ok(out)
}

/// Serialises the packet that `plan` describes.
///
/// The result is the packet whose bytes are exactly the image of the plan,
/// and it is given exactly when the plan fits in one packet and `mpeg2ts`
/// writes for it that image. Every other outcome is `Framing`.
pub fn encode(plan: &PacketPlan) -> (r: Result<TransportPacket, MuxError>)
    ensures
        match r {
            Ok(packet) => plan@.fits() && packet@ == plan@.image(),
            Err(e) => e == MuxError::Framing,
        },
        r is Ok <==> plan@.fits() && serialized(plan@) == Some(plan@.image()),
{
    let flag = if plan.random_access {
        Some(true)
    } else {
        None
    };
    let written = match &plan.payload {
        Payload::PesStart { header, data } => {
            assert(plan@ == start_plan(plan.pid, plan.counter, plan.random_access, *header, data@));
            write_start(
                plan.pid,
                plan.counter,
                false,
                false,
                flag,
                false,
                false,
                header.stream_id,
                false,
                header.data_alignment,
                false,
                true,
                header.pts,
                header.dts,
                header.packet_length,
                data,
            )
        },
        Payload::PesContinuation { data } => write_continuation(
            plan.pid,
            plan.counter,
            false,
            false,
            flag,
            false,
            false,
            data,
        ),
        Payload::Section { data } => write_section(
            plan.pid,
            plan.counter,
            false,
            false,
            flag,
            false,
            false,
            0,
            data,
        ),
    };
    match written {
        Ok(bytes) => TransportPacket::conforming(bytes, plan),
        Err(_) => Err(MuxError::Framing),
    }
}

} // verus!
