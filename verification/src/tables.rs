//! The program tables: the association table, which names the identifier of
//! the program map, and the program map, which names the identifier and the
//! type of the video stream.

use vstd::prelude::*;
use crate::continuity::successor;
use crate::crc::{checksum, crc32};
use crate::encoder::{encode, serialises};
use crate::error::MuxError;
use crate::packet::TransportPacket;
use crate::packetizer::{check_stream_pid, is_stream_pid};
use crate::wire::{PacketPlan, Payload, PayloadView, PlanView};

verus! {

/// Identifier of the packets that carry the association table.
pub const PAT_PID: u16 = 0x0000;

/// Table identifier of the association table.
pub const PAT_TABLE_ID: u8 = 0x00;

/// Table identifier of the program map.
pub const PMT_TABLE_ID: u8 = 0x02;

/// Stream type of H.264 video.
pub const STREAM_TYPE_H264: u8 = 0x1B;

/// The one program of the stream and its one video stream.
#[derive(Clone, Copy, Debug, PartialEq, Eq, Structural)]
pub struct ProgramTables {
    pub transport_stream_id: u16,
    /// Number of the program; 0 is not a program.
    pub program_number: u16,
    /// Identifier of the packets that carry the program map.
    pub pmt_pid: u16,
    /// Identifier of the packets that carry the video stream.
    pub video_pid: u16,
    /// Version of both tables, five bits.
    pub version: u8,
}

/// The four bytes of a checksum, most significant first.
pub open spec fn checksum_image(value: u32) -> Seq<u8> {
    seq![
        (value / 0x100_0000) as u8,
        ((value / 0x1_0000) % 256) as u8,
        ((value / 0x100) % 256) as u8,
        (value % 256) as u8,
    ]
}

/// A section: its body followed by the checksum of the body.
pub open spec fn sealed(body: Seq<u8>) -> Seq<u8> {
    body + checksum_image(checksum(body))
}

impl ProgramTables {
    /// The tables are usable when the program has a number, both identifiers
    /// can carry a stream and differ, and the version fits in five bits.
    pub open spec fn is_valid(self) -> bool {
        &&& self.program_number != 0
        &&& is_stream_pid(self.pmt_pid)
        &&& is_stream_pid(self.video_pid)
        &&& self.pmt_pid != self.video_pid
        &&& self.version < 32
    }

    /// The byte that holds the version and marks the table as in force.
    pub open spec fn version_byte(self) -> u8 {
        (0xC1 + (self.version % 32) * 2) as u8
    }

    /// The association table without its checksum: table identifier,
    /// section length 13, transport stream identifier, version, section
    /// numbers 0 of 0, and the one entry that gives the program its map.
    pub open spec fn pat_body(self) -> Seq<u8> {
        seq![
            PAT_TABLE_ID,
            0xB0u8,
            13u8,
            (self.transport_stream_id / 256) as u8,
            (self.transport_stream_id % 256) as u8,
            self.version_byte(),
            0u8,
            0u8,
            (self.program_number / 256) as u8,
            (self.program_number % 256) as u8,
            (0xE0 + (self.pmt_pid / 256) % 32) as u8,
            (self.pmt_pid % 256) as u8,
        ]
    }

    /// The program map without its checksum: table identifier, section
    /// length 18, program number, version, section numbers 0 of 0, no clock
    /// reference identifier, no program descriptors, and the one entry that
    /// gives the video stream its type and identifier, without descriptors.
    pub open spec fn pmt_body(self) -> Seq<u8> {
        seq![
            PMT_TABLE_ID,
            0xB0u8,
            18u8,
            (self.program_number / 256) as u8,
            (self.program_number % 256) as u8,
            self.version_byte(),
            0u8,
            0u8,
            0xFFu8,
            0xFFu8,
            0xF0u8,
            0u8,
            STREAM_TYPE_H264,
            (0xE0 + (self.video_pid / 256) % 32) as u8,
            (self.video_pid % 256) as u8,
            0xF0u8,
            0u8,
        ]
    }

    /// The association table section.
    pub open spec fn pat_section(self) -> Seq<u8> {
        sealed(self.pat_body())
    }

    /// The program map section.
    pub open spec fn pmt_section(self) -> Seq<u8> {
        sealed(self.pmt_body())
    }

    /// Whether the tables are usable.
    pub fn check(&self) -> (ok: bool)
        ensures
            ok == self.is_valid(),
    {
        self.program_number != 0 && check_stream_pid(self.pmt_pid) && check_stream_pid(
            self.video_pid,
        ) && self.pmt_pid != self.video_pid && self.version < 32
    }

    /// Builds the association table section.
    pub fn build_pat(&self) -> (section: Vec<u8>)
        ensures
            section@ == self.pat_section(),
    {
        let mut section: Vec<u8> = Vec::with_capacity(16);
        section.push(PAT_TABLE_ID);
        section.push(0xB0);
        section.push(13);
        section.push((self.transport_stream_id / 256) as u8);
        section.push((self.transport_stream_id % 256) as u8);
        section.push(0xC1 + (self.version % 32) * 2);
        section.push(0);
        section.push(0);
        section.push((self.program_number / 256) as u8);
        section.push((self.program_number % 256) as u8);
        section.push(0xE0 + ((self.pmt_pid / 256) % 32) as u8);
        section.push((self.pmt_pid % 256) as u8);
        assert(section@ =~= self.pat_body());
        seal(section)
    }

    /// Builds the program map section.
    pub fn build_pmt(&self) -> (section: Vec<u8>)
        ensures
            section@ == self.pmt_section(),
    {
        let mut section: Vec<u8> = Vec::with_capacity(21);
        section.push(PMT_TABLE_ID);
        section.push(0xB0);
        section.push(18);
        section.push((self.program_number / 256) as u8);
        section.push((self.program_number % 256) as u8);
        section.push(0xC1 + (self.version % 32) * 2);
        section.push(0);
        section.push(0);
        section.push(0xFF);
        section.push(0xFF);
        section.push(0xF0);
        section.push(0);
        section.push(STREAM_TYPE_H264);
        section.push(0xE0 + ((self.video_pid / 256) % 32) as u8);
        section.push((self.video_pid % 256) as u8);
        section.push(0xF0);
        section.push(0);
        assert(section@ =~= self.pmt_body());
        seal(section)
    }
}

/// Appends the checksum of `body` to it.
pub fn seal(body: Vec<u8>) -> (section: Vec<u8>)
    ensures
        section@ == sealed(body@),
{
    let value = crc32(&body);
    let mut section = body;
    section.push((value / 0x100_0000) as u8);
    section.push(((value / 0x1_0000) % 256) as u8);
    section.push(((value / 0x100) % 256) as u8);
    section.push((value % 256) as u8);
    assert(section@ =~= sealed(body@));
    section
}

/// Emits the two tables again and again, so that a receiver that tunes in
/// late finds the stream. It keeps the continuity counters of the two table
/// identifiers itself.
#[derive(Clone, Copy, Debug, PartialEq, Eq, Structural)]
pub struct ProgramTablesEmitter {
    pub tables: ProgramTables,
    /// Number of stream packets after which the tables are due again.
    pub interval: u64,
    /// Packet count at which the tables were emitted last.
    pub last_emitted_at: Option<u64>,
    /// Counter of the next association table packet.
    pub pat_counter: u8,
    /// Counter of the next program map packet.
    pub pmt_counter: u8,
}

impl ProgramTablesEmitter {
    /// The tables are due when they have never been emitted, and again once
    /// `interval` packets have been counted since they were.
    pub open spec fn is_due(self, packet_count: u64) -> bool {
        match self.last_emitted_at {
            None => true,
            Some(last) => packet_count >= last + self.interval,
        }
    }

    /// The packet that carries the association table.
    pub open spec fn pat_plan(self) -> PlanView {
        PlanView {
            pid: PAT_PID,
            counter: self.pat_counter % 16,
            random_access: false,
            payload: PayloadView::Section { data: self.tables.pat_section() },
        }
    }

    /// The packet that carries the program map.
    pub open spec fn pmt_plan(self) -> PlanView {
        PlanView {
            pid: self.tables.pmt_pid,
            counter: self.pmt_counter % 16,
            random_access: false,
            payload: PayloadView::Section { data: self.tables.pmt_section() },
        }
    }

    /// Whether the tables can be emitted: they are usable and both table
    /// packets are written as their images.
    pub open spec fn can_emit(self) -> bool {
        self.tables.is_valid() && serialises(self.pat_plan()) && serialises(self.pmt_plan())
    }

    /// The emitter after it has emitted the tables at `packet_count`.
    pub open spec fn after_emission(self, packet_count: u64) -> ProgramTablesEmitter {
        ProgramTablesEmitter {
            last_emitted_at: Some(packet_count),
            pat_counter: successor(self.pat_counter % 16),
            pmt_counter: successor(self.pmt_counter % 16),
            ..self
        }
    }

    /// An emitter that has not emitted anything yet; `Configuration` if
    /// the tables are not usable.
    pub fn new(tables: ProgramTables, interval: u64) -> (r: Result<ProgramTablesEmitter, MuxError>)
        ensures
            match r {
                Ok(emitter) => tables.is_valid() && emitter == (ProgramTablesEmitter {
                    tables,
                    interval,
                    last_emitted_at: None,
                    pat_counter: 0,
                    pmt_counter: 0,
                }),
                Err(e) => !tables.is_valid() && e == MuxError::Configuration,
            },
    {
        if tables.check() {
            Ok(ProgramTablesEmitter { tables, interval, last_emitted_at: None, pat_counter: 0, pmt_counter: 0 })
        } else {
            Err(MuxError::Configuration)
        }
    }

    /// Whether the tables are due at `packet_count`.
    pub fn due(&self, packet_count: u64) -> (due: bool)
        ensures
            due == self.is_due(packet_count),
    {
        match self.last_emitted_at {
            None => true,
            Some(last) => match last.checked_add(self.interval) {
                Some(next) => packet_count >= next,
                None => false,
            },
        }
    }

    /// Serialises the two table packets without changing the emitter. The
    /// call succeeds exactly when the tables can be emitted.
    pub fn render(&self) -> (r: Result<(TransportPacket, TransportPacket), MuxError>)
        ensures
            r is Ok <==> self.can_emit(),
            match r {
                Ok((pat, pmt)) => self.tables.is_valid() && pat@ == self.pat_plan().image() && pmt@
                    == self.pmt_plan().image(),
                Err(e) => if self.tables.is_valid() {
                    e == MuxError::Framing
                } else {
                    e == MuxError::Configuration
                },
            },
    {
        if !self.tables.check() {
            return Err(MuxError::Configuration);
        }
        let pat_plan = PacketPlan {
            pid: PAT_PID,
            counter: self.pat_counter % 16,
            random_access: false,
            payload: Payload::Section { data: self.tables.build_pat() },
        };
        let pmt_plan = PacketPlan {
            pid: self.tables.pmt_pid,
            counter: self.pmt_counter % 16,
            random_access: false,
            payload: Payload::Section { data: self.tables.build_pmt() },
        };
        let pat = encode(&pat_plan)?;
        let pmt = encode(&pmt_plan)?;
        Ok((pat, pmt))
    }

    /// Records that the tables were emitted at `packet_count`.
    pub fn commit(&mut self, packet_count: u64)
        ensures
            *final(self) == old(self).after_emission(packet_count),
    {
        self.last_emitted_at = Some(packet_count);
        self.pat_counter = (self.pat_counter % 16 + 1) % 16;
        self.pmt_counter = (self.pmt_counter % 16 + 1) % 16;
    }

    /// Called with the number of stream packets sent so far; hands out the
    /// association table packet and the program map packet when they are
    /// due, and nothing when they are not.
    ///
    /// When the tables are handed out, both table counters move on by one
    /// and the packet count is remembered. Otherwise the emitter stays as it
    /// was: when nothing is due, and when the tables are not usable
    /// (`Configuration`) or are not written as their images (`Framing`). The
    /// call fails exactly when the tables are due and cannot be emitted.
    pub fn tick(&mut self, packet_count: u64) -> (r: Result<
        Option<(TransportPacket, TransportPacket)>,
        MuxError,
    >)
        ensures
            r is Err <==> old(self).is_due(packet_count) && !old(self).can_emit(),
            match r {
                Ok(None) => !old(self).is_due(packet_count) && *final(self) == *old(self),
                Ok(Some((pat, pmt))) => {
                    &&& old(self).is_due(packet_count)
                    &&& old(self).tables.is_valid()
                    &&& pat@ == old(self).pat_plan().image()
                    &&& pmt@ == old(self).pmt_plan().image()
                    &&& *final(self) == old(self).after_emission(packet_count)
                },
                Err(e) => {
                    &&& old(self).is_due(packet_count)
                    &&& *final(self) == *old(self)
                    &&& if old(self).tables.is_valid() {
                        e == MuxError::Framing
                    } else {
                        e == MuxError::Configuration
                    }
                },
            },
    {
        if !self.due(packet_count) {
            return Ok(None);
        }
        let pair = self.render()?;
        self.commit(packet_count);
        Ok(Some(pair))
    }
}

} // verus!
