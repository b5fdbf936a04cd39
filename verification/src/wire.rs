//! The wire image of a transport packet: which 188 bytes stand for a packet
//! with a given identifier, counter, flags and payload.
//!
//! A packet is laid out as a four-byte header, an adaptation field that
//! carries the random-access flag and all the stuffing, and the payload. The
//! payload always ends at the last byte of the packet.

use vstd::prelude::*;
use crate::clock::MAX_TIMESTAMP;

verus! {

/// Size of every transport packet.
pub const PACKET_SIZE: usize = 188;

/// First byte of every transport packet.
pub const SYNC_BYTE: u8 = 0x47;

/// Bytes of a packet that follow its four-byte header.
pub const BODY_SIZE: usize = 184;

/// Largest packet identifier.
pub const MAX_PID: u16 = 0x1FFF;

/// Largest continuity counter.
pub const MAX_COUNTER: u8 = 15;

/// The fields of a PES header that this muxer sets.
#[derive(Clone, Copy, Debug)]
pub struct PesHeader {
    /// Stream identifier byte, in the audio or video range.
    pub stream_id: u8,
    /// Whether the payload starts at an access unit boundary.
    pub data_alignment: bool,
    /// Presentation timestamp, 33 bits.
    pub pts: u64,
    /// Decode timestamp, 33 bits, when it differs from the presentation time.
    pub dts: Option<u64>,
    /// Value of the 16-bit packet length field; 0 leaves the length open.
    pub packet_length: u16,
}

/// What a packet carries after its header and adaptation field.
#[derive(Debug)]
pub enum Payload {
    /// The PES header and the first bytes of an access unit.
    PesStart { header: PesHeader, data: Vec<u8> },
    /// Further bytes of the access unit begun by an earlier packet.
    PesContinuation { data: Vec<u8> },
    /// One complete table section, preceded on the wire by a zero pointer byte.
    Section { data: Vec<u8> },
}

/// A transport packet before it is serialised.
#[derive(Debug)]
pub struct PacketPlan {
    pub pid: u16,
    pub counter: u8,
    /// Whether the packet carries the random-access flag.
    pub random_access: bool,
    pub payload: Payload,
}

/// Mathematical form of [`Payload`].
pub enum PayloadView {
    PesStart { header: PesHeader, data: Seq<u8> },
    PesContinuation { data: Seq<u8> },
    Section { data: Seq<u8> },
}

/// Mathematical form of [`PacketPlan`].
pub struct PlanView {
    pub pid: u16,
    pub counter: u8,
    pub random_access: bool,
    pub payload: PayloadView,
}

impl View for Payload {
    type V = PayloadView;

    open spec fn view(&self) -> PayloadView {
        match *self {
            Payload::PesStart { header, data } => PayloadView::PesStart { header, data: data@ },
            Payload::PesContinuation { data } => PayloadView::PesContinuation { data: data@ },
            Payload::Section { data } => PayloadView::Section { data: data@ },
        }
    }
}

impl View for PacketPlan {
    type V = PlanView;

    open spec fn view(&self) -> PlanView {
        PlanView {
            pid: self.pid,
            counter: self.counter,
            random_access: self.random_access,
            payload: self.payload@,
        }
    }
}

/// The five bytes of a timestamp: a four-bit marker, then the 33 bits in
/// groups of 3, 15 and 15, each group closed by a set bit.
pub open spec fn timestamp_image(marker: u8, ticks: u64) -> Seq<u8> {
    seq![
        (marker * 16 + (ticks / 0x4000_0000) * 2 + 1) as u8,
        ((ticks / 0x40_0000) % 256) as u8,
        (((ticks / 0x8000) % 128) * 2 + 1) as u8,
        ((ticks / 128) % 256) as u8,
        ((ticks % 128) * 2 + 1) as u8,
    ]
}

impl PesHeader {
    /// Whether the timestamps fit in 33 bits.
    pub open spec fn is_valid_time(self) -> bool {
        &&& self.pts <= MAX_TIMESTAMP
        &&& self.dts matches Some(dts) ==> dts <= MAX_TIMESTAMP
    }

    /// A header is usable when its stream identifier is one for audio or
    /// video, the ones whose PES header has the optional part that carries
    /// timestamps, and its timestamps fit in 33 bits.
    pub open spec fn is_valid(self) -> bool {
        0xC0 <= self.stream_id <= 0xEF && self.is_valid_time()
    }

    /// Number of bytes of the serialised header.
    pub open spec fn image_len(self) -> nat {
        if self.dts is Some {
            19
        } else {
            14
        }
    }

    /// The first nine bytes: start code, stream identifier, packet length,
    /// two flag bytes (marker bits, alignment, first-generation bit; which
    /// timestamps follow) and the length of what follows.
    pub open spec fn fixed_image(self) -> Seq<u8> {
        seq![
            0u8,
            0u8,
            1u8,
            self.stream_id,
            (self.packet_length / 256) as u8,
            (self.packet_length % 256) as u8,
            if self.data_alignment { 0x85u8 } else { 0x81u8 },
            if self.dts is Some { 0xC0u8 } else { 0x80u8 },
            if self.dts is Some { 10u8 } else { 5u8 },
        ]
    }

    /// The serialised header.
    pub open spec fn image(self) -> Seq<u8> {
        match self.dts {
            Some(dts) => self.fixed_image() + timestamp_image(3, self.pts) + timestamp_image(1, dts),
            None => self.fixed_image() + timestamp_image(2, self.pts),
        }
    }
}

impl PayloadView {
    /// The bytes that the payload occupies in its packet.
    pub open spec fn image(self) -> Seq<u8> {
        match self {
            PayloadView::PesStart { header, data } => header.image() + data,
            PayloadView::PesContinuation { data } => data,
            PayloadView::Section { data } => seq![0u8] + data,
        }
    }

    /// Whether a new PES unit or section begins in the packet.
    pub open spec fn starts_unit(self) -> bool {
        !(self is PesContinuation)
    }

    /// A payload is usable when the PES header in it, if any, is.
    pub open spec fn is_valid(self) -> bool {
        self matches PayloadView::PesStart { header, .. } ==> header.is_valid()
    }
}

/// The four header bytes: sync byte; start indicator and the high bits of
/// the identifier; its low bits; adaptation control and counter. The error
/// indicator, the priority bit and the scrambling control are always clear.
pub open spec fn header_image(pid: u16, starts_unit: bool, has_adaptation: bool, counter: u8) -> Seq<u8> {
    seq![
        0x47u8,
        ((if starts_unit { 64int } else { 0int }) + pid / 256) as u8,
        (pid % 256) as u8,
        ((if has_adaptation { 48int } else { 16int }) + counter) as u8,
    ]
}

/// `count` stuffing bytes.
pub open spec fn stuffing(count: nat) -> Seq<u8> {
    Seq::new(count, |i: int| 0xFFu8)
}

/// The adaptation field that fills `room` bytes: a length byte, then, if
/// there is room, a flag byte and stuffing of `0xFF`.
pub open spec fn adaptation_image(random_access: bool, room: int) -> Seq<u8> {
    if room <= 0 {
        Seq::<u8>::empty()
    } else if room == 1 {
        seq![0u8]
    } else {
        seq![(room - 1) as u8, if random_access { 0x40u8 } else { 0u8 }] + stuffing(
            (room - 2) as nat,
        )
    }
}

impl PlanView {
    /// Bytes between the header and the payload.
    pub open spec fn room(self) -> int {
        BODY_SIZE - self.payload.image().len()
    }

    /// A plan fits when its fields are in range, it has at least one byte
    /// of payload, and the payload, with the flag byte of a random-access
    /// packet, is no longer than the body.
    pub open spec fn fits(self) -> bool {
        &&& self.pid <= MAX_PID
        &&& self.counter <= MAX_COUNTER
        &&& self.payload.is_valid()
        &&& self.payload.image().len() > 0
        &&& self.room() >= (if self.random_access { 2int } else { 0int })
    }

    /// The 188 bytes of the packet.
    #[verifier::opaque]
    pub open spec fn image(self) -> Seq<u8> {
        header_image(self.pid, self.payload.starts_unit(), self.room() > 0, self.counter)
            + adaptation_image(self.random_access, self.room()) + self.payload.image()
    }
}

/// Every packet that fits is 188 bytes long and begins with the sync byte.
pub proof fn lemma_image_framing(plan: PlanView)
    requires
        plan.fits(),
    ensures
        plan.image().len() == PACKET_SIZE,
        plan.image()[0] == SYNC_BYTE,
{
    reveal(PlanView::image);
}

} // verus!
