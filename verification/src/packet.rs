//! Transport packets as byte records: what their header fields are and what
//! they carry.

use vstd::prelude::*;
use crate::conformance::is_image_of;
use crate::error::MuxError;
use crate::wire::{
    adaptation_image, header_image, PacketPlan, PlanView, MAX_COUNTER, PACKET_SIZE, SYNC_BYTE,
};

verus! {

/// Packet identifier stored in a packet.
pub open spec fn pid_of(bytes: Seq<u8>) -> u16 {
    ((bytes[1] % 32) * 256 + bytes[2]) as u16
}

/// Continuity counter stored in a packet.
pub open spec fn counter_of(bytes: Seq<u8>) -> u8 {
    bytes[3] % 16
}

/// Whether a PES unit or a section begins in the packet.
pub open spec fn starts_unit_of(bytes: Seq<u8>) -> bool {
    (bytes[1] / 64) % 2 == 1
}

/// Whether the packet is marked as damaged in transport.
pub open spec fn error_indicator_of(bytes: Seq<u8>) -> bool {
    bytes[1] / 128 == 1
}

/// Whether the packet is marked as more urgent than others of its stream.
pub open spec fn priority_of(bytes: Seq<u8>) -> bool {
    (bytes[1] / 32) % 2 == 1
}

/// The two scrambling control bits; 0 means that the payload is in the clear.
pub open spec fn scrambling_of(bytes: Seq<u8>) -> u8 {
    bytes[3] / 64
}

/// Whether the packet has an adaptation field.
pub open spec fn has_adaptation(bytes: Seq<u8>) -> bool {
    (bytes[3] / 32) % 2 == 1
}

/// Whether the packet has a payload.
pub open spec fn has_payload(bytes: Seq<u8>) -> bool {
    (bytes[3] / 16) % 2 == 1
}

/// Index of the first payload byte.
pub open spec fn payload_offset(bytes: Seq<u8>) -> int {
    if has_adaptation(bytes) {
        5 + bytes[4]
    } else {
        4
    }
}

/// What is left of a packet when header, adaptation field and stuffing
/// are taken away.
pub open spec fn payload_of(bytes: Seq<u8>) -> Seq<u8> {
    if has_payload(bytes) {
        bytes.subrange(payload_offset(bytes), PACKET_SIZE as int)
    } else {
        Seq::<u8>::empty()
    }
}

/// Whether the packet is flagged as a point where decoding can start.
pub open spec fn random_access_of(bytes: Seq<u8>) -> bool {
    has_adaptation(bytes) && bytes[4] > 0 && (bytes[5] / 64) % 2 == 1
}

/// The shape every transport packet has: 188 bytes, the sync byte first,
/// a payload or an adaptation field or both, and an adaptation field that
/// leaves room for at least one byte of payload or, without a payload, ends
/// where the packet ends.
pub open spec fn is_well_formed(bytes: Seq<u8>) -> bool {
    &&& bytes.len() == PACKET_SIZE
    &&& bytes[0] == SYNC_BYTE
    &&& has_adaptation(bytes) || has_payload(bytes)
    &&& has_adaptation(bytes) ==> if has_payload(bytes) {
        bytes[4] <= 182
    } else {
        bytes[4] == 183
    }
}

/// What the fields of a packet are when the packet is the image of a plan.
pub proof fn lemma_image_fields(plan: PlanView)
    requires
        plan.fits(),
    ensures
        is_well_formed(plan.image()),
        pid_of(plan.image()) == plan.pid,
        counter_of(plan.image()) == plan.counter,
        starts_unit_of(plan.image()) == plan.payload.starts_unit(),
        random_access_of(plan.image()) == plan.random_access,
        has_payload(plan.image()),
        has_adaptation(plan.image()) == (plan.room() > 0),
        payload_of(plan.image()) == plan.payload.image(),
        !error_indicator_of(plan.image()),
        !priority_of(plan.image()),
        scrambling_of(plan.image()) == 0,
{
    reveal(PlanView::image);
    let image = plan.image();
    let room = plan.room();
    let head = header_image(plan.pid, plan.payload.starts_unit(), room > 0, plan.counter);
    let field = adaptation_image(plan.random_access, room);
    assert(image.len() == PACKET_SIZE);
    assert(image[0] == head[0]);
    assert(image[1] == head[1]);
    assert(image[2] == head[2]);
    assert(image[3] == head[3]);
    if room > 0 {
        assert(image[4] == field[0]);
        if room > 1 {
            assert(image[5] == field[1]);
        }
    }
    assert(payload_offset(image) == 4 + room);
    assert(payload_of(image) =~= plan.payload.image());
}

/// A transport packet: a record of 188 bytes with the shape described by
/// [`is_well_formed`].
#[derive(Debug)]
pub struct TransportPacket {
    bytes: Vec<u8>,
}

impl View for TransportPacket {
    type V = Seq<u8>;

    closed spec fn view(&self) -> Seq<u8> {
        self.bytes@
    }
}

impl TransportPacket {
    #[verifier::type_invariant]
    spec fn shape(self) -> bool {
        is_well_formed(self.bytes@)
    }

    /// Accepts `bytes` as a packet if they have the shape of one.
    pub fn parse(bytes: Vec<u8>) -> (r: Option<TransportPacket>)
        ensures
            r is Some <==> is_well_formed(bytes@),
            r matches Some(packet) ==> packet@ == bytes@,
    {
        if bytes.len() != PACKET_SIZE || bytes[0] != SYNC_BYTE {
            return None;
        }
        let adaptation = (bytes[3] / 32) % 2 == 1;
        let payload = (bytes[3] / 16) % 2 == 1;
        if !adaptation && !payload {
            return None;
        }
        if adaptation {
            if payload && bytes[4] > 182 {
                return None;
            }
            if !payload && bytes[4] != 183 {
                return None;
            }
        }
        Some(TransportPacket { bytes })
    }

    /// Accepts `bytes` as the packet that `plan` describes, and refuses
    /// them with `Framing` if they are anything else.
    pub fn conforming(bytes: Vec<u8>, plan: &PacketPlan) -> (r: Result<TransportPacket, MuxError>)
        ensures
            match r {
                Ok(packet) => plan@.fits() && packet@ == plan@.image() && bytes@ == plan@.image(),
                Err(e) => e == MuxError::Framing && !(plan@.fits() && bytes@ == plan@.image()),
            },
    {
        if is_image_of(&bytes, plan) {
            proof {
                lemma_image_fields(plan@);
            }
            Ok(TransportPacket { bytes })
        } else {
            Err(MuxError::Framing)
        }
    }

    /// The packet identifier.
    pub fn pid(&self) -> (pid: u16)
        ensures
            pid == pid_of(self@),
    {
        proof {
            use_type_invariant(self);
        }
        (self.bytes[1] % 32) as u16 * 256 + self.bytes[2] as u16
    }

    /// The continuity counter.
    pub fn continuity_counter(&self) -> (counter: u8)
        ensures
            counter == counter_of(self@),
            counter <= MAX_COUNTER,
    {
        proof {
            use_type_invariant(self);
        }
        self.bytes[3] % 16
    }

    /// Whether a PES unit or a section begins in the packet.
    pub fn payload_unit_start(&self) -> (starts: bool)
        ensures
            starts == starts_unit_of(self@),
    {
        proof {
            use_type_invariant(self);
        }
        (self.bytes[1] / 64) % 2 == 1
    }

    /// Whether the packet is marked as damaged in transport.
    pub fn transport_error(&self) -> (marked: bool)
        ensures
            marked == error_indicator_of(self@),
    {
        proof {
            use_type_invariant(self);
        }
        self.bytes[1] / 128 == 1
    }

    /// Whether the packet is marked as more urgent than others of its
    /// stream.
    pub fn transport_priority(&self) -> (marked: bool)
        ensures
            marked == priority_of(self@),
    {
        proof {
            use_type_invariant(self);
        }
        (self.bytes[1] / 32) % 2 == 1
    }

    /// The two scrambling control bits.
    pub fn scrambling_control(&self) -> (bits: u8)
        ensures
            bits == scrambling_of(self@),
            bits <= 3,
    {
        proof {
            use_type_invariant(self);
        }
        self.bytes[3] / 64
    }

    /// Whether the packet has an adaptation field.
    pub fn has_adaptation_field(&self) -> (present: bool)
        ensures
            present == has_adaptation(self@),
    {
        proof {
            use_type_invariant(self);
        }
        (self.bytes[3] / 32) % 2 == 1
    }

    /// Whether the packet has a payload.
    pub fn has_payload(&self) -> (present: bool)
        ensures
            present == has_payload(self@),
    {
        proof {
            use_type_invariant(self);
        }
        (self.bytes[3] / 16) % 2 == 1
    }

    /// Whether the packet is flagged as a point where decoding can start.
    pub fn random_access(&self) -> (flagged: bool)
        ensures
            flagged == random_access_of(self@),
    {
        proof {
            use_type_invariant(self);
        }
        (self.bytes[3] / 32) % 2 == 1 && self.bytes[4] > 0 && (self.bytes[5] / 64) % 2 == 1
    }

    /// Appends the payload of the packet to `out`.
    pub fn append_payload(&self, out: &mut Vec<u8>)
        ensures
            final(out)@ == old(out)@ + payload_of(self@),
    {
        proof {
            use_type_invariant(self);
        }
        if !self.has_payload() {
            assert(out@ =~= old(out)@ + payload_of(self@));
            return ;
        }
        let from: usize = if self.has_adaptation_field() {
            5 + self.bytes[4] as usize
        } else {
            4
        };
        let mut index: usize = from;
        assert(out@ =~= old(out)@ + self.bytes@.subrange(from as int, index as int));
        while index < PACKET_SIZE
            invariant
                from <= index <= PACKET_SIZE,
                self.bytes.len() == PACKET_SIZE,
                out@ == old(out)@ + self.bytes@.subrange(from as int, index as int),
            decreases PACKET_SIZE - index,
        {
            out.push(self.bytes[index]);
            assert(out@ =~= old(out)@ + self.bytes@.subrange(from as int, index + 1));
            index = index + 1;
        }
    }

    /// The payload of the packet: what is left when header, adaptation
    /// field and stuffing are taken away.
    pub fn payload(&self) -> (payload: Vec<u8>)
        ensures
            payload@ == payload_of(self@),
    {
        let mut payload: Vec<u8> = Vec::new();
        self.append_payload(&mut payload);
        assert(Seq::<u8>::empty() + payload_of(self@) =~= payload_of(self@));
        payload
    }

    /// The bytes of the packet.
    pub fn as_bytes(&self) -> (bytes: &Vec<u8>)
        ensures
            bytes@ == self@,
            is_well_formed(bytes@),
    {
        proof {
            use_type_invariant(self);
        }
        &self.bytes
    }
}

} // verus!
