//! Access units, PES units and the framer that turns one into the other.

use vstd::prelude::*;
use crate::clock::{
    lemma_presentation_ticks_monotonic, presentation_ticks, presentation_time, FrameRate,
    MAX_TIMESTAMP,
};
use crate::error::MuxError;

verus! {

/// The elementary stream that a PES unit belongs to.
#[derive(Clone, Copy, Debug, PartialEq, Eq, Structural)]
pub enum StreamId {
    /// One of the sixteen video streams, numbered from 0.
    Video(u8),
}

impl StreamId {
    /// Whether the stream number is one of the sixteen there are.
    pub open spec fn is_valid(self) -> bool {
        match self {
            StreamId::Video(index) => index < 16,
        }
    }

    /// The byte that names the stream in a PES header: `0xE0` for the first
    /// video stream.
    pub open spec fn wire_value(self) -> u8 {
        match self {
            StreamId::Video(index) => (0xE0 + index % 16) as u8,
        }
    }

    /// The video stream with the given number; `Configuration` if there is
    /// no such stream.
    pub fn new_video(index: u8) -> (r: Result<StreamId, MuxError>)
        ensures
            match r {
                Ok(id) => index < 16 && id == StreamId::Video(index),
                Err(e) => index >= 16 && e == MuxError::Configuration,
            },
    {
        if index < 16 {
            Ok(StreamId::Video(index))
        } else {
            Err(MuxError::Configuration)
        }
    }

    /// Whether the stream number is in range.
    pub fn check(&self) -> (ok: bool)
        ensures
            ok == self.is_valid(),
    {
        match self {
            StreamId::Video(index) => *index < 16,
        }
    }

    /// The byte that names the stream in a PES header.
    pub fn as_u8(&self) -> (value: u8)
        ensures
            value == self.wire_value(),
    {
        match self {
            StreamId::Video(index) => 0xE0 + *index % 16,
        }
    }
}

/// One encoded frame as the encoder hands it over.
#[derive(Debug)]
pub struct AccessUnit {
    /// Frame number.
    pub sequence_number: u64,
    /// Capture time in microseconds since the Unix epoch.
    pub capture_time: u64,
    /// The encoded bytes, which the muxer never looks into.
    pub payload: Vec<u8>,
    /// Whether decoding can start at this frame.
    pub is_random_access: bool,
}

/// Mathematical form of [`AccessUnit`].
pub struct AccessUnitView {
    pub sequence_number: u64,
    pub capture_time: u64,
    pub payload: Seq<u8>,
    pub is_random_access: bool,
}

impl View for AccessUnit {
    type V = AccessUnitView;

    open spec fn view(&self) -> AccessUnitView {
        AccessUnitView {
            sequence_number: self.sequence_number,
            capture_time: self.capture_time,
            payload: self.payload@,
            is_random_access: self.is_random_access,
        }
    }
}

/// One access unit with the timing that a PES header carries.
#[derive(Debug)]
pub struct PesUnit {
    pub stream_id: StreamId,
    /// Presentation timestamp in ticks of the 90 kHz clock.
    pub pts: u64,
    /// Decode timestamp, when it differs from the presentation timestamp.
    pub dts: Option<u64>,
    pub payload: Vec<u8>,
    /// Whether the payload starts at an access unit boundary.
    pub data_alignment: bool,
    /// Whether decoding can start at this unit.
    pub random_access: bool,
}

/// Mathematical form of [`PesUnit`].
pub struct PesUnitView {
    pub stream_id: StreamId,
    pub pts: u64,
    pub dts: Option<u64>,
    pub payload: Seq<u8>,
    pub data_alignment: bool,
    pub random_access: bool,
}

impl View for PesUnit {
    type V = PesUnitView;

    open spec fn view(&self) -> PesUnitView {
        PesUnitView {
            stream_id: self.stream_id,
            pts: self.pts,
            dts: self.dts,
            payload: self.payload@,
            data_alignment: self.data_alignment,
            random_access: self.random_access,
        }
    }
}

impl PesUnitView {
    /// Whether both timestamps fit in 33 bits.
    pub open spec fn timestamps_fit(self) -> bool {
        &&& self.pts <= MAX_TIMESTAMP
        &&& self.dts matches Some(dts) ==> dts <= MAX_TIMESTAMP
    }
}

/// Turns access units into PES units, stamping each with its presentation
/// time.
#[derive(Clone, Copy, Debug)]
pub struct PesFramer {
    /// Stream that the units belong to.
    pub stream_id: StreamId,
    /// Frames per second of the source.
    pub rate: FrameRate,
    /// Presentation time of frame 0.
    pub base_pts: u64,
    /// Frame number of the unit framed last.
    pub last_sequence: Option<u64>,
}

impl PesFramer {
    /// Whether the settings of the framer can be used.
    pub open spec fn is_configured(self) -> bool {
        self.stream_id.is_valid() && self.rate.is_valid()
    }

    /// Whether frame number `sequence_number` lies before the last one framed.
    pub open spec fn goes_back(self, sequence_number: u64) -> bool {
        self.last_sequence matches Some(last) && sequence_number < last
    }

    /// The timestamp of frame `sequence_number`, before the 33-bit limit is
    /// applied.
    pub open spec fn ticks_of(self, sequence_number: u64) -> nat {
        presentation_ticks(self.base_pts, sequence_number, self.rate)
    }

    /// Why the framer refuses a frame number, if it does.
    pub open spec fn refusal(self, sequence_number: u64) -> Option<MuxError> {
        if !self.is_configured() || self.goes_back(sequence_number) {
            Some(MuxError::Configuration)
        } else if self.ticks_of(sequence_number) > MAX_TIMESTAMP {
            Some(MuxError::ClockOverflow)
        } else {
            None
        }
    }

    /// The PES unit made of an access unit that is not refused.
    pub open spec fn framed(self, unit: AccessUnitView) -> PesUnitView {
        PesUnitView {
            stream_id: self.stream_id,
            pts: self.ticks_of(unit.sequence_number) as u64,
            dts: None,
            payload: unit.payload,
            data_alignment: true,
            random_access: unit.is_random_access,
        }
    }

    /// The framer after it has framed frame `sequence_number`.
    pub open spec fn after(self, sequence_number: u64) -> PesFramer {
        PesFramer { last_sequence: Some(sequence_number), ..self }
    }

    /// A framer that has not framed anything yet. The settings are checked
    /// here: `Configuration` is returned for a stream number out of range
    /// and for a zero frame rate.
    pub fn new(stream_id: StreamId, rate: FrameRate, base_pts: u64) -> (r: Result<PesFramer, MuxError>)
        ensures
            match r {
                Ok(framer) => framer.is_configured() && framer == (PesFramer {
                    stream_id,
                    rate,
                    base_pts,
                    last_sequence: None,
                }),
                Err(e) => e == MuxError::Configuration && !(stream_id.is_valid() && rate.is_valid()),
            },
    {
        if stream_id.check() && rate.check() {
            Ok(PesFramer { stream_id, rate, base_pts, last_sequence: None })
        } else {
            Err(MuxError::Configuration)
        }
    }

    /// The timestamp that `frame` would give to a frame number, or the reason
    /// why it would refuse it.
    pub fn timestamp_for(&self, sequence_number: u64) -> (r: Result<u64, MuxError>)
        ensures
            match r {
                Ok(pts) => self.refusal(sequence_number) is None && pts == self.ticks_of(
                    sequence_number,
                ),
                Err(e) => self.refusal(sequence_number) == Some(e),
            },
    {
        if !self.stream_id.check() || !self.rate.check() {
            return Err(MuxError::Configuration);
        }
        if let Some(last) = self.last_sequence {
            if sequence_number < last {
                return Err(MuxError::Configuration);
            }
        }
        presentation_time(self.base_pts, sequence_number, self.rate)
    }

    /// Frames one access unit.
    ///
    /// The unit keeps the payload and the random-access flag of the access
    /// unit, is marked as aligned and gets the presentation time of its
    /// frame number. A frame number lower than the one before is refused
    /// with `Configuration`, a timestamp beyond 33 bits with
    /// `ClockOverflow`; a refusal leaves the framer as it was.
    pub fn frame(&mut self, unit: AccessUnit) -> (r: Result<PesUnit, MuxError>)
        ensures
            match r {
                Ok(pes) => old(self).refusal(unit.sequence_number) is None && pes@ == old(
                    self,
                ).framed(unit@) && *final(self) == old(self).after(unit.sequence_number),
                Err(e) => old(self).refusal(unit.sequence_number) == Some(e) && *final(self)
                    == *old(self),
            },
    {
        let pts = self.timestamp_for(unit.sequence_number)?;
        self.last_sequence = Some(unit.sequence_number);
        Ok(
            PesUnit {
                stream_id: self.stream_id,
                pts,
                dts: None,
                payload: unit.payload,
                data_alignment: true,
                random_access: unit.is_random_access,
            },
        )
    }
}

/// The timestamps that a framer gives out never decrease: a frame that is
/// accepted after another has a timestamp at least as large.
pub proof fn lemma_framed_timestamps_ordered(framer: PesFramer, first: u64, second: u64)
    requires
        framer.refusal(first) is None,
        framer.after(first).refusal(second) is None,
    ensures
        framer.ticks_of(first) <= framer.after(first).ticks_of(second),
{
    lemma_presentation_ticks_monotonic(framer.base_pts, first, second, framer.rate);
}

} // verus!
