//! The stream muxer and the entry points for the destinations it serves.

use vstd::prelude::*;
use vstd::slice::slice_to_vec;
use crate::clock::FrameRate;
use crate::continuity::advanced;
use crate::destination::{check_port, is_port};
use crate::error::{MuxError, Stage, StreamError};
use crate::cadence::{
    count_after, due_before, emitter_after, interleaved, lemma_emitter_keeps_tables,
    lemma_interleaved_framed, lemma_interleaved_video, tables_before, tables_serialise,
};
use crate::packet::{pid_of, TransportPacket};
use crate::packetizer::{
    lemma_packet_fields, lemma_packets_framed, packetize_from, Packetizer,
};
use crate::pes::{AccessUnit, AccessUnitView, PesFramer, PesUnit, StreamId};
use crate::sequence::{
    append_packet, images_of, joined, lemma_joined_add, lemma_joined_records, on_pid,
};
use crate::tables::{ProgramTables, ProgramTablesEmitter};
use crate::wire::{PACKET_SIZE, SYNC_BYTE};

verus! {

/// The settings of a stream.
#[derive(Clone, Copy, Debug, PartialEq, Eq, Structural)]
pub struct StreamConfig {
    pub tables: ProgramTables,
    /// Number of video packets after which the tables are sent again.
    pub table_interval: u64,
    pub stream_id: StreamId,
    pub rate: FrameRate,
    /// Presentation time of frame 0.
    pub base_pts: u64,
}

impl StreamConfig {
    /// The settings of a stream made by [`TsStreamer::new_stream`]: program
    /// 1 with its map on identifier 4096 and the first video stream on
    /// identifier 32, 30 frames per second from time 0, tables every 100
    /// packets.
    pub open spec fn standard_settings() -> StreamConfig {
        StreamConfig {
            tables: ProgramTables {
                transport_stream_id: 1,
                program_number: 1,
                pmt_pid: 4096,
                video_pid: 32,
                version: 0,
            },
            table_interval: 100,
            stream_id: StreamId::Video(0),
            rate: FrameRate { numerator: 30, denominator: 1 },
            base_pts: 0,
        }
    }

    /// Settings are usable when the tables are and the framer accepts the
    /// stream number and the frame rate.
    pub open spec fn is_valid(self) -> bool {
        self.tables.is_valid() && self.stream_id.is_valid() && self.rate.is_valid()
    }

    /// The standard settings.
    pub fn standard() -> (config: StreamConfig)
        ensures
            config == StreamConfig::standard_settings(),
            config.is_valid(),
    {
        StreamConfig {
            tables: ProgramTables {
                transport_stream_id: 1,
                program_number: 1,
                pmt_pid: 4096,
                video_pid: 32,
                version: 0,
            },
            table_interval: 100,
            stream_id: StreamId::Video(0),
            rate: FrameRate { numerator: 30, denominator: 1 },
            base_pts: 0,
        }
    }
}

/// Muxes the access units of one video stream into transport packets.
///
/// Every call of [`TsStreamer::write`] frames one access unit, cuts it into
/// packets and returns the bytes to hand to the destination, with the
/// program tables among them wherever they are due by the count of video
/// packets. The first failure ends the stream: it is remembered, and every
/// later call fails with it.
pub struct TsStreamer {
    pub framer: PesFramer,
    pub packetizer: Packetizer,
    pub emitter: ProgramTablesEmitter,
    /// Frame number of the access unit that `write` sends next.
    pub input_frame_number: u64,
    /// Capture time of that access unit, in microseconds.
    pub input_frame_unix_micros: u64,
    /// Number of access units sent so far.
    pub output_frame_number: u64,
    /// Number of video packets sent so far.
    pub packets_sent: u64,
    /// The failure that ended the stream, if it has ended.
    pub aborted: Option<StreamError>,
}

/// What of a stream decides what the next write returns.
pub struct StreamView {
    pub framer: PesFramer,
    pub emitter: ProgramTablesEmitter,
    /// Counter of the next video packet.
    pub video_counter: u8,
    /// Number of video packets sent so far.
    pub packets_sent: u64,
    /// The failure that ended the stream, if it has ended.
    pub aborted: Option<StreamError>,
}

impl StreamView {
    /// Identifier of the video packets.
    pub open spec fn video_pid(self) -> u16 {
        self.emitter.tables.video_pid
    }

    /// The video packets of an access unit sent next.
    pub open spec fn video_images(self, unit: AccessUnitView) -> Seq<Seq<u8>> {
        self.framer.framed(unit).images(self.video_pid(), self.video_counter)
    }

    /// All the packets of an access unit sent next: its video packets, and
    /// in front of each of them the tables if they are due at the number of
    /// video packets sent until then.
    pub open spec fn emitted(self, unit: AccessUnitView) -> Seq<Seq<u8>> {
        interleaved(self.emitter, self.packets_sent, self.video_images(unit))
    }

    /// Whether every video packet of an access unit sent next is written as
    /// its image.
    pub open spec fn video_serialises(self, unit: AccessUnitView) -> bool {
        self.framer.framed(unit).all_serialise(self.video_pid(), self.video_counter)
    }

    /// Whether the tables can be emitted wherever they stand among the
    /// packets of an access unit sent next.
    pub open spec fn tables_serialise(self, unit: AccessUnitView) -> bool {
        tables_serialise(
            self.emitter,
            self.packets_sent,
            self.framer.framed(unit).packet_count() as nat,
        )
    }

    /// Why an access unit is refused before anything is serialised, if it
    /// is: because the stream has ended, by the framer, because the tables
    /// are unusable, or by the packetizer.
    pub open spec fn refusal(self, unit: AccessUnitView) -> Option<StreamError> {
        match self.aborted {
            Some(failure) => Some(failure),
            None => self.open_refusal(unit),
        }
    }

    /// Why a stream that has not ended refuses an access unit, if it does.
    pub open spec fn open_refusal(self, unit: AccessUnitView) -> Option<StreamError> {
        match self.framer.refusal(unit.sequence_number) {
            Some(error) => Some(TsStreamer::failure(unit, error, Stage::Frame)),
            None => if !self.emitter.tables.is_valid() {
                Some(TsStreamer::failure(unit, MuxError::Configuration, Stage::Tables))
            } else {
                match self.framer.framed(unit).refusal(self.video_pid()) {
                    Some(error) => Some(TsStreamer::failure(unit, error, Stage::Packetize)),
                    None => None,
                }
            },
        }
    }

    /// The stream after an access unit has been sent.
    pub open spec fn after(self, unit: AccessUnitView) -> StreamView {
        StreamView {
            framer: self.framer.after(unit.sequence_number),
            emitter: emitter_after(
                self.emitter,
                self.packets_sent,
                self.framer.framed(unit).packet_count() as nat,
            ),
            video_counter: advanced(
                self.video_counter,
                self.framer.framed(unit).packet_count() as nat,
            ),
            packets_sent: count_after(
                self.packets_sent,
                self.framer.framed(unit).packet_count() as nat,
            ),
            aborted: self.aborted,
        }
    }
}

impl TsStreamer {
    /// Identifier of the video packets.
    pub open spec fn video_pid(self) -> u16 {
        self.emitter.tables.video_pid
    }

    /// Counter of the next video packet.
    pub open spec fn video_counter(self) -> u8 {
        self.packetizer.counters.current(self.video_pid())
    }

    /// What of the stream decides what the next write returns.
    pub open spec fn view(self) -> StreamView {
        StreamView {
            framer: self.framer,
            emitter: self.emitter,
            video_counter: self.video_counter(),
            packets_sent: self.packets_sent,
            aborted: self.aborted,
        }
    }

    /// The video packets of an access unit sent next.
    pub open spec fn video_images(self, unit: AccessUnitView) -> Seq<Seq<u8>> {
        self.view().video_images(unit)
    }

    /// All the packets of an access unit sent next: its video packets, and
    /// in front of each of them the tables if they are due at the number of
    /// video packets sent until then.
    pub open spec fn emitted(self, unit: AccessUnitView) -> Seq<Seq<u8>> {
        self.view().emitted(unit)
    }

    /// Whether every video packet of an access unit sent next is written as
    /// its image.
    pub open spec fn video_serialises(self, unit: AccessUnitView) -> bool {
        self.view().video_serialises(unit)
    }

    /// Whether the tables can be emitted wherever they stand among the
    /// packets of an access unit sent next.
    pub open spec fn tables_serialise(self, unit: AccessUnitView) -> bool {
        self.view().tables_serialise(unit)
    }

    /// The failure with its place, for the access unit `unit`.
    pub open spec fn failure(unit: AccessUnitView, error: MuxError, stage: Stage) -> StreamError {
        StreamError { error, stage, sequence_number: unit.sequence_number }
    }

    /// Why an access unit is refused before anything is serialised, if it
    /// is: because the stream has ended, by the framer, because the tables
    /// are unusable, or by the packetizer.
    pub open spec fn refusal(self, unit: AccessUnitView) -> Option<StreamError> {
        self.view().refusal(unit)
    }

    /// Why a stream that has not ended refuses an access unit, if it does.
    pub open spec fn open_refusal(self, unit: AccessUnitView) -> Option<StreamError> {
        self.view().open_refusal(unit)
    }

    /// Whether two streamers are in the same state.
    pub open spec fn same_state(self, other: TsStreamer) -> bool {
        &&& self.framer == other.framer
        &&& self.emitter == other.emitter
        &&& forall|pid: u16| self.packetizer.counters.current(pid) == other.packetizer.counters.current(pid)
        &&& self.input_frame_number == other.input_frame_number
        &&& self.input_frame_unix_micros == other.input_frame_unix_micros
        &&& self.output_frame_number == other.output_frame_number
        &&& self.packets_sent == other.packets_sent
        &&& self.aborted == other.aborted
    }

    /// Whether `self` is `before` ended by `failure`: nothing has changed
    /// but that the failure is remembered.
    pub open spec fn ended(self, before: TsStreamer, failure: StreamError) -> bool {
        self.same_state(TsStreamer { aborted: Some(failure), ..before })
    }

    /// Whether `self` is the state reached from `before` by sending `unit`
    /// in `count` video packets.
    pub open spec fn follows(self, before: TsStreamer, unit: AccessUnitView, count: nat) -> bool {
        &&& self.framer == before.framer.after(unit.sequence_number)
        &&& self.emitter == emitter_after(before.emitter, before.packets_sent, count)
        &&& self.video_counter() == advanced(before.video_counter(), count)
        &&& forall|pid: u16|
            pid != before.video_pid() ==> self.packetizer.counters.current(pid)
                == before.packetizer.counters.current(pid)
        &&& self.input_frame_number == before.input_frame_number
        &&& self.input_frame_unix_micros == before.input_frame_unix_micros
        &&& self.output_frame_number == before.output_frame_number.saturating_add(1)
        &&& self.packets_sent == count_after(before.packets_sent, count)
        &&& self.aborted == before.aborted
    }

    /// The failure of an access unit that is not refused and yet not sent:
    /// `Framing`, at the packetizer if a video packet is not written as its
    /// image, and else at the tables.
    pub open spec fn framing_failure(self, unit: AccessUnitView) -> StreamError {
        Self::failure(
            unit,
            MuxError::Framing,
            if self.video_serialises(unit) {
                Stage::Tables
            } else {
                Stage::Packetize
            },
        )
    }

    /// A stream at its beginning; `Configuration` if the settings are not
    /// usable.
    pub fn with_config(config: StreamConfig) -> (r: Result<TsStreamer, StreamError>)
        ensures
            match r {
                Ok(streamer) => {
                    &&& config.is_valid()
                    &&& streamer.framer == (PesFramer {
                        stream_id: config.stream_id,
                        rate: config.rate,
                        base_pts: config.base_pts,
                        last_sequence: None,
                    })
                    &&& streamer.emitter == (ProgramTablesEmitter {
                        tables: config.tables,
                        interval: config.table_interval,
                        last_emitted_at: None,
                        pat_counter: 0,
                        pmt_counter: 0,
                    })
                    &&& forall|pid: u16| streamer.packetizer.counters.current(pid) == 0
                    &&& streamer.input_frame_number == 0
                    &&& streamer.input_frame_unix_micros == 0
                    &&& streamer.output_frame_number == 0
                    &&& streamer.packets_sent == 0
                    &&& streamer.aborted is None
                },
                Err(e) => !config.is_valid() && e == (StreamError {
                    error: MuxError::Configuration,
                    stage: Stage::Configure,
                    sequence_number: 0,
                }),
            },
    {
        let framer = match PesFramer::new(config.stream_id, config.rate, config.base_pts) {
            Ok(framer) => framer,
            Err(error) => {
                return Err(StreamError::new(error, Stage::Configure, 0));
            },
        };
        let emitter = match ProgramTablesEmitter::new(config.tables, config.table_interval) {
            Ok(emitter) => emitter,
            Err(error) => {
                return Err(StreamError::new(error, Stage::Configure, 0));
            },
        };
        Ok(
            TsStreamer {
                framer,
                packetizer: Packetizer::new(),
                emitter,
                input_frame_number: 0,
                input_frame_unix_micros: 0,
                output_frame_number: 0,
                packets_sent: 0,
                aborted: None,
            },
        )
    }

    /// A stream with the standard settings, at its beginning.
    pub fn new_stream() -> (r: Result<TsStreamer, StreamError>)
        ensures
            r matches Ok(streamer) && {
                &&& streamer.framer == (PesFramer {
                    stream_id: StreamId::Video(0),
                    rate: FrameRate { numerator: 30, denominator: 1 },
                    base_pts: 0,
                    last_sequence: None,
                })
                &&& streamer.emitter == (ProgramTablesEmitter {
                    tables: StreamConfig::standard_settings().tables,
                    interval: 100,
                    last_emitted_at: None,
                    pat_counter: 0,
                    pmt_counter: 0,
                })
                &&& forall|pid: u16| streamer.packetizer.counters.current(pid) == 0
                &&& streamer.input_frame_number == 0
                &&& streamer.input_frame_unix_micros == 0
                &&& streamer.output_frame_number == 0
                &&& streamer.packets_sent == 0
                &&& streamer.aborted is None
            },
    {
        Self::with_config(StreamConfig::standard())
    }

    /// Sets the frame number and the capture time, in microseconds since the
    /// Unix epoch, of the access unit that the next `write` sends.
    pub fn set_next_frame_meta(&mut self, frame_number: u64, unix_timestamp_micros: u64)
        ensures
            final(self).input_frame_number == frame_number,
            final(self).input_frame_unix_micros == unix_timestamp_micros,
            final(self).framer == old(self).framer,
            final(self).emitter == old(self).emitter,
            forall|pid: u16| final(self).packetizer.counters.current(pid) == old(self).packetizer.counters.current(pid),
            final(self).output_frame_number == old(self).output_frame_number,
            final(self).packets_sent == old(self).packets_sent,
            final(self).aborted == old(self).aborted,
    {
        self.input_frame_number = frame_number;
        self.input_frame_unix_micros = unix_timestamp_micros;
    }

    /// Serialises the video packets of a framed unit.
    fn video_packets(&self, pes: &PesUnit) -> (r: Result<Vec<TransportPacket>, MuxError>)
        ensures
            r is Ok <==> pes@.refusal(self.video_pid()) is None && pes@.all_serialise(
                self.video_pid(),
                self.video_counter(),
            ),
            match r {
                Ok(packets) => {
                    &&& packets.len() == pes@.packet_count()
                    &&& images_of(packets@) == pes@.images(self.video_pid(), self.video_counter())
                },
                Err(e) => match pes@.refusal(self.video_pid()) {
                    Some(reason) => e == reason,
                    None => e == MuxError::Framing,
                },
            },
    {
        let pid = self.emitter.tables.video_pid;
        let first_counter = self.packetizer.counters.peek(pid);
        let packets = packetize_from(pes, pid, first_counter)?;
        assert(images_of(packets@) =~= pes@.images(pid, first_counter));
        Ok(packets)
    }

    /// Lays the video packets end to end with the tables among them, and
    /// tells the emitter and the packet count that result.
    fn interleave(&self, video: &Vec<TransportPacket>) -> (r: Result<
        (Vec<u8>, ProgramTablesEmitter, u64),
        MuxError,
    >)
        requires
            self.emitter.tables.is_valid(),
        ensures
            r is Ok <==> tables_serialise(self.emitter, self.packets_sent, video.len() as nat),
            match r {
                Ok((bytes, emitter, sent)) => {
                    &&& bytes@ == joined(
                        interleaved(self.emitter, self.packets_sent, images_of(video@)),
                    )
                    &&& emitter == emitter_after(
                        self.emitter,
                        self.packets_sent,
                        video.len() as nat,
                    )
                    &&& sent == count_after(self.packets_sent, video.len() as nat)
                },
                Err(e) => e == MuxError::Framing,
            },
    {
        let ghost images = images_of(video@);
        let ghost first = self.emitter;
        let ghost start = self.packets_sent;
        let mut emitter = self.emitter;
        let mut sent = self.packets_sent;
        let mut out: Vec<u8> = Vec::new();
        let mut index: usize = 0;
        proof {
            assert(images.take(0) =~= Seq::<Seq<u8>>::empty());
            assert(out@ =~= joined(interleaved(first, start, images.take(0))));
        }
        while index < video.len()
            invariant
                index <= video.len(),
                images == images_of(video@),
                first == self.emitter,
                start == self.packets_sent,
                first.tables.is_valid(),
                emitter == emitter_after(first, start, index as nat),
                sent == count_after(start, index as nat),
                tables_serialise(first, start, index as nat),
                out@ == joined(interleaved(first, start, images.take(index as int))),
            decreases video.len() - index,
        {
            let ghost before = out@;
            let ghost now = emitter;
            proof {
                lemma_emitter_keeps_tables(first, start, index as nat);
            }
            match emitter.tick(sent) {
                Ok(Some((pat, pmt))) => {
                    append_packet(&mut out, &pat);
                    append_packet(&mut out, &pmt);
                },
                Ok(None) => {},
                Err(e) => {
                    proof {
                        assert(due_before(first, start, index as nat));
                        assert(!emitter_after(first, start, index as nat).can_emit());
                        if tables_serialise(first, start, video.len() as nat) {
                            lemma_tables_serialise_prefix(
                                first,
                                start,
                                video.len() as nat,
                                (index + 1) as nat,
                            );
                            assert(((index + 1) as nat - 1) as nat == index as nat);
                        }
                    }
                    return Err(e);
                },
            }
            append_packet(&mut out, &video[index]);
            proof {
                let tables = tables_before(first, start, index as nat);
                let next = images.take(index + 1);
                assert(next.drop_last() =~= images.take(index as int));
                assert(next.last() == video[index as int]@);
                lemma_joined_tables(now);
                lemma_joined_add(interleaved(first, start, images.take(index as int)), tables);
                lemma_joined_add(
                    interleaved(first, start, images.take(index as int)) + tables,
                    seq![next.last()],
                );
                lemma_joined_one(next.last());
                assert(out@ =~= before + joined(tables) + video[index as int]@);
            }
            sent = sent.saturating_add(1);
            index = index + 1;
        }
        proof {
            assert(images.take(video.len() as int) =~= images);
        }
        Ok((out, emitter, sent))
    }

    /// Records that an access unit was sent in `count` video packets.
    fn advance(&mut self, framer: PesFramer, emitter: ProgramTablesEmitter, sent: u64, count: usize)
        ensures
            final(self).framer == framer,
            final(self).emitter == emitter,
            final(self).packets_sent == sent,
            emitter.tables.video_pid == old(self).video_pid() ==> final(self).video_counter()
                == advanced(old(self).video_counter(), count as nat),
            forall|pid: u16|
                pid != old(self).video_pid() ==> final(self).packetizer.counters.current(pid)
                    == old(self).packetizer.counters.current(pid),
            final(self).input_frame_number == old(self).input_frame_number,
            final(self).input_frame_unix_micros == old(self).input_frame_unix_micros,
            final(self).output_frame_number == old(self).output_frame_number.saturating_add(1),
            final(self).aborted == old(self).aborted,
    {
        let pid = self.emitter.tables.video_pid;
        let first_counter = self.packetizer.counters.peek(pid);
        let steps: u8 = (count % 16) as u8;
        self.framer = framer;
        self.emitter = emitter;
        self.packets_sent = sent;
        self.packetizer.counters.set(pid, (first_counter + steps) % 16);
        self.output_frame_number = self.output_frame_number.saturating_add(1);
    }

    /// Muxes one access unit of a stream that has not ended, and leaves the
    /// stream as it was if that fails.
    fn try_write(&mut self, unit: AccessUnit) -> (r: Result<Vec<u8>, StreamError>)
        ensures
            r is Ok <==> old(self).open_refusal(unit@) is None && old(self).video_serialises(
                unit@,
            ) && old(self).tables_serialise(unit@),
            match r {
                Ok(bytes) => {
                    &&& bytes@ == joined(old(self).emitted(unit@))
                    &&& final(self).follows(
                        *old(self),
                        unit@,
                        old(self).framer.framed(unit@).packet_count() as nat,
                    )
                },
                Err(e) => {
                    &&& final(self).same_state(*old(self))
                    &&& match old(self).open_refusal(unit@) {
                        Some(reason) => e == reason,
                        None => e == old(self).framing_failure(unit@),
                    }
                },
            },
    {
        let sequence_number = unit.sequence_number;
        let ghost view = unit@;
        let mut framer = self.framer;
        let pes = match framer.frame(unit) {
            Ok(pes) => pes,
            Err(error) => {
                return Err(StreamError::new(error, Stage::Frame, sequence_number));
            },
        };
        if !self.emitter.tables.check() {
            return Err(StreamError::new(MuxError::Configuration, Stage::Tables, sequence_number));
        }
        let video = match self.video_packets(&pes) {
            Ok(video) => video,
            Err(error) => {
                return Err(StreamError::new(error, Stage::Packetize, sequence_number));
            },
        };
        let (bytes, emitter, sent) = match self.interleave(&video) {
            Ok(done) => done,
            Err(error) => {
                return Err(StreamError::new(error, Stage::Tables, sequence_number));
            },
        };
        proof {
            lemma_emitter_keeps_tables(self.emitter, self.packets_sent, video.len() as nat);
        }
        self.advance(framer, emitter, sent, video.len());
        Ok(bytes)
    }

    /// Muxes one access unit and returns the bytes for the destination: a
    /// whole number of 188-byte packets, the video packets of the unit with
    /// the two table packets in front of every one at which the tables are
    /// due.
    ///
    /// The call succeeds exactly when the unit is not refused and every
    /// packet, video or table, is written as its image. A unit that is
    /// refused, and a packet that is not written as its image (`Framing`),
    /// produce no bytes and end the stream: the failure is remembered and
    /// nothing else changes.
    pub fn write_access_unit(&mut self, unit: AccessUnit) -> (r: Result<Vec<u8>, StreamError>)
        ensures
            r is Ok <==> old(self).refusal(unit@) is None && old(self).video_serialises(unit@)
                && old(self).tables_serialise(unit@),
            match r {
                Ok(bytes) => {
                    &&& bytes@ == joined(old(self).emitted(unit@))
                    &&& final(self).follows(
                        *old(self),
                        unit@,
                        old(self).framer.framed(unit@).packet_count() as nat,
                    )
                    &&& final(self).view() == old(self).view().after(unit@)
                },
                Err(e) => {
                    &&& final(self).ended(*old(self), e)
                    &&& match old(self).refusal(unit@) {
                        Some(reason) => e == reason,
                        None => e == old(self).framing_failure(unit@),
                    }
                },
            },
    {
        if let Some(failure) = self.aborted {
            return Err(failure);
        }
        match self.try_write(unit) {
            Ok(bytes) => Ok(bytes),
            Err(failure) => {
                self.aborted = Some(failure);
                Err(failure)
            },
        }
    }

    /// Muxes `data` as the access unit announced by the last
    /// `set_next_frame_meta`, as a point where decoding can start.
    pub fn write(&mut self, data: &[u8]) -> (r: Result<Vec<u8>, StreamError>)
        ensures
            r is Ok <==> old(self).refusal(old(self).next_unit(data@)) is None && old(
                self,
            ).video_serialises(old(self).next_unit(data@)) && old(self).tables_serialise(
                old(self).next_unit(data@),
            ),
            match r {
                Ok(bytes) => {
                    &&& bytes@ == joined(old(self).emitted(old(self).next_unit(data@)))
                    &&& final(self).follows(
                        *old(self),
                        old(self).next_unit(data@),
                        old(self).framer.framed(old(self).next_unit(data@)).packet_count() as nat,
                    )
                    &&& final(self).view() == old(self).view().after(old(self).next_unit(data@))
                },
                Err(e) => {
                    &&& final(self).ended(*old(self), e)
                    &&& match old(self).refusal(old(self).next_unit(data@)) {
                        Some(reason) => e == reason,
                        None => e == old(self).framing_failure(old(self).next_unit(data@)),
                    }
                },
            },
    {
        let unit = AccessUnit {
            sequence_number: self.input_frame_number,
            capture_time: self.input_frame_unix_micros,
            payload: slice_to_vec(data),
            is_random_access: true,
        };
        self.write_access_unit(unit)
    }

    /// The access unit that `write` makes of `data`.
    pub open spec fn next_unit(self, data: Seq<u8>) -> AccessUnitView {
        AccessUnitView {
            sequence_number: self.input_frame_number,
            capture_time: self.input_frame_unix_micros,
            payload: data,
            is_random_access: true,
        }
    }

    /// Nothing is held back between calls of `write`, so there is nothing to
    /// flush: the stream stays as it is. A stream that has ended answers
    /// with the failure that ended it.
    pub fn flush(&mut self) -> (r: Result<(), StreamError>)
        ensures
            match r {
                Ok(_) => old(self).aborted is None,
                Err(e) => old(self).aborted == Some(e),
            },
            final(self).same_state(*old(self)),
    {
        match self.aborted {
            Some(failure) => Err(failure),
            None => Ok(()),
        }
    }

    /// To be called when the destination has refused bytes of the stream:
    /// ends the stream with a `Sink` failure that names the current frame,
    /// unless it has ended before, and returns the failure that ended it.
    pub fn sink_failed(&mut self) -> (e: StreamError)
        ensures
            final(self).ended(*old(self), e),
            e == (match old(self).aborted {
                Some(failure) => failure,
                None => StreamError {
                    error: MuxError::Sink,
                    stage: Stage::Deliver,
                    sequence_number: old(self).input_frame_number,
                },
            }),
    {
        match self.aborted {
            Some(failure) => failure,
            None => {
                let failure = StreamError::new(
                    MuxError::Sink,
                    Stage::Deliver,
                    self.input_frame_number,
                );
                self.aborted = Some(failure);
                failure
            },
        }
    }
}

/// The two table packets laid end to end.
proof fn lemma_joined_tables(emitter: ProgramTablesEmitter)
    ensures
        joined(seq![emitter.pat_plan().image(), emitter.pmt_plan().image()])
            == emitter.pat_plan().image() + emitter.pmt_plan().image(),
        joined(Seq::<Seq<u8>>::empty()) == Seq::<u8>::empty(),
{
    let pair = seq![emitter.pat_plan().image(), emitter.pmt_plan().image()];
    assert(pair.drop_last() =~= seq![emitter.pat_plan().image()]);
    lemma_joined_one(emitter.pat_plan().image());
}

/// One packet laid end to end is the packet.
proof fn lemma_joined_one(packet: Seq<u8>)
    ensures
        joined(seq![packet]) == packet,
{
    let one = seq![packet];
    assert(one.drop_last() =~= Seq::<Seq<u8>>::empty());
    assert(joined(one.drop_last()) =~= Seq::<u8>::empty());
    assert(one.last() == packet);
    assert(joined(one) =~= packet);
}

/// If the tables can be emitted wherever they stand among some video
/// packets, they can among the first of them.
proof fn lemma_tables_serialise_prefix(
    emitter: ProgramTablesEmitter,
    sent: u64,
    steps: nat,
    fewer: nat,
)
    requires
        tables_serialise(emitter, sent, steps),
        fewer <= steps,
    ensures
        tables_serialise(emitter, sent, fewer),
    decreases steps,
{
    if fewer < steps {
        lemma_tables_serialise_prefix(emitter, sent, (steps - 1) as nat, fewer);
    }
}

/// Every packet emitted for an access unit that is not refused, table or
/// video, is exactly 188 bytes long and begins with `0x47`.
pub proof fn lemma_view_framed(stream: StreamView, unit: AccessUnitView, index: int)
    requires
        stream.refusal(unit) is None,
        0 <= index < stream.emitted(unit).len(),
    ensures
        stream.emitted(unit)[index].len() == PACKET_SIZE,
        stream.emitted(unit)[index][0] == SYNC_BYTE,
{
    let video = stream.video_images(unit);
    let pes = stream.framer.framed(unit);
    assert forall|i: int| 0 <= i < video.len() implies (#[trigger] video[i]).len() == PACKET_SIZE
        && video[i][0] == SYNC_BYTE by {
        lemma_packets_framed(pes, stream.video_pid(), stream.video_counter, i);
    }
    lemma_interleaved_framed(stream.emitter, stream.packets_sent, video, index);
}

/// Every packet that a stream emits for an access unit, table or video, is
/// exactly 188 bytes long and begins with `0x47`.
pub proof fn lemma_emitted_framed(streamer: TsStreamer, unit: AccessUnitView, index: int)
    requires
        streamer.refusal(unit) is None,
        0 <= index < streamer.emitted(unit).len(),
    ensures
        streamer.emitted(unit)[index].len() == PACKET_SIZE,
        streamer.emitted(unit)[index][0] == SYNC_BYTE,
{
    lemma_view_framed(streamer.view(), unit, index);
}

/// The bytes returned for an access unit are a whole number of records of
/// 188 bytes, record `index` is packet `index`, and every record begins
/// with `0x47`.
pub proof fn lemma_written_records(streamer: TsStreamer, unit: AccessUnitView, index: int)
    requires
        streamer.refusal(unit) is None,
        0 <= index < streamer.emitted(unit).len(),
    ensures
        joined(streamer.emitted(unit)).len() == PACKET_SIZE * streamer.emitted(unit).len(),
        joined(streamer.emitted(unit)).subrange(
            PACKET_SIZE * index,
            PACKET_SIZE * index + PACKET_SIZE,
        ) == streamer.emitted(unit)[index],
        joined(streamer.emitted(unit))[PACKET_SIZE * index] == SYNC_BYTE,
{
    let packets = streamer.emitted(unit);
    assert forall|i: int| 0 <= i < packets.len() implies (#[trigger] packets[i]).len()
        == PACKET_SIZE by {
        lemma_emitted_framed(streamer, unit, i);
    }
    lemma_emitted_framed(streamer, unit, index);
    lemma_joined_records(packets, index);
    let record = joined(packets).subrange(PACKET_SIZE * index, PACKET_SIZE * index + PACKET_SIZE);
    assert(record[0] == joined(packets)[PACKET_SIZE * index]);
}

/// Among the packets emitted for an access unit that is not refused,
/// those on the video identifier are the video packets of the unit.
pub proof fn lemma_view_video(stream: StreamView, unit: AccessUnitView)
    requires
        stream.refusal(unit) is None,
    ensures
        on_pid(stream.emitted(unit), stream.video_pid()) == stream.video_images(unit),
{
    let pid = stream.video_pid();
    let video = stream.video_images(unit);
    let pes = stream.framer.framed(unit);
    assert forall|i: int| 0 <= i < video.len() implies pid_of(#[trigger] video[i]) == pid by {
        lemma_packet_fields(pes, pid, stream.video_counter, i);
    }
    lemma_interleaved_video(stream.emitter, stream.packets_sent, video);
}

/// The tables do not touch the video stream: the packets on the video
/// identifier among those emitted for an access unit are the video packets
/// of the unit, wherever the tables stand among them.
pub proof fn lemma_tables_leave_video_alone(streamer: TsStreamer, unit: AccessUnitView)
    requires
        streamer.refusal(unit) is None,
    ensures
        on_pid(streamer.emitted(unit), streamer.video_pid()) == streamer.video_images(unit),
{
    lemma_view_video(streamer.view(), unit);
}

/// A write that succeeds moves the stream on as [`StreamView::after`] says.
pub proof fn lemma_follows_view(after: TsStreamer, before: TsStreamer, unit: AccessUnitView)
    requires
        after.follows(before, unit, before.framer.framed(unit).packet_count() as nat),
    ensures
        after.view() == before.view().after(unit),
{
}

/// A frame number that goes back is refused by the framer with
/// `Configuration`, whatever else holds of the access unit; the refusal
/// comes before anything is serialised, so no packet of the unit exists.
pub proof fn lemma_backward_frame_refused(streamer: TsStreamer, unit: AccessUnitView)
    requires
        streamer.aborted is None,
        streamer.framer.goes_back(unit.sequence_number),
    ensures
        streamer.refusal(unit) == Some(
            StreamError {
                error: MuxError::Configuration,
                stage: Stage::Frame,
                sequence_number: unit.sequence_number,
            },
        ),
{
}

/// Sends `num_frames` frames to a UDP destination.
///
/// A port that is no port number, one below 0 or above 65535, is refused
/// with `Configuration` before anything else is done. Delivery by datagram
/// is not provided yet: for every other destination the call succeeds and
/// nothing is sent.
pub fn send_to_udp(num_frames: u32, ip: &str, port: i32) -> (r: Result<(), StreamError>)
    ensures
        r is Ok <==> is_port(port),
        r matches Err(e) ==> e == (StreamError {
            error: MuxError::Configuration,
            stage: Stage::Configure,
            sequence_number: 0,
        }),
{
    if check_port(port) {
        Ok(())
    } else {
        Err(StreamError::new(MuxError::Configuration, Stage::Configure, 0))
    }
}

/// Sends `num_frames` frames to standard output.
///
/// Delivery to standard output is not provided yet: the call is accepted
/// and nothing is sent.
pub fn send_to_stdout(num_frames: u32) -> (r: Result<(), StreamError>)
    ensures
        r is Ok,
{
    Ok(())
}

} // verus!
