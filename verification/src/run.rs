//! What a whole run of writes returns.
//!
//! Every write that succeeds moves the stream on by one access unit. The
//! laws here speak of the packets of all the writes of a run together, in
//! the order in which they are handed to the destination.

use vstd::prelude::*;
use crate::cadence::{
    count_after, emitter_after, interleaved, lemma_emitter_keeps_tables, lemma_emitter_twice,
    lemma_interleaved_add,
};
use crate::clock::{lemma_presentation_ticks_monotonic, MAX_TIMESTAMP};
use crate::continuity::{advanced, lemma_advanced_twice};
use crate::packet::counter_of;
use crate::packetizer::{
    all_accepted, lemma_images_from, lemma_packet_count_positive, lemma_stream_counters,
    lemma_stream_length, lemma_stream_round_trip, reassembled, run_image, stream_images, total_packets,
};
use crate::pes::{AccessUnitView, PesUnitView};
use crate::sequence::{joined, lemma_joined_records, lemma_on_pid_add, on_pid};
use crate::streamer::{lemma_view_framed, lemma_view_video, StreamView};
use crate::wire::{PACKET_SIZE, SYNC_BYTE};

verus! {

/// The stream after the access units of a run have been sent.
pub open spec fn run_state(start: StreamView, units: Seq<AccessUnitView>) -> StreamView
    decreases units.len(),
{
    if units.len() == 0 {
        start
    } else {
        run_state(start, units.drop_last()).after(units.last())
    }
}

/// Whether no access unit of a run is refused when its turn comes.
pub open spec fn run_accepted(start: StreamView, units: Seq<AccessUnitView>) -> bool
    decreases units.len(),
{
    if units.len() == 0 {
        true
    } else {
        run_accepted(start, units.drop_last()) && run_state(start, units.drop_last()).refusal(
            units.last(),
        ) is None
    }
}

/// All the packets of a run, tables and video, in the order of the writes.
pub open spec fn run_emitted(start: StreamView, units: Seq<AccessUnitView>) -> Seq<Seq<u8>>
    decreases units.len(),
{
    if units.len() == 0 {
        Seq::<Seq<u8>>::empty()
    } else {
        run_emitted(start, units.drop_last()) + run_state(start, units.drop_last()).emitted(
            units.last(),
        )
    }
}

/// The PES units that the access units of a run are framed as.
pub open spec fn run_units(start: StreamView, units: Seq<AccessUnitView>) -> Seq<PesUnitView> {
    Seq::new(units.len(), |index: int| start.framer.framed(units[index]))
}

/// Counting on in two runs is counting on in one.
proof fn lemma_count_twice(sent: u64, first: nat, second: nat)
    ensures
        count_after(count_after(sent, first), second) == count_after(sent, first + second),
{
}

/// What a run changes of a stream and what it keeps: the settings of the
/// framer and the tables stay; the video counter and the packet count move
/// on by the number of video packets; the framer remembers the last frame
/// number.
pub proof fn lemma_run_state(start: StreamView, units: Seq<AccessUnitView>)
    ensures
        run_state(start, units).framer.stream_id == start.framer.stream_id,
        run_state(start, units).framer.rate == start.framer.rate,
        run_state(start, units).framer.base_pts == start.framer.base_pts,
        run_state(start, units).emitter.tables == start.emitter.tables,
        run_state(start, units).aborted == start.aborted,
        advanced(run_state(start, units).video_counter, 0) == advanced(
            start.video_counter,
            total_packets(run_units(start, units)),
        ),
        run_state(start, units).packets_sent == count_after(
            start.packets_sent,
            total_packets(run_units(start, units)),
        ),
        run_state(start, units).emitter == emitter_after(
            start.emitter,
            start.packets_sent,
            total_packets(run_units(start, units)),
        ),
        units.len() > 0 ==> run_state(start, units).framer.last_sequence == Some(
            units.last().sequence_number,
        ),
        units.len() == 0 ==> run_state(start, units) == start,
    decreases units.len(),
{
    if units.len() == 0 {
        assert(run_units(start, units) =~= Seq::<PesUnitView>::empty());
    } else {
        let before = units.drop_last();
        let state = run_state(start, before);
        let last = units.last();
        lemma_run_state(start, before);
        let pes = state.framer.framed(last);
        assert(pes == start.framer.framed(last));
        assert(run_units(start, units).drop_last() =~= run_units(start, before));
        assert(run_units(start, units).last() == pes);
        let done = total_packets(run_units(start, before));
        lemma_packet_count_positive(pes);
        lemma_emitter_keeps_tables(state.emitter, state.packets_sent, pes.packet_count() as nat);
        lemma_advanced_twice(state.video_counter, 0, pes.packet_count() as nat);
        lemma_advanced_twice(start.video_counter, done, pes.packet_count() as nat);
        lemma_advanced_twice(state.video_counter, pes.packet_count() as nat, 0);
        lemma_count_twice(start.packets_sent, done, pes.packet_count() as nat);
        lemma_emitter_twice(start.emitter, start.packets_sent, done, pes.packet_count() as nat);
    }
}

/// In a run that is accepted, every beginning is accepted and the unit
/// that follows it is not refused.
pub proof fn lemma_run_step(start: StreamView, units: Seq<AccessUnitView>, count: int)
    requires
        run_accepted(start, units),
        0 <= count < units.len(),
    ensures
        run_accepted(start, units.take(count)),
        run_state(start, units.take(count)).refusal(units[count]) is None,
    decreases units.len() - count,
{
    let longer = units.take(count + 1);
    assert(longer.drop_last() =~= units.take(count));
    assert(longer.last() == units[count]);
    if count + 1 == units.len() {
        assert(longer =~= units);
    } else {
        lemma_run_step(start, units, count + 1);
        assert(units.take(count + 1).take(count) =~= units.take(count));
    }
}

/// The frame numbers of a run that is accepted never go back, and every
/// timestamp fits in 33 bits.
pub proof fn lemma_run_sequence(
    start: StreamView,
    units: Seq<AccessUnitView>,
    earlier: int,
    later: int,
)
    requires
        run_accepted(start, units),
        0 <= earlier <= later < units.len(),
    ensures
        units[earlier].sequence_number <= units[later].sequence_number,
        start.framer.rate.is_valid(),
        start.framer.ticks_of(units[later].sequence_number) <= MAX_TIMESTAMP,
    decreases later - earlier,
{
    lemma_run_step(start, units, later);
    lemma_run_state(start, units.take(later));
    if earlier < later {
        assert(units.take(later).last() == units[later - 1]);
        lemma_run_sequence(start, units, earlier, later - 1);
    }
}

/// Along a run that is accepted the presentation timestamps never decrease,
/// and each is the timestamp of its frame number.
pub proof fn lemma_run_timestamps(
    start: StreamView,
    units: Seq<AccessUnitView>,
    earlier: int,
    later: int,
)
    requires
        run_accepted(start, units),
        0 <= earlier <= later < units.len(),
    ensures
        run_units(start, units)[earlier].pts <= run_units(start, units)[later].pts,
        run_units(start, units)[later].pts == start.framer.ticks_of(
            units[later].sequence_number,
        ),
{
    lemma_run_sequence(start, units, earlier, later);
    lemma_run_sequence(start, units, earlier, earlier);
    lemma_presentation_ticks_monotonic(
        start.framer.base_pts,
        units[earlier].sequence_number,
        units[later].sequence_number,
        start.framer.rate,
    );
}

/// Every unit of a run that is accepted can be sent on the video identifier.
pub proof fn lemma_run_units_accepted(start: StreamView, units: Seq<AccessUnitView>)
    requires
        run_accepted(start, units),
    ensures
        all_accepted(run_units(start, units), start.video_pid()),
{
    let pes = run_units(start, units);
    assert forall|index: int| 0 <= index < pes.len() implies (#[trigger] pes[index]).refusal(
        start.video_pid(),
    ) is None by {
        lemma_run_step(start, units, index);
        lemma_run_state(start, units.take(index));
        let state = run_state(start, units.take(index));
        assert(state.framer.framed(units[index]) == start.framer.framed(units[index]));
    }
}

/// The video packets of the last unit of a run, among what its write
/// returns.
proof fn lemma_run_last_video(start: StreamView, units: Seq<AccessUnitView>)
    requires
        units.len() > 0,
        run_state(start, units.drop_last()).refusal(units.last()) is None,
    ensures
        on_pid(
            run_state(start, units.drop_last()).emitted(units.last()),
            start.video_pid(),
        ) == start.framer.framed(units.last()).images(
            start.video_pid(),
            advanced(start.video_counter, total_packets(run_units(start, units.drop_last()))),
        ),
{
    let before = units.drop_last();
    let state = run_state(start, before);
    let last = units.last();
    lemma_run_state(start, before);
    lemma_view_video(state, last);
    assert(state.framer.framed(last) == start.framer.framed(last));
    lemma_images_from(
        start.framer.framed(last),
        start.video_pid(),
        state.video_counter,
        advanced(start.video_counter, total_packets(run_units(start, before))),
    );
}

/// What the last unit adds to the video packets of a run.
proof fn lemma_run_units_step(start: StreamView, units: Seq<AccessUnitView>)
    requires
        units.len() > 0,
    ensures
        stream_images(run_units(start, units), start.video_pid(), start.video_counter)
            == stream_images(
            run_units(start, units.drop_last()),
            start.video_pid(),
            start.video_counter,
        ) + start.framer.framed(units.last()).images(
            start.video_pid(),
            advanced(start.video_counter, total_packets(run_units(start, units.drop_last()))),
        ),
{
    assert(run_units(start, units).drop_last() =~= run_units(start, units.drop_last()));
    assert(run_units(start, units).last() == start.framer.framed(units.last()));
}

/// The tables do not touch the video stream over a whole run: the packets
/// on the video identifier, picked out of all that a run of accepted writes
/// returns, are the video packets of its units with one counter running on
/// through them.
pub proof fn lemma_run_video(start: StreamView, units: Seq<AccessUnitView>)
    requires
        run_accepted(start, units),
    ensures
        on_pid(run_emitted(start, units), start.video_pid()) == stream_images(
            run_units(start, units),
            start.video_pid(),
            start.video_counter,
        ),
    decreases units.len(),
{
    let pid = start.video_pid();
    if units.len() == 0 {
        assert(run_units(start, units) =~= Seq::<PesUnitView>::empty());
        assert(on_pid(run_emitted(start, units), pid) =~= Seq::<Seq<u8>>::empty());
    } else {
        let before = units.drop_last();
        lemma_run_video(start, before);
        lemma_run_last_video(start, units);
        lemma_run_units_step(start, units);
        lemma_on_pid_add(
            run_emitted(start, before),
            run_state(start, before).emitted(units.last()),
            pid,
        );
    }
}

/// The cadence of the tables over a whole run: all that the writes of a run
/// return is the video packets of the run with the tables among them by the
/// count of video packets alone, as if the run were one unit.
pub proof fn lemma_run_cadence(start: StreamView, units: Seq<AccessUnitView>)
    ensures
        run_emitted(start, units) == interleaved(
            start.emitter,
            start.packets_sent,
            stream_images(run_units(start, units), start.video_pid(), start.video_counter),
        ),
    decreases units.len(),
{
    let pid = start.video_pid();
    if units.len() == 0 {
        assert(run_units(start, units) =~= Seq::<PesUnitView>::empty());
    } else {
        let before = units.drop_last();
        let state = run_state(start, before);
        let last = units.last();
        let earlier = stream_images(run_units(start, before), pid, start.video_counter);
        let done = advanced(start.video_counter, total_packets(run_units(start, before)));
        lemma_run_cadence(start, before);
        lemma_run_state(start, before);
        lemma_run_units_step(start, units);
        lemma_stream_length(run_units(start, before), pid, start.video_counter);
        assert(state.framer.framed(last) == start.framer.framed(last));
        lemma_images_from(start.framer.framed(last), pid, state.video_counter, done);
        lemma_interleaved_add(
            start.emitter,
            start.packets_sent,
            earlier,
            start.framer.framed(last).images(pid, done),
        );
    }
}

/// Over a whole run of accepted writes, video packet `index` carries the
/// counter reached from the first after `index` steps, across the
/// boundaries of access units and whatever tables stand between.
pub proof fn lemma_run_counters(start: StreamView, units: Seq<AccessUnitView>, index: int)
    requires
        run_accepted(start, units),
        0 <= index < total_packets(run_units(start, units)),
    ensures
        on_pid(run_emitted(start, units), start.video_pid()).len() == total_packets(
            run_units(start, units),
        ),
        counter_of(on_pid(run_emitted(start, units), start.video_pid())[index]) == advanced(
            start.video_counter,
            index as nat,
        ),
{
    lemma_run_video(start, units);
    lemma_run_units_accepted(start, units);
    lemma_stream_counters(run_units(start, units), start.video_pid(), start.video_counter, index);
}

/// Over a whole run of accepted writes, what is left of the video packets
/// without headers, adaptation fields and stuffing is the units of the run,
/// each PES header followed by the bytes that were handed in.
pub proof fn lemma_run_round_trip(start: StreamView, units: Seq<AccessUnitView>)
    requires
        run_accepted(start, units),
    ensures
        reassembled(on_pid(run_emitted(start, units), start.video_pid())) == run_image(
            run_units(start, units),
        ),
{
    lemma_run_video(start, units);
    lemma_run_units_accepted(start, units);
    lemma_stream_round_trip(run_units(start, units), start.video_pid(), start.video_counter);
}

/// Every packet that a run of accepted writes returns is exactly 188 bytes
/// long and begins with `0x47`.
pub proof fn lemma_run_framed(start: StreamView, units: Seq<AccessUnitView>, index: int)
    requires
        run_accepted(start, units),
        0 <= index < run_emitted(start, units).len(),
    ensures
        run_emitted(start, units)[index].len() == PACKET_SIZE,
        run_emitted(start, units)[index][0] == SYNC_BYTE,
    decreases units.len(),
{
    let before = units.drop_last();
    let earlier = run_emitted(start, before);
    if index < earlier.len() {
        lemma_run_framed(start, before, index);
    } else {
        lemma_view_framed(run_state(start, before), units.last(), index - earlier.len());
    }
}

/// The bytes of a run of accepted writes, laid end to end as the
/// destination receives them, are a whole number of records of 188 bytes,
/// and every record begins with `0x47`.
pub proof fn lemma_run_records(start: StreamView, units: Seq<AccessUnitView>, index: int)
    requires
        run_accepted(start, units),
        0 <= index < run_emitted(start, units).len(),
    ensures
        joined(run_emitted(start, units)).len() == PACKET_SIZE * run_emitted(start, units).len(),
        joined(run_emitted(start, units))[PACKET_SIZE * index] == SYNC_BYTE,
{
    let packets = run_emitted(start, units);
    assert forall|i: int| 0 <= i < packets.len() implies (#[trigger] packets[i]).len()
        == PACKET_SIZE by {
        lemma_run_framed(start, units, i);
    }
    lemma_run_framed(start, units, index);
    lemma_joined_records(packets, index);
    let record = joined(packets).subrange(PACKET_SIZE * index, PACKET_SIZE * index + PACKET_SIZE);
    assert(record[0] == joined(packets)[PACKET_SIZE * index]);
}

} // verus!
