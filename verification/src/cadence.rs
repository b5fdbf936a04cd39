//! Where the program tables stand among the video packets.
//!
//! Before every video packet the emitter is asked whether the tables are
//! due at the number of video packets sent so far; if they are, the two
//! table packets go in front of that video packet. The cadence therefore
//! follows the packet count alone and not the boundaries of access units.

use vstd::prelude::*;
use crate::packet::{lemma_image_fields, payload_of, pid_of, starts_unit_of};
use crate::sequence::{lemma_on_pid_add, lemma_on_pid_all, lemma_on_pid_none, on_pid};
use crate::tables::{ProgramTablesEmitter, PAT_PID};
use crate::wire::{lemma_image_framing, PACKET_SIZE, SYNC_BYTE};

verus! {

/// The packet count reached from `sent` after `steps` more packets; it
/// stops at the largest count.
pub open spec fn count_after(sent: u64, steps: nat) -> u64 {
    if sent + steps > u64::MAX {
        u64::MAX
    } else {
        (sent + steps) as u64
    }
}

/// The emitter after `steps` video packets have been placed, the first of
/// them at the packet count `sent`.
pub open spec fn emitter_after(emitter: ProgramTablesEmitter, sent: u64, steps: nat) -> ProgramTablesEmitter
    decreases steps,
{
    if steps == 0 {
        emitter
    } else {
        let before = emitter_after(emitter, sent, (steps - 1) as nat);
        let at = count_after(sent, (steps - 1) as nat);
        if before.is_due(at) {
            before.after_emission(at)
        } else {
            before
        }
    }
}

/// Whether the tables stand in front of video packet `index`.
pub open spec fn due_before(emitter: ProgramTablesEmitter, sent: u64, index: nat) -> bool {
    emitter_after(emitter, sent, index).is_due(count_after(sent, index))
}

/// The table packets in front of video packet `index`: both, or none.
pub open spec fn tables_before(emitter: ProgramTablesEmitter, sent: u64, index: nat) -> Seq<Seq<u8>> {
    if due_before(emitter, sent, index) {
        seq![
            emitter_after(emitter, sent, index).pat_plan().image(),
            emitter_after(emitter, sent, index).pmt_plan().image(),
        ]
    } else {
        Seq::<Seq<u8>>::empty()
    }
}

/// The video packets with the tables among them.
pub open spec fn interleaved(emitter: ProgramTablesEmitter, sent: u64, video: Seq<Seq<u8>>) -> Seq<Seq<u8>>
    decreases video.len(),
{
    if video.len() == 0 {
        Seq::<Seq<u8>>::empty()
    } else {
        interleaved(emitter, sent, video.drop_last()) + tables_before(
            emitter,
            sent,
            (video.len() - 1) as nat,
        ) + seq![video.last()]
    }
}

/// Whether the tables can be emitted wherever they stand in front of one of
/// the first `steps` video packets.
pub open spec fn tables_serialise(emitter: ProgramTablesEmitter, sent: u64, steps: nat) -> bool
    decreases steps,
{
    if steps == 0 {
        true
    } else {
        tables_serialise(emitter, sent, (steps - 1) as nat) && (due_before(
            emitter,
            sent,
            (steps - 1) as nat,
        ) ==> emitter_after(emitter, sent, (steps - 1) as nat).can_emit())
    }
}

/// Emitting the tables changes counters and the remembered count, never the
/// tables or the interval.
pub proof fn lemma_emitter_keeps_tables(emitter: ProgramTablesEmitter, sent: u64, steps: nat)
    ensures
        emitter_after(emitter, sent, steps).tables == emitter.tables,
        emitter_after(emitter, sent, steps).interval == emitter.interval,
    decreases steps,
{
    if steps > 0 {
        lemma_emitter_keeps_tables(emitter, sent, (steps - 1) as nat);
    }
}

/// The cadence: once the tables have stood in front of a video packet,
/// they stand next in front of the video packet that comes `interval`
/// packets later, and in front of none between, as long as the packet count
/// has not reached its largest value.
pub proof fn lemma_cadence(emitter: ProgramTablesEmitter, sent: u64, index: nat, gap: nat)
    requires
        due_before(emitter, sent, index),
        1 <= gap <= emitter.interval,
        sent + index + gap <= u64::MAX,
    ensures
        emitter_after(emitter, sent, index + gap).last_emitted_at == Some(
            count_after(sent, index),
        ),
        due_before(emitter, sent, index + gap) == (gap == emitter.interval),
    decreases gap,
{
    lemma_emitter_keeps_tables(emitter, sent, index);
    lemma_emitter_keeps_tables(emitter, sent, index + gap);
    assert(((index + gap) - 1) as nat == index + (gap - 1) as nat);
    if gap > 1 {
        lemma_cadence(emitter, sent, index, (gap - 1) as nat);
    }
}

/// Placing video packets in two runs moves the emitter as placing them in
/// one.
pub proof fn lemma_emitter_twice(emitter: ProgramTablesEmitter, sent: u64, first: nat, second: nat)
    ensures
        emitter_after(emitter_after(emitter, sent, first), count_after(sent, first), second)
            == emitter_after(emitter, sent, first + second),
    decreases second,
{
    if second > 0 {
        lemma_emitter_twice(emitter, sent, first, (second - 1) as nat);
        assert(((first + second) - 1) as nat == first + (second - 1) as nat);
        assert(count_after(count_after(sent, first), (second - 1) as nat) == count_after(
            sent,
            first + (second - 1) as nat,
        ));
    }
}

/// The tables stand among two runs of video packets, one after the other,
/// as they stand among the first and then, with the emitter and the packet
/// count that the first leaves, among the second: the cadence does not see
/// where one run ends and the next begins.
pub proof fn lemma_interleaved_add(
    emitter: ProgramTablesEmitter,
    sent: u64,
    first: Seq<Seq<u8>>,
    second: Seq<Seq<u8>>,
)
    ensures
        interleaved(emitter, sent, first + second) == interleaved(emitter, sent, first)
            + interleaved(
            emitter_after(emitter, sent, first.len()),
            count_after(sent, first.len()),
            second,
        ),
    decreases second.len(),
{
    let later = emitter_after(emitter, sent, first.len());
    let count = count_after(sent, first.len());
    if second.len() == 0 {
        assert(first + second =~= first);
        assert(interleaved(emitter, sent, first) + interleaved(later, count, second)
            =~= interleaved(emitter, sent, first));
    } else {
        let whole = first + second;
        let last = (second.len() - 1) as nat;
        assert(whole.drop_last() =~= first + second.drop_last());
        assert(whole.last() == second.last());
        lemma_interleaved_add(emitter, sent, first, second.drop_last());
        lemma_emitter_twice(emitter, sent, first.len(), last);
        assert(count_after(count, last) == count_after(sent, first.len() + last));
        assert((whole.len() - 1) as nat == first.len() + last);
        assert(tables_before(emitter, sent, first.len() + last) == tables_before(
            later,
            count,
            last,
        ));
        assert(interleaved(emitter, sent, whole) =~= interleaved(emitter, sent, first)
            + interleaved(later, count, second));
    }
}

/// The table packets fit in 188 bytes whenever the tables are usable.
pub proof fn lemma_table_plans_fit(emitter: ProgramTablesEmitter)
    requires
        emitter.tables.is_valid(),
    ensures
        emitter.pat_plan().fits(),
        emitter.pmt_plan().fits(),
{
}

/// What the two table packets are: the association table goes out on
/// identifier 0 and the program map on its own identifier, each as one
/// packet that starts a section and carries, behind a zero pointer byte, the
/// section that names the program, its map and its video stream.
pub proof fn lemma_table_packets(emitter: ProgramTablesEmitter)
    requires
        emitter.tables.is_valid(),
    ensures
        pid_of(emitter.pat_plan().image()) == PAT_PID,
        pid_of(emitter.pmt_plan().image()) == emitter.tables.pmt_pid,
        starts_unit_of(emitter.pat_plan().image()),
        starts_unit_of(emitter.pmt_plan().image()),
        payload_of(emitter.pat_plan().image()) == seq![0u8] + emitter.tables.pat_section(),
        payload_of(emitter.pmt_plan().image()) == seq![0u8] + emitter.tables.pmt_section(),
{
    lemma_table_plans_fit(emitter);
    lemma_image_fields(emitter.pat_plan());
    lemma_image_fields(emitter.pmt_plan());
}

/// With the tables among them, the packets are still 188 bytes each and
/// begin with `0x47`.
pub proof fn lemma_interleaved_framed(
    emitter: ProgramTablesEmitter,
    sent: u64,
    video: Seq<Seq<u8>>,
    index: int,
)
    requires
        emitter.tables.is_valid(),
        forall|i: int|
            0 <= i < video.len() ==> (#[trigger] video[i]).len() == PACKET_SIZE && video[i][0]
                == SYNC_BYTE,
        0 <= index < interleaved(emitter, sent, video).len(),
    ensures
        interleaved(emitter, sent, video)[index].len() == PACKET_SIZE,
        interleaved(emitter, sent, video)[index][0] == SYNC_BYTE,
    decreases video.len(),
{
    let last = (video.len() - 1) as nat;
    let before = interleaved(emitter, sent, video.drop_last());
    let tables = tables_before(emitter, sent, last);
    if index < before.len() {
        assert forall|i: int| 0 <= i < video.drop_last().len() implies (
        #[trigger] video.drop_last()[i]).len() == PACKET_SIZE && video.drop_last()[i][0]
            == SYNC_BYTE by {
            assert(video.drop_last()[i] == video[i]);
        }
        lemma_interleaved_framed(emitter, sent, video.drop_last(), index);
    } else if index < before.len() + tables.len() {
        let now = emitter_after(emitter, sent, last);
        lemma_emitter_keeps_tables(emitter, sent, last);
        lemma_table_plans_fit(now);
        lemma_image_framing(now.pat_plan());
        lemma_image_framing(now.pmt_plan());
    } else {
        assert(interleaved(emitter, sent, video)[index] == video[video.len() - 1]);
    }
}

/// The tables do not touch the video stream: picking the packets of the
/// video identifier out of the interleaved run gives back the video
/// packets.
pub proof fn lemma_interleaved_video(emitter: ProgramTablesEmitter, sent: u64, video: Seq<Seq<u8>>)
    requires
        emitter.tables.is_valid(),
        forall|i: int| 0 <= i < video.len() ==> pid_of(#[trigger] video[i]) == emitter.tables.video_pid,
    ensures
        on_pid(interleaved(emitter, sent, video), emitter.tables.video_pid) == video,
    decreases video.len(),
{
    let pid = emitter.tables.video_pid;
    if video.len() == 0 {
        assert(video =~= Seq::<Seq<u8>>::empty());
    } else {
        let last = (video.len() - 1) as nat;
        let before = interleaved(emitter, sent, video.drop_last());
        let tables = tables_before(emitter, sent, last);
        let now = emitter_after(emitter, sent, last);
        assert forall|i: int| 0 <= i < video.drop_last().len() implies pid_of(
            #[trigger] video.drop_last()[i],
        ) == pid by {
            assert(video.drop_last()[i] == video[i]);
        }
        lemma_interleaved_video(emitter, sent, video.drop_last());
        lemma_emitter_keeps_tables(emitter, sent, last);
        lemma_table_plans_fit(now);
        lemma_image_fields(now.pat_plan());
        lemma_image_fields(now.pmt_plan());
        lemma_on_pid_none(tables, pid);
        let tail = seq![video.last()];
        assert(pid_of(tail[0]) == pid) by {
            assert(tail[0] == video[video.len() - 1]);
        }
        lemma_on_pid_all(tail, pid);
        lemma_on_pid_add(before, tables, pid);
        lemma_on_pid_add(before + tables, tail, pid);
        assert(video.drop_last() + Seq::<Seq<u8>>::empty() + tail =~= video);
    }
}

} // verus!
