//! Runs of transport packets: laying them end to end and picking out those
//! of one identifier.

use vstd::prelude::*;
use crate::packet::{pid_of, TransportPacket};
use crate::wire::PACKET_SIZE;

verus! {

/// The given packets laid end to end.
pub open spec fn joined(packets: Seq<Seq<u8>>) -> Seq<u8>
    decreases packets.len(),
{
    if packets.len() == 0 {
        Seq::<u8>::empty()
    } else {
        joined(packets.drop_last()) + packets.last()
    }
}

/// The bytes of each of the given packets.
pub open spec fn images_of(packets: Seq<TransportPacket>) -> Seq<Seq<u8>> {
    Seq::new(packets.len(), |index: int| packets[index]@)
}

/// Appends the bytes of `packet` to `out`.
pub fn append_packet(out: &mut Vec<u8>, packet: &TransportPacket)
    ensures
        final(out)@ == old(out)@ + packet@,
{
    let bytes = packet.as_bytes();
    let mut position: usize = 0;
    assert(out@ =~= old(out)@ + bytes@.take(0));
    while position < bytes.len()
        invariant
            position <= bytes.len(),
            out@ == old(out)@ + bytes@.take(position as int),
        decreases bytes.len() - position,
    {
        out.push(bytes[position]);
        assert(out@ =~= old(out)@ + bytes@.take(position + 1));
        position = position + 1;
    }
    assert(bytes@.take(bytes.len() as int) =~= bytes@);
}

/// Joining two runs of packets one after the other joins their bytes.
pub proof fn lemma_joined_add(first: Seq<Seq<u8>>, second: Seq<Seq<u8>>)
    ensures
        joined(first + second) == joined(first) + joined(second),
    decreases second.len(),
{
    if second.len() == 0 {
        assert(first + second =~= first);
        assert(joined(second) =~= Seq::<u8>::empty());
        assert(joined(first) + joined(second) =~= joined(first));
    } else {
        let whole = first + second;
        assert(whole.drop_last() =~= first + second.drop_last());
        assert(whole.last() == second.last());
        lemma_joined_add(first, second.drop_last());
        assert(joined(whole) =~= joined(first) + joined(second));
    }
}

/// The packets of a run that carry the identifier `pid`, in order.
pub open spec fn on_pid(packets: Seq<Seq<u8>>, pid: u16) -> Seq<Seq<u8>>
    decreases packets.len(),
{
    if packets.len() == 0 {
        packets
    } else if pid_of(packets.last()) == pid {
        on_pid(packets.drop_last(), pid).push(packets.last())
    } else {
        on_pid(packets.drop_last(), pid)
    }
}

/// Picking the packets of one identifier out of two runs, one after the
/// other, picks them out of each.
pub proof fn lemma_on_pid_add(first: Seq<Seq<u8>>, second: Seq<Seq<u8>>, pid: u16)
    ensures
        on_pid(first + second, pid) == on_pid(first, pid) + on_pid(second, pid),
    decreases second.len(),
{
    if second.len() == 0 {
        assert(first + second =~= first);
        assert(on_pid(first, pid) + on_pid(second, pid) =~= on_pid(first, pid));
    } else {
        let whole = first + second;
        assert(whole.drop_last() =~= first + second.drop_last());
        assert(whole.last() == second.last());
        lemma_on_pid_add(first, second.drop_last(), pid);
        assert(on_pid(whole, pid) =~= on_pid(first, pid) + on_pid(second, pid));
    }
}

/// A run in which every packet carries `pid` is picked out whole.
pub proof fn lemma_on_pid_all(packets: Seq<Seq<u8>>, pid: u16)
    requires
        forall|i: int| 0 <= i < packets.len() ==> pid_of(#[trigger] packets[i]) == pid,
    ensures
        on_pid(packets, pid) == packets,
    decreases packets.len(),
{
    if packets.len() > 0 {
        lemma_on_pid_all(packets.drop_last(), pid);
        assert(packets.drop_last().push(packets.last()) =~= packets);
    }
}

/// Nothing is picked out of a run in which no packet carries `pid`.
pub proof fn lemma_on_pid_none(packets: Seq<Seq<u8>>, pid: u16)
    requires
        forall|i: int| 0 <= i < packets.len() ==> pid_of(#[trigger] packets[i]) != pid,
    ensures
        on_pid(packets, pid) == Seq::<Seq<u8>>::empty(),
    decreases packets.len(),
{
    if packets.len() > 0 {
        lemma_on_pid_none(packets.drop_last(), pid);
    } else {
        assert(packets =~= Seq::<Seq<u8>>::empty());
    }
}

/// In a run of packets of 188 bytes each, laid end to end, record `index`
/// of 188 bytes is packet `index`.
pub proof fn lemma_joined_records(packets: Seq<Seq<u8>>, index: int)
    requires
        forall|i: int| 0 <= i < packets.len() ==> (#[trigger] packets[i]).len() == PACKET_SIZE,
        0 <= index < packets.len(),
    ensures
        joined(packets).len() == PACKET_SIZE * packets.len(),
        joined(packets).subrange(PACKET_SIZE * index, PACKET_SIZE * index + PACKET_SIZE)
            == packets[index],
    decreases packets.len(),
{
    let before = packets.drop_last();
    lemma_joined_len(packets);
    lemma_joined_len(before);
    if index == packets.len() - 1 {
        assert(joined(packets).subrange(PACKET_SIZE * index, PACKET_SIZE * index + PACKET_SIZE)
            =~= packets[index]);
    } else {
        lemma_joined_records(before, index);
        assert(joined(packets).subrange(PACKET_SIZE * index, PACKET_SIZE * index + PACKET_SIZE)
            =~= joined(before).subrange(PACKET_SIZE * index, PACKET_SIZE * index + PACKET_SIZE));
    }
}

/// A run of packets of 188 bytes each is 188 bytes for every packet.
pub proof fn lemma_joined_len(packets: Seq<Seq<u8>>)
    requires
        forall|i: int| 0 <= i < packets.len() ==> (#[trigger] packets[i]).len() == PACKET_SIZE,
    ensures
        joined(packets).len() == PACKET_SIZE * packets.len(),
    decreases packets.len(),
{
    if packets.len() > 0 {
        lemma_joined_len(packets.drop_last());
    }
}

} // verus!
