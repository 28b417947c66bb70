//! Packing encoded segments back to back into packets of at most one MTU.
use crate::buffer::{bytes_of, contents};
use crate::segment::{Header, Segment};
use crate::state::sendable;
use crate::PROTOCOL_OVERHEAD;
use bytes::BytesMut;
use vstd::prelude::*;

verus! {

/// The packets that are complete, and the bytes gathered for the next one.
pub struct Packed {
    pub done: Seq<Seq<u8>>,
    pub pending: Seq<u8>,
}

/// The byte strings that a list of packets holds.
pub open spec fn payloads(packets: Seq<Vec<u8>>) -> Seq<Seq<u8>> {
    Seq::new(packets.len(), |i: int| packets[i]@)
}

/// Adds one encoded segment. Where it no longer fits behind the pending bytes within
/// `mtu`, those become a packet of their own first, unless there are none.
pub open spec fn pack_one(p: Packed, chunk: Seq<u8>, mtu: nat) -> Packed {
    if p.pending.len() + chunk.len() > mtu {
        Packed { done: if p.pending.len() > 0 { p.done.push(p.pending) } else { p.done }, pending: chunk }
    } else {
        Packed { done: p.done, pending: p.pending + chunk }
    }
}

/// Adds encoded segments one by one, first to last.
pub open spec fn pack_all(p: Packed, chunks: Seq<Seq<u8>>, mtu: nat) -> Packed
    decreases chunks.len(),
{
    if chunks.len() == 0 {
        p
    } else {
        pack_one(pack_all(p, chunks.drop_last(), mtu), chunks.last(), mtu)
    }
}

/// The packets that carry `chunks`: each chunk whole, in order, as many to a packet as
/// fit within `mtu`.
pub open spec fn packets_of(chunks: Seq<Seq<u8>>, mtu: nat) -> Seq<Seq<u8>> {
    let p = pack_all(Packed { done: Seq::empty(), pending: Seq::empty() }, chunks, mtu);
    if p.pending.len() > 0 {
        p.done.push(p.pending)
    } else {
        p.done
    }
}

/// Most bytes that the encoding buffer ever holds.
pub open spec fn pending_limit() -> int {
    isize::MAX / 3
}

/// Packing one list and then another is packing both in a row.
pub proof fn lemma_pack_all_concat(p: Packed, a: Seq<Seq<u8>>, b: Seq<Seq<u8>>, mtu: nat)
    ensures
        pack_all(pack_all(p, a, mtu), b, mtu) == pack_all(p, a + b, mtu),
    decreases b.len(),
{
    if b.len() == 0 {
        assert(a + b =~= a);
    } else {
        lemma_pack_all_concat(p, a, b.drop_last(), mtu);
        assert((a + b).drop_last() =~= a + b.drop_last());
        assert((a + b).last() == b.last());
    }
}

/// Packing one more chunk is one step of packing.
pub proof fn lemma_pack_all_push(p: Packed, a: Seq<Seq<u8>>, chunk: Seq<u8>, mtu: nat)
    ensures
        pack_all(p, a.push(chunk), mtu) == pack_one(pack_all(p, a, mtu), chunk, mtu),
{
    assert(a.push(chunk).drop_last() =~= a);
}

/// The byte strings of `chunks`, one after the other.
pub open spec fn joined(chunks: Seq<Seq<u8>>) -> Seq<u8>
    decreases chunks.len(),
{
    if chunks.len() == 0 {
        Seq::empty()
    } else {
        joined(chunks.drop_last()) + chunks.last()
    }
}

/// Whether `packet` is a packet as packing makes them: not empty, and within `mtu`
/// unless it is a single chunk that is longer by itself.
pub open spec fn well_packed(packet: Seq<u8>, chunks: Seq<Seq<u8>>, mtu: nat) -> bool {
    &&& packet.len() > 0
    &&& packet.len() <= mtu || exists|j: int| 0 <= j < chunks.len() && #[trigger] chunks[j] == packet
}

/// Packing neither loses nor adds nor reorders a byte.
pub proof fn lemma_pack_all_keeps_bytes(p: Packed, chunks: Seq<Seq<u8>>, mtu: nat)
    ensures
        joined(pack_all(p, chunks, mtu).done) + pack_all(p, chunks, mtu).pending == joined(p.done)
            + p.pending + joined(chunks),
    decreases chunks.len(),
{
    if chunks.len() == 0 {
        assert(joined(p.done) + p.pending + joined(chunks) =~= joined(p.done) + p.pending);
    } else {
        let before = pack_all(p, chunks.drop_last(), mtu);
        lemma_pack_all_keeps_bytes(p, chunks.drop_last(), mtu);
        let after = pack_one(before, chunks.last(), mtu);
        if before.pending.len() + chunks.last().len() > mtu && before.pending.len() > 0 {
            assert(before.done.push(before.pending).drop_last() =~= before.done);
        }
        assert(joined(after.done) + after.pending =~= joined(before.done) + before.pending
            + chunks.last());
        assert(joined(p.done) + p.pending + joined(chunks) =~= joined(p.done) + p.pending + joined(
            chunks.drop_last(),
        ) + chunks.last());
    }
}

/// The packets of a flush, one after the other, are the encoded segments of the
/// flush, one after the other.
pub proof fn lemma_packets_keep_bytes(chunks: Seq<Seq<u8>>, mtu: nat)
    ensures
        joined(packets_of(chunks, mtu)) == joined(chunks),
{
    let empty = Packed { done: Seq::empty(), pending: Seq::empty() };
    let p = pack_all(empty, chunks, mtu);
    lemma_pack_all_keeps_bytes(empty, chunks, mtu);
    assert(joined(empty.done) + empty.pending + joined(chunks) =~= joined(chunks));
    if p.pending.len() > 0 {
        assert(p.done.push(p.pending).drop_last() =~= p.done);
    } else {
        assert(joined(p.done) + p.pending =~= joined(p.done));
    }
}

/// While packing, every packet that is complete is well packed, and what is pending
/// is within `mtu` or a single chunk.
pub proof fn lemma_pack_all_well_packed(chunks: Seq<Seq<u8>>, mtu: nat)
    ensures
        ({
            let p = pack_all(Packed { done: Seq::empty(), pending: Seq::empty() }, chunks, mtu);
            &&& forall|i: int| 0 <= i < p.done.len() ==> well_packed(#[trigger] p.done[i], chunks, mtu)
            &&& p.pending.len() <= mtu || exists|j: int|
                0 <= j < chunks.len() && #[trigger] chunks[j] == p.pending
        }),
    decreases chunks.len(),
{
    let empty = Packed { done: Seq::empty(), pending: Seq::empty() };
    if chunks.len() > 0 {
        let earlier = chunks.drop_last();
        let before = pack_all(empty, earlier, mtu);
        lemma_pack_all_well_packed(earlier, mtu);
        let after = pack_one(before, chunks.last(), mtu);
        assert forall|packet: Seq<u8>| well_packed(packet, earlier, mtu) implies well_packed(
            packet,
            chunks,
            mtu,
        ) by {
            if packet.len() > mtu {
                let j = choose|j: int| 0 <= j < earlier.len() && #[trigger] earlier[j] == packet;
                assert(chunks[j] == packet);
            }
        }
        if before.pending.len() > mtu {
            let j = choose|j: int| 0 <= j < earlier.len() && #[trigger] earlier[j] == before.pending;
            assert(chunks[j] == before.pending);
        }
        assert(chunks[chunks.len() - 1] == chunks.last());
        assert forall|i: int| 0 <= i < after.done.len() implies well_packed(
            #[trigger] after.done[i],
            chunks,
            mtu,
        ) by {
            if i < before.done.len() {
                assert(after.done[i] == before.done[i]);
            }
        }
    }
}

/// Every packet of a flush holds at least one byte, and at most `mtu` bytes unless
/// it is a single segment that is longer by itself.
pub proof fn lemma_packets_well_packed(chunks: Seq<Seq<u8>>, mtu: nat)
    ensures
        forall|i: int|
            0 <= i < packets_of(chunks, mtu).len() ==> well_packed(
                #[trigger] packets_of(chunks, mtu)[i],
                chunks,
                mtu,
            ),
{
    lemma_pack_all_well_packed(chunks, mtu);
    let p = pack_all(Packed { done: Seq::empty(), pending: Seq::empty() }, chunks, mtu);
    assert forall|i: int| 0 <= i < packets_of(chunks, mtu).len() implies well_packed(
        #[trigger] packets_of(chunks, mtu)[i],
        chunks,
        mtu,
    ) by {
        if i < p.done.len() {
            assert(packets_of(chunks, mtu)[i] == p.done[i]);
        }
    }
}

/// Makes room in `buffer` for `need` more bytes within `mtu`: where they do not fit,
/// what the buffer holds becomes a packet of `out`.
fn make_room(buffer: &mut BytesMut, out: &mut Vec<Vec<u8>>, need: usize, mtu: usize)
    ensures
        bytes_of(*old(buffer)).len() + need > mtu ==> bytes_of(*final(buffer)).len() == 0,
        bytes_of(*old(buffer)).len() + need > mtu && bytes_of(*old(buffer)).len() > 0
            ==> payloads(final(out)@) == payloads(old(out)@).push(bytes_of(*old(buffer))),
        bytes_of(*old(buffer)).len() + need > mtu && bytes_of(*old(buffer)).len() == 0
            ==> payloads(final(out)@) == payloads(old(out)@),
        bytes_of(*old(buffer)).len() + need <= mtu ==> bytes_of(*final(buffer)) == bytes_of(
            *old(buffer),
        ) && payloads(final(out)@) == payloads(old(out)@),
{
    let held: usize = buffer.len();
    let fits: bool = match held.checked_add(need) {
        Some(total) => total <= mtu,
        None => false,
    };
    if !fits {
        if held > 0 {
            let slice: &[u8] = contents(buffer);
            let packet: Vec<u8> = vstd::slice::slice_to_vec(slice);
            out.push(packet);
            assert(payloads(out@) =~= payloads(old(out)@).push(bytes_of(*old(buffer))));
        }
        buffer.clear();
    }
}

/// Packs a segment without payload, given by its header.
pub fn pack_header(buffer: &mut BytesMut, out: &mut Vec<Vec<u8>>, header: &Header, mtu: usize)
    requires
        bytes_of(*old(buffer)).len() <= pending_limit(),
        mtu <= pending_limit(),
    ensures
        (Packed { done: payloads(final(out)@), pending: bytes_of(*final(buffer)) }) == pack_one(
            Packed { done: payloads(old(out)@), pending: bytes_of(*old(buffer)) },
            header.wire(),
            mtu as nat,
        ),
        bytes_of(*final(buffer)).len() <= pending_limit(),
{
    let bytes = header.to_bytes();
    make_room(buffer, out, PROTOCOL_OVERHEAD, mtu);
    buffer.extend_from_slice(bytes.as_slice());
    proof {
        assert(bytes_of(*buffer) =~= if bytes_of(*old(buffer)).len() + PROTOCOL_OVERHEAD > mtu {
            header.wire()
        } else {
            bytes_of(*old(buffer)) + header.wire()
        });
    }
}

/// Packs a segment with its payload.
pub fn pack_segment(buffer: &mut BytesMut, out: &mut Vec<Vec<u8>>, segment: &Segment, mtu: usize)
    requires
        bytes_of(*old(buffer)).len() <= pending_limit(),
        mtu <= pending_limit(),
        sendable(segment@),
    ensures
        (Packed { done: payloads(final(out)@), pending: bytes_of(*final(buffer)) }) == pack_one(
            Packed { done: payloads(old(out)@), pending: bytes_of(*old(buffer)) },
            segment@.wire(),
            mtu as nat,
        ),
        bytes_of(*final(buffer)).len() <= pending_limit(),
{
    proof {
        crate::segment::lemma_wire_len(segment@);
    }
    let need: usize = PROTOCOL_OVERHEAD + segment.data.len();
    make_room(buffer, out, need, mtu);
    segment.encode(buffer);
    proof {
        assert(bytes_of(*buffer) =~= if bytes_of(*old(buffer)).len() + need > mtu {
            segment@.wire()
        } else {
            bytes_of(*old(buffer)) + segment@.wire()
        });
    }
}

/// Hands out what the buffer still holds as the last packet, and empties it.
pub fn pack_rest(buffer: &mut BytesMut, out: &mut Vec<Vec<u8>>)
    ensures
        bytes_of(*final(buffer)).len() == 0,
        payloads(final(out)@) == (if bytes_of(*old(buffer)).len() > 0 {
            payloads(old(out)@).push(bytes_of(*old(buffer)))
        } else {
            payloads(old(out)@)
        }),
{
    if buffer.len() > 0 {
        let slice: &[u8] = contents(buffer);
        let packet: Vec<u8> = vstd::slice::slice_to_vec(slice);
        out.push(packet);
        assert(payloads(out@) =~= payloads(old(out)@).push(bytes_of(*old(buffer))));
    }
    buffer.clear();
}

} // verus!
