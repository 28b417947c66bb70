//! A request to send a payload, with the guarantees it asks for.
use crate::buffer::{bytes_of, frozen_of};
use crate::guarantees::{DeliveryGuarantee, OrderingGuarantee};
use crate::wire::{be16, be32, put_u16, put_u32};
use bytes::{Bytes, BytesMut};
use vstd::prelude::*;

verus! {

/// The stream id of a datagram that belongs to no stream.
pub const NO_STREAM: usize = 0xFF;

/// A payload to send, the guarantees it asks for, and the stream it belongs to.
pub struct Datagram<'a> {
    pub stream_id: usize,
    pub delivery: DeliveryGuarantee,
    pub ordering: OrderingGuarantee,
    pub payload: &'a [u8],
}

impl<'a> Datagram<'a> {
    /// Bare datagram: may arrive out of order, or not at all.
    pub fn unreliable(payload: &'a [u8]) -> (d: Self)
        ensures
            d.delivery == DeliveryGuarantee::Unreliable,
            d.ordering == OrderingGuarantee::Unordered,
            d.stream_id == NO_STREAM,
            d.payload@ == payload@,
    {
        Self {
            delivery: DeliveryGuarantee::Unreliable,
            ordering: OrderingGuarantee::Unordered,
            stream_id: NO_STREAM,
            payload,
        }
    }

    /// May be lost; of those that arrive on stream `stream_id`, only the newest is
    /// accepted.
    pub fn sequenced(payload: &'a [u8], stream_id: usize) -> (d: Self)
        ensures
            d.delivery == DeliveryGuarantee::Unreliable,
            d.ordering == OrderingGuarantee::Sequenced,
            d.stream_id == stream_id,
            d.payload@ == payload@,
    {
        Self {
            delivery: DeliveryGuarantee::Unreliable,
            ordering: OrderingGuarantee::Sequenced,
            stream_id,
            payload,
        }
    }

    /// Arrives, once, in any order.
    pub fn reliable(payload: &'a [u8]) -> (d: Self)
        ensures
            d.delivery == DeliveryGuarantee::Reliable,
            d.ordering == OrderingGuarantee::Unordered,
            d.stream_id == NO_STREAM,
            d.payload@ == payload@,
    {
        Self {
            delivery: DeliveryGuarantee::Reliable,
            ordering: OrderingGuarantee::Unordered,
            stream_id: NO_STREAM,
            payload,
        }
    }

    /// Arrives; of those on stream `stream_id`, only the newest is accepted.
    pub fn reliable_sequenced(payload: &'a [u8], stream_id: usize) -> (d: Self)
        ensures
            d.delivery == DeliveryGuarantee::Reliable,
            d.ordering == OrderingGuarantee::Sequenced,
            d.stream_id == stream_id,
            d.payload@ == payload@,
    {
        Self {
            delivery: DeliveryGuarantee::Reliable,
            ordering: OrderingGuarantee::Sequenced,
            stream_id,
            payload,
        }
    }

    /// Arrives, once, and in the order sent on stream `stream_id`.
    pub fn reliable_ordered(payload: &'a [u8], stream_id: usize) -> (d: Self)
        ensures
            d.delivery == DeliveryGuarantee::Reliable,
            d.ordering == OrderingGuarantee::Ordered,
            d.stream_id == stream_id,
            d.payload@ == payload@,
    {
        Self {
            delivery: DeliveryGuarantee::Reliable,
            ordering: OrderingGuarantee::Ordered,
            stream_id,
            payload,
        }
    }
}

/// The header that travels ahead of the payload of an unreliable datagram on a
/// stream: the stream id in eight bytes and the datagram's number on the stream in
/// two, both big-endian.
pub open spec fn stream_header(stream_id: usize, sequence_num: u16) -> Seq<u8> {
    be32((stream_id as int / 0x1_0000_0000) as u32) + be32((stream_id as int % 0x1_0000_0000) as u32)
        + be16(sequence_num)
}

/// An unreliable datagram as it travels: the payload alone where it belongs to no
/// stream, else the stream header and the payload.
pub open spec fn unreliable_wire(stream: Option<(usize, u16)>, payload: Seq<u8>) -> Seq<u8> {
    match stream {
        Some((stream_id, sequence_num)) => stream_header(stream_id, sequence_num) + payload,
        None => payload,
    }
}

/// Encodes an unreliable datagram.
pub fn encode_unreliable(stream: Option<(usize, u16)>, payload: &[u8]) -> (bytes: Vec<u8>)
    ensures
        bytes@ == unreliable_wire(stream, payload@),
{
    let mut bytes: Vec<u8> = Vec::new();
    match stream {
        Some((stream_id, sequence_num)) => {
            let id: u64 = stream_id as u64;
            put_u32(&mut bytes, (id / 0x1_0000_0000) as u32);
            put_u32(&mut bytes, (id % 0x1_0000_0000) as u32);
            put_u16(&mut bytes, sequence_num);
        },
        None => {},
    }
    let ghost head = bytes@;
    let mut i: usize = 0;
    while i < payload.len()
        invariant
            0 <= i <= payload@.len(),
            bytes@ == head + payload@.take(i as int),
        decreases payload@.len() - i,
    {
        bytes.push(payload[i]);
        assert(bytes@ =~= head + payload@.take(i as int + 1));
        i = i + 1;
    }
    assert(payload@.take(payload@.len() as int) =~= payload@);
    assert(bytes@ =~= unreliable_wire(stream, payload@));
    bytes
}

/// What has been received: a whole message, or a part of one.
#[derive(Debug)]
pub enum ProcessedDatagram {
    Fragment { payload: BytesMut },
    Full { payload: BytesMut },
}

impl ProcessedDatagram {
    /// The bytes that travel ahead of every datagram: none.
    pub fn serialize() -> (b: Bytes)
        ensures
            frozen_of(b) == Seq::<u8>::empty(),
    {
        Bytes::new()
    }

    /// The bytes carried.
    pub open spec fn contents(self) -> Seq<u8> {
        match self {
            ProcessedDatagram::Fragment { payload } => bytes_of(payload),
            ProcessedDatagram::Full { payload } => bytes_of(payload),
        }
    }
}

/// A whole message.
pub fn full(payload: BytesMut) -> (d: ProcessedDatagram)
    ensures
        d == (ProcessedDatagram::Full { payload }),
{
    ProcessedDatagram::Full { payload }
}

/// A part of a message.
pub fn fragment(payload: BytesMut) -> (d: ProcessedDatagram)
    ensures
        d == (ProcessedDatagram::Fragment { payload }),
{
    ProcessedDatagram::Fragment { payload }
}

} // verus!
