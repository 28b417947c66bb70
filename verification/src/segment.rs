//! The wire-level record of the protocol and its codec.
//!
//! A segment travels as a fixed header of 24 bytes, all fields big-endian, followed by
//! its payload:
//!
//! | bytes | field                  |
//! |-------|------------------------|
//! | 0..4  | session id             |
//! | 4     | command                |
//! | 5     | fragment id            |
//! | 6..8  | advertised window      |
//! | 8..12 | timestamp              |
//! | 12..16| sequence number        |
//! | 16..20| unacknowledged number  |
//! | 20..24| payload length         |
use crate::buffer::bytes_of;
use crate::errors::{ErrorKind, ProtocolError, ProtocolResult};
use crate::wire::{be16, be32, get_u16, get_u32, put_u16, put_u32, u16_at, u32_at};
use crate::wire::{lemma_u16_round_trip, lemma_u32_round_trip};
use crate::{CMD_ACK, CMD_PUSH, CMD_WASK, CMD_WINS, PROTOCOL_OVERHEAD};
use bytes::BytesMut;
use vstd::prelude::*;

verus! {

/// A segment: the wire fields, the engine's bookkeeping for a segment in flight, and
/// the payload.
#[derive(Debug)]
pub struct Segment {
    pub session_id: u32,
    pub command: u8,
    pub fragment_id: u8,
    pub window_size: u16,
    pub timestamp: u32,
    pub sequence_num: u32,
    pub unacked_sequence_num: u32,
    /// When the segment is due for retransmission. Never on the wire.
    pub resend_time: u32,
    /// The segment's own retransmission timeout. Never on the wire.
    pub rto: u32,
    /// How often a later segment was acknowledged before this one. Never on the wire.
    pub fastack: u32,
    /// How often the segment was transmitted. Never on the wire.
    pub xmit: u32,
    pub data: BytesMut,
}

/// A segment as a mathematical value: every field, with the payload as a byte sequence.
pub struct SegmentView {
    pub session_id: u32,
    pub command: u8,
    pub fragment_id: u8,
    pub window_size: u16,
    pub timestamp: u32,
    pub sequence_num: u32,
    pub unacked_sequence_num: u32,
    pub resend_time: u32,
    pub rto: u32,
    pub fastack: u32,
    pub xmit: u32,
    pub data: Seq<u8>,
}

/// The fixed header of a segment, as read from the wire.
#[derive(Clone, Copy, Debug, PartialEq, Eq, Structural)]
pub struct Header {
    pub session_id: u32,
    pub command: u8,
    pub fragment_id: u8,
    pub window_size: u16,
    pub timestamp: u32,
    pub sequence_num: u32,
    pub unacked_sequence_num: u32,
    pub length: u32,
}

impl View for Segment {
    type V = SegmentView;

    open spec fn view(&self) -> SegmentView {
        SegmentView {
            session_id: self.session_id,
            command: self.command,
            fragment_id: self.fragment_id,
            window_size: self.window_size,
            timestamp: self.timestamp,
            sequence_num: self.sequence_num,
            unacked_sequence_num: self.unacked_sequence_num,
            resend_time: self.resend_time,
            rto: self.rto,
            fastack: self.fastack,
            xmit: self.xmit,
            data: bytes_of(self.data),
        }
    }
}

/// The views of a run of segments, in order.
pub open spec fn views(segments: Seq<Segment>) -> Seq<SegmentView> {
    Seq::new(segments.len(), |i: int| segments[i]@)
}

/// Whether `command` is one of the four commands of the protocol.
pub open spec fn valid_command(command: u8) -> bool {
    command == CMD_PUSH || command == CMD_ACK || command == CMD_WASK || command == CMD_WINS
}

impl SegmentView {
    /// A segment with the given payload and every other field zero.
    pub open spec fn blank(data: Seq<u8>) -> SegmentView {
        SegmentView {
            session_id: 0,
            command: 0,
            fragment_id: 0,
            window_size: 0,
            timestamp: 0,
            sequence_num: 0,
            unacked_sequence_num: 0,
            resend_time: 0,
            rto: 0,
            fastack: 0,
            xmit: 0,
            data,
        }
    }

    /// The header that announces this segment; its length field is the payload length
    /// modulo 2^32.
    pub open spec fn header(self) -> Header {
        Header {
            session_id: self.session_id,
            command: self.command,
            fragment_id: self.fragment_id,
            window_size: self.window_size,
            timestamp: self.timestamp,
            sequence_num: self.sequence_num,
            unacked_sequence_num: self.unacked_sequence_num,
            length: (self.data.len() % 0x1_0000_0000) as u32,
        }
    }

    /// The segment as it travels: header, then payload.
    pub open spec fn wire(self) -> Seq<u8> {
        self.header().wire() + self.data
    }

    /// A segment that the wire can carry and a peer will accept: a known command, a
    /// payload whose length fits the header's 32-bit field, and no bookkeeping.
    pub open spec fn on_wire(self) -> bool {
        &&& valid_command(self.command)
        &&& self.data.len() <= u32::MAX
        &&& self.resend_time == 0
        &&& self.rto == 0
        &&& self.fastack == 0
        &&& self.xmit == 0
    }
}

impl Header {
    /// The 24 bytes of the header.
    #[verifier::opaque]
    pub open spec fn wire(self) -> Seq<u8> {
        be32(self.session_id) + seq![self.command, self.fragment_id] + be16(self.window_size)
            + be32(self.timestamp) + be32(self.sequence_num) + be32(self.unacked_sequence_num)
            + be32(self.length)
    }

    /// The header that stands at `bytes[at..at + 24]`.
    pub open spec fn at(bytes: Seq<u8>, at: int) -> Header {
        Header {
            session_id: u32_at(bytes, at),
            command: bytes[at + 4],
            fragment_id: bytes[at + 5],
            window_size: u16_at(bytes, at + 6),
            timestamp: u32_at(bytes, at + 8),
            sequence_num: u32_at(bytes, at + 12),
            unacked_sequence_num: u32_at(bytes, at + 16),
            length: u32_at(bytes, at + 20),
        }
    }

    /// The segment that this header announces, given its payload.
    pub open spec fn with_payload(self, data: Seq<u8>) -> SegmentView {
        SegmentView {
            session_id: self.session_id,
            command: self.command,
            fragment_id: self.fragment_id,
            window_size: self.window_size,
            timestamp: self.timestamp,
            sequence_num: self.sequence_num,
            unacked_sequence_num: self.unacked_sequence_num,
            resend_time: 0,
            rto: 0,
            fastack: 0,
            xmit: 0,
            data,
        }
    }

    /// Reads the header at `bytes[at..at + 24]`.
    pub fn read(bytes: &[u8], at: usize) -> (h: Header)
        requires
            at + PROTOCOL_OVERHEAD <= bytes@.len(),
        ensures
            h == Header::at(bytes@, at as int),
    {
        let n: usize = bytes.len();
        Header {
            session_id: get_u32(bytes, at),
            command: bytes[at + 4],
            fragment_id: bytes[at + 5],
            window_size: get_u16(bytes, at + 6),
            timestamp: get_u32(bytes, at + 8),
            sequence_num: get_u32(bytes, at + 12),
            unacked_sequence_num: get_u32(bytes, at + 16),
            length: get_u32(bytes, at + 20),
        }
    }

    /// The 24 bytes of the header.
    pub fn to_bytes(&self) -> (out: Vec<u8>)
        ensures
            out@ == self.wire(),
            out@.len() == PROTOCOL_OVERHEAD,
    {
        let mut out: Vec<u8> = Vec::with_capacity(PROTOCOL_OVERHEAD);
        put_u32(&mut out, self.session_id);
        out.push(self.command);
        out.push(self.fragment_id);
        put_u16(&mut out, self.window_size);
        put_u32(&mut out, self.timestamp);
        put_u32(&mut out, self.sequence_num);
        put_u32(&mut out, self.unacked_sequence_num);
        put_u32(&mut out, self.length);
        reveal(Header::wire);
        assert(out@ =~= self.wire());
        out
    }
}

/// What a decoder makes of `bytes`: the first segment and the number of bytes it
/// takes, or why there is none. The checks come in this order: room for a header,
/// room for the payload that the header declares, a known command.
pub open spec fn decoded(bytes: Seq<u8>) -> Result<(SegmentView, nat), ErrorKind> {
    if bytes.len() < PROTOCOL_OVERHEAD {
        Err(ErrorKind::BufferTooSmall)
    } else {
        let h = Header::at(bytes, 0);
        if bytes.len() - PROTOCOL_OVERHEAD < h.length {
            Err(ErrorKind::IncompleteMessage)
        } else if !valid_command(h.command) {
            Err(ErrorKind::InvalidCommand)
        } else {
            let end = PROTOCOL_OVERHEAD + h.length;
            Ok((h.with_payload(bytes.subrange(PROTOCOL_OVERHEAD as int, end)), end as nat))
        }
    }
}

impl Default for Segment {
    fn default() -> (s: Segment)
        ensures
            s@ == SegmentView::blank(Seq::empty()),
    {
        Segment::new(BytesMut::new())
    }
}

impl Segment {
    /// A segment that carries `data`, with every other field zero.
    pub fn new(data: BytesMut) -> (s: Segment)
        ensures
            s@ == SegmentView::blank(bytes_of(data)),
            s.data == data,
    {
        Segment {
            session_id: 0,
            command: 0,
            fragment_id: 0,
            window_size: 0,
            timestamp: 0,
            sequence_num: 0,
            unacked_sequence_num: 0,
            resend_time: 0,
            rto: 0,
            fastack: 0,
            xmit: 0,
            data,
        }
    }

    /// The number of payload bytes.
    pub fn len(&self) -> (n: usize)
        ensures
            n == self@.data.len(),
    {
        self.data.len()
    }

    /// Appends the segment as it travels to `buf`: header, then payload.
    ///
    /// The payload must fit the header's 32-bit length field, and `buf` must be able to
    /// grow by the segment's size.
    pub fn encode(&self, buf: &mut BytesMut)
        requires
            self@.data.len() <= u32::MAX,
            bytes_of(*old(buf)).len() + PROTOCOL_OVERHEAD + self@.data.len() <= isize::MAX,
        ensures
            bytes_of(*final(buf)) == bytes_of(*old(buf)) + self@.wire(),
    {
        let header = Header {
            session_id: self.session_id,
            command: self.command,
            fragment_id: self.fragment_id,
            window_size: self.window_size,
            timestamp: self.timestamp,
            sequence_num: self.sequence_num,
            unacked_sequence_num: self.unacked_sequence_num,
            length: self.data.len() as u32,
        };
        assert(header == self@.header());
        let head = header.to_bytes();
        buf.extend_from_slice(head.as_slice());
        let payload: &[u8] = self.data.as_ref();
        buf.extend_from_slice(payload);
        assert(bytes_of(*buf) =~= bytes_of(*old(buf)) + self@.wire());
    }

    /// Decodes the first segment of `bytes`, and says how many bytes it took.
    ///
    /// Fails with `BufferTooSmall` where `bytes` cannot hold a header, with
    /// `IncompleteMessage` where it is shorter than the payload that the header
    /// declares, and with `InvalidCommand` where the command is unknown.
    pub fn decode(bytes: &[u8]) -> (r: ProtocolResult<(Segment, usize)>)
        ensures
            match r {
                Ok((segment, used)) => decoded(bytes@) == Ok::<(SegmentView, nat), ErrorKind>(
                    (segment@, used as nat),
                ),
                Err(e) => decoded(bytes@) == Err::<(SegmentView, nat), ErrorKind>(e.spec_kind()),
            },
    {
        if bytes.len() < PROTOCOL_OVERHEAD {
            return Err(ProtocolError::BufferTooSmall);
        }
        let h = Header::read(bytes, 0);
        if ((bytes.len() - PROTOCOL_OVERHEAD) as u64) < h.length as u64 {
            return Err(ProtocolError::IncompleteMessage);
        }
        if h.command != CMD_PUSH && h.command != CMD_ACK && h.command != CMD_WASK && h.command
            != CMD_WINS {
            return Err(ProtocolError::InvalidCommand);
        }
        let end: usize = PROTOCOL_OVERHEAD + h.length as usize;
        let payload = vstd::slice::slice_subrange(bytes, PROTOCOL_OVERHEAD, end);
        let segment = Segment {
            session_id: h.session_id,
            command: h.command,
            fragment_id: h.fragment_id,
            window_size: h.window_size,
            timestamp: h.timestamp,
            sequence_num: h.sequence_num,
            unacked_sequence_num: h.unacked_sequence_num,
            resend_time: 0,
            rto: 0,
            fastack: 0,
            xmit: 0,
            data: BytesMut::from(payload),
        };
        Ok((segment, end))
    }
}

/// A header read back from its own bytes is the header written, whatever follows.
pub proof fn lemma_header_round_trip(h: Header, rest: Seq<u8>)
    ensures
        Header::at(h.wire() + rest, 0) == h,
        h.wire().len() == PROTOCOL_OVERHEAD,
{
    reveal(Header::wire);
    let e = Seq::<u8>::empty();
    let all = h.wire() + rest;
    let upto_session = be32(h.session_id);
    let upto_flags = upto_session + seq![h.command, h.fragment_id];
    let upto_window = upto_flags + be16(h.window_size);
    let upto_stamp = upto_window + be32(h.timestamp);
    let upto_number = upto_stamp + be32(h.sequence_num);
    let upto_una = upto_number + be32(h.unacked_sequence_num);
    let from_flags = seq![h.command, h.fragment_id] + be16(h.window_size) + be32(h.timestamp) + be32(
        h.sequence_num,
    ) + be32(h.unacked_sequence_num) + be32(h.length) + rest;
    let from_stamp = be32(h.timestamp) + be32(h.sequence_num) + be32(h.unacked_sequence_num) + be32(
        h.length,
    ) + rest;
    let from_number = be32(h.sequence_num) + be32(h.unacked_sequence_num) + be32(h.length) + rest;
    let from_una = be32(h.unacked_sequence_num) + be32(h.length) + rest;
    let from_length = be32(h.length) + rest;
    assert(all =~= e + be32(h.session_id) + from_flags);
    lemma_u32_round_trip(e, h.session_id, from_flags);
    assert(all =~= upto_flags + be16(h.window_size) + from_stamp);
    lemma_u16_round_trip(upto_flags, h.window_size, from_stamp);
    assert(all =~= upto_window + be32(h.timestamp) + from_number);
    lemma_u32_round_trip(upto_window, h.timestamp, from_number);
    assert(all =~= upto_stamp + be32(h.sequence_num) + from_una);
    lemma_u32_round_trip(upto_stamp, h.sequence_num, from_una);
    assert(all =~= upto_number + be32(h.unacked_sequence_num) + from_length);
    lemma_u32_round_trip(upto_number, h.unacked_sequence_num, from_length);
    assert(all =~= upto_una + be32(h.length) + rest);
    lemma_u32_round_trip(upto_una, h.length, rest);
    assert(all[4] == h.command);
    assert(all[5] == h.fragment_id);
}

/// A segment travels as 24 bytes of header and its payload.
pub proof fn lemma_wire_len(s: SegmentView)
    ensures
        s.wire().len() == PROTOCOL_OVERHEAD + s.data.len(),
{
    lemma_header_round_trip(s.header(), Seq::empty());
}

/// Decoding what `encode` wrote yields the segment encoded and takes exactly its
/// bytes, whatever follows them.
pub proof fn lemma_decode_encode(s: SegmentView, rest: Seq<u8>)
    requires
        s.on_wire(),
    ensures
        decoded(s.wire() + rest) == Ok::<(SegmentView, nat), ErrorKind>(
            (s, (PROTOCOL_OVERHEAD + s.data.len()) as nat),
        ),
        s.wire().len() == PROTOCOL_OVERHEAD + s.data.len(),
{
    let h = s.header();
    let all = s.wire() + rest;
    lemma_header_round_trip(h, s.data + rest);
    assert(all =~= h.wire() + (s.data + rest));
    assert(all.subrange(PROTOCOL_OVERHEAD as int, PROTOCOL_OVERHEAD + s.data.len()) =~= s.data);
    assert(h.with_payload(s.data) == s);
}

} // verus!
