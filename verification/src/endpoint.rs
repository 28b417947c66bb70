//! The facade of the protocol: one endpoint with its settings, its streams, its
//! counters and its reliability engine.
use crate::buffer::{bytes_of, frozen_of};
use crate::config::Config;
use crate::connection::ReliableConnection;
use crate::datagram::{
    encode_unreliable, fragment, full, unreliable_wire, Datagram, ProcessedDatagram,
};
use crate::errors::{ErrorKind, ProtocolError, ProtocolResult};
use crate::guarantees::{DeliveryGuarantee, OrderingGuarantee};
use crate::message::next_message;
use crate::metrics::{DataPoint, Metrics, DATA_POINTS};
use crate::packing::payloads;
use crate::state::ConnectionView;
use crate::streams::{OrderedStream, SequencedStream};
use bytes::{Bytes, BytesMut};
use vstd::prelude::*;

verus! {

/// The interface to the protocol handling.
pub struct Endpoint {
    config: Config,
    ordered_streams: Vec<OrderedStream>,
    sequenced_streams: Vec<SequencedStream>,
    metrics: Metrics,
    connection: ReliableConnection,
}

/// The numbers of a run of sequenced streams: for each the newest number.
pub open spec fn newest_numbers(streams: Seq<SequencedStream>) -> Seq<u16> {
    Seq::new(streams.len(), |i: int| streams[i].newest())
}

/// The counters after an input: every data segment that the engine dropped counts
/// as a stale packet, and an input that was cut short by an error counts as an
/// invalid packet.
pub open spec fn tallied(counts: Seq<u64>, dropped: u64, invalid: bool) -> Seq<u64> {
    let stale = Metrics::added(counts, DataPoint::PacketsStale, dropped);
    if invalid {
        Metrics::added(stale, DataPoint::PacketsInvalid, 1)
    } else {
        stale
    }
}

impl Endpoint {
    /// The settings that the endpoint was made with.
    pub closed spec fn config(&self) -> Config {
        self.config
    }

    /// Number of ordered streams.
    pub closed spec fn ordered_streams(&self) -> nat {
        self.ordered_streams@.len()
    }

    /// For each sequenced stream the number of the datagram sent last on it.
    pub closed spec fn sequenced_numbers(&self) -> Seq<u16> {
        newest_numbers(self.sequenced_streams@)
    }

    /// Number of sequenced streams.
    pub open spec fn sequenced_streams(&self) -> nat {
        self.sequenced_numbers().len()
    }

    /// The counters, in the order of the kinds.
    pub closed spec fn counts(&self) -> Seq<u64> {
        self.metrics.counts()
    }

    /// The state of the reliability engine.
    pub closed spec fn engine(&self) -> ConnectionView {
        self.connection@
    }

    /// What holds of an endpoint before and after every call: its engine is well
    /// formed, and every data segment that the engine has dropped is counted.
    pub open spec fn wf(&self) -> bool {
        &&& self.engine().wf()
        &&& self.engine().dropped == 0
        &&& self.counts().len() == DATA_POINTS
    }

    /// Why `send` refuses `datagram`, if it does.
    ///
    /// A datagram that may be lost cannot ask to stay in order. A datagram that asks
    /// for an order must name a stream that exists. A reliable one must not be
    /// longer than the settings allow, and must be one that the engine accepts.
    pub open spec fn send_error(&self, datagram: Datagram) -> Option<ErrorKind> {
        match datagram.delivery {
            DeliveryGuarantee::Unreliable => if datagram.ordering == OrderingGuarantee::Ordered {
                Some(ErrorKind::InvalidConfiguration)
            } else if datagram.ordering == OrderingGuarantee::Sequenced && datagram.stream_id
                >= self.sequenced_streams() {
                Some(ErrorKind::InvalidStreamId)
            } else {
                None
            },
            DeliveryGuarantee::Reliable => if datagram.payload@.len() > self.config().max_payload() {
                Some(ErrorKind::PayloadTooLarge)
            } else if datagram.ordering == OrderingGuarantee::Sequenced && datagram.stream_id
                >= self.sequenced_streams() {
                Some(ErrorKind::InvalidStreamId)
            } else if datagram.ordering == OrderingGuarantee::Ordered && datagram.stream_id
                >= self.ordered_streams() {
                Some(ErrorKind::InvalidStreamId)
            } else {
                self.engine().send_error(datagram.payload@)
            },
        }
    }

    /// Whether `datagram` is one that `send` numbers on a sequenced stream: it may
    /// be lost, and only the newest of its stream counts.
    pub open spec fn numbered(datagram: Datagram) -> bool {
        datagram.delivery == DeliveryGuarantee::Unreliable && datagram.ordering
            == OrderingGuarantee::Sequenced
    }

    /// The number that `send` gives to a datagram on the sequenced stream
    /// `stream_id`: the one after the last, going round after 65535.
    pub open spec fn next_number(&self, stream_id: usize) -> u16 {
        ((self.sequenced_numbers()[stream_id as int] + 1) % 0x1_0000) as u16
    }

    /// The bytes that `send` hands back for `datagram` to be put on the wire at
    /// once. A reliable datagram has none: its segments leave with the packets of
    /// the next update. An unreliable one travels as it is, behind the header of its
    /// stream if it belongs to one.
    pub open spec fn sent_bytes(&self, datagram: Datagram) -> Seq<u8> {
        if datagram.delivery == DeliveryGuarantee::Reliable {
            Seq::empty()
        } else if datagram.ordering == OrderingGuarantee::Sequenced {
            unreliable_wire(
                Some((datagram.stream_id, self.next_number(datagram.stream_id))),
                datagram.payload@,
            )
        } else {
            unreliable_wire(None, datagram.payload@)
        }
    }

    /// An endpoint with the given settings: as many streams of each kind as they
    /// say, all counters at 0, and a fresh engine of session 0.
    pub fn new(config: Config) -> (e: Self)
        ensures
            e.wf(),
            e.config() == config,
            e.ordered_streams() == config.ordered_streams_size,
            e.sequenced_numbers() == Seq::new(config.sequenced_streams_size as nat, |i: int| 0u16),
            e.counts() == Seq::new(DATA_POINTS as nat, |i: int| 0u64),
            e.engine() == ConnectionView::fresh(0),
    {
        let ordered_size = config.ordered_streams_size();
        let sequenced_size = config.sequenced_streams_size();
        let mut ordered_streams: Vec<OrderedStream> = Vec::new();
        let mut i: usize = 0;
        while i < ordered_size
            invariant
                0 <= i <= ordered_size,
                ordered_streams@.len() == i,
            decreases ordered_size - i,
        {
            ordered_streams.push(OrderedStream::new());
            i = i + 1;
        }
        let mut sequenced_streams: Vec<SequencedStream> = Vec::new();
        let mut j: usize = 0;
        while j < sequenced_size
            invariant
                0 <= j <= sequenced_size,
                sequenced_streams@.len() == j,
                forall|k: int| 0 <= k < j ==> (#[trigger] sequenced_streams@[k]).newest() == 0,
            decreases sequenced_size - j,
        {
            sequenced_streams.push(SequencedStream::new());
            j = j + 1;
        }
        let e = Self {
            config,
            ordered_streams,
            sequenced_streams,
            metrics: Metrics::new(),
            connection: ReliableConnection::new(0),
        };
        assert(e.sequenced_numbers() =~= Seq::new(
            config.sequenced_streams_size as nat,
            |i: int| 0u16,
        ));
        e
    }

    /// Takes a datagram to send and hands back the bytes to put on the wire at
    /// once.
    ///
    /// A reliable payload goes to the reliability engine, which cuts it into
    /// segments; they leave with the packets of the next `update`, and no bytes are
    /// handed back. An unreliable payload is encoded at once: as it is where it
    /// belongs to no stream, else behind the header of its stream, which gives it
    /// the next number of the stream.
    ///
    /// Fails with `InvalidConfiguration` for a datagram that is unreliable and
    /// ordered; with `InvalidStreamId` for a datagram on a stream that does not
    /// exist; with `PayloadTooLarge`, which is counted, for a reliable payload
    /// longer than the settings allow; and as the engine's `send` fails.
    pub fn send(&mut self, datagram: Datagram) -> (r: ProtocolResult<Bytes>)
        requires
            old(self).wf(),
        ensures
            final(self).wf(),
            final(self).config() == old(self).config(),
            final(self).ordered_streams() == old(self).ordered_streams(),
            match old(self).send_error(datagram) {
                Some(ErrorKind::PayloadTooLarge) => {
                    &&& r matches Err(ProtocolError::PayloadTooLarge(size, max)) && size
                        == datagram.payload@.len() && max == old(self).config().max_payload()
                    &&& final(self).engine() == old(self).engine()
                    &&& final(self).sequenced_numbers() == old(self).sequenced_numbers()
                    &&& final(self).counts() == Metrics::added(
                        old(self).counts(),
                        DataPoint::PacketsTooLargeToSend,
                        1,
                    )
                },
                Some(kind) => {
                    &&& r.is_err()
                    &&& r->Err_0.spec_kind() == kind
                    &&& final(self).engine() == old(self).engine()
                    &&& final(self).sequenced_numbers() == old(self).sequenced_numbers()
                    &&& final(self).counts() == old(self).counts()
                },
                None => {
                    &&& r.is_ok()
                    &&& frozen_of(r->Ok_0) == old(self).sent_bytes(datagram)
                    &&& final(self).counts() == old(self).counts()
                    &&& final(self).engine() == if datagram.delivery
                        == DeliveryGuarantee::Reliable {
                        old(self).engine().sent(datagram.payload@)
                    } else {
                        old(self).engine()
                    }
                    &&& final(self).sequenced_numbers() == if Self::numbered(datagram) {
                        old(self).sequenced_numbers().update(
                            datagram.stream_id as int,
                            old(self).next_number(datagram.stream_id),
                        )
                    } else {
                        old(self).sequenced_numbers()
                    }
                },
            },
    {
        match datagram.delivery {
            DeliveryGuarantee::Reliable => self.handle_reliable_send(datagram),
            DeliveryGuarantee::Unreliable => self.handle_unreliable_send(datagram),
        }
    }

    /// Takes in what the transport has received and hands out the next message if
    /// one is complete, or an empty fragment if none is yet.
    ///
    /// Every data segment that the engine drops, because it lies outside the
    /// receive window or is staged already, is counted as a stale packet. An input
    /// that the engine refuses is counted as an invalid packet, and `receive` fails
    /// as the engine's `input` does; the segments ahead of the failure have had
    /// their effect.
    pub fn receive(&mut self, datagram: &[u8]) -> (r: ProtocolResult<ProcessedDatagram>)
        requires
            old(self).wf(),
        ensures
            final(self).wf(),
            final(self).config() == old(self).config(),
            final(self).ordered_streams() == old(self).ordered_streams(),
            final(self).sequenced_numbers() == old(self).sequenced_numbers(),
            ({
                let (heard, taken) = old(self).engine().input(datagram@);
                &&& final(self).counts() == tallied(old(self).counts(), heard.dropped, taken.is_err())
                &&& match taken {
                    Err(kind) => {
                        &&& r.is_err()
                        &&& r->Err_0.spec_kind() == kind
                        &&& final(self).engine() == heard.counted()
                    },
                    Ok(_) => if heard.peek_error().is_none() {
                        &&& r matches Ok(ProcessedDatagram::Full { payload }) && bytes_of(payload)
                            == next_message(heard.recv_queue)
                        &&& final(self).engine() == heard.counted().received()
                    } else {
                        &&& r matches Ok(ProcessedDatagram::Fragment { payload }) && bytes_of(
                            payload,
                        ) == Seq::<u8>::empty()
                        &&& final(self).engine() == heard.counted()
                    },
                }
            }),
    {
        let taken = self.connection.input(datagram);
        let dropped = self.connection.take_dropped();
        self.metrics.add(DataPoint::PacketsStale, dropped);
        match taken {
            Ok(_) => {},
            Err(e) => {
                self.metrics.add(DataPoint::PacketsInvalid, 1);
                return Err(e);
            },
        }
        match self.connection.peek_size() {
            Ok(size) => {
                let mut buffer: Vec<u8> = vec![0u8; size];
                let taken = self.connection.recv(buffer.as_mut_slice());
                match taken {
                    Ok(n) => {
                        proof {
                            assert(buffer@ =~= next_message(
                                old(self).engine().input(datagram@).0.recv_queue,
                            ));
                        }
                        Ok(full(BytesMut::from(buffer.as_slice())))
                    },
                    Err(e) => Err(e),
                }
            },
            Err(_) => Ok(fragment(BytesMut::new())),
        }
    }

    /// Tells the engine the time; returns the packets for the transport.
    pub fn update(&mut self, current: u32) -> (packets: Vec<Vec<u8>>)
        requires
            old(self).wf(),
        ensures
            final(self).wf(),
            final(self).config() == old(self).config(),
            final(self).ordered_streams() == old(self).ordered_streams(),
            final(self).sequenced_numbers() == old(self).sequenced_numbers(),
            final(self).counts() == old(self).counts(),
            final(self).engine() == old(self).engine().updated(current),
            payloads(packets@) == old(self).engine().update_packets(current),
    {
        self.connection.update(current)
    }

    /// How often `data_point` has been counted.
    pub fn get_count(&self, data_point: DataPoint) -> (n: u64)
        requires
            self.wf(),
        ensures
            n == self.counts()[data_point.spec_index()],
    {
        self.metrics.get_count(data_point)
    }

    fn handle_reliable_send(&mut self, datagram: Datagram) -> (r: ProtocolResult<Bytes>)
        requires
            old(self).wf(),
            datagram.delivery == DeliveryGuarantee::Reliable,
        ensures
            final(self).wf(),
            final(self).config() == old(self).config(),
            final(self).ordered_streams() == old(self).ordered_streams(),
            final(self).sequenced_numbers() == old(self).sequenced_numbers(),
            match old(self).send_error(datagram) {
                Some(ErrorKind::PayloadTooLarge) => {
                    &&& r matches Err(ProtocolError::PayloadTooLarge(size, max)) && size
                        == datagram.payload@.len() && max == old(self).config().max_payload()
                    &&& final(self).engine() == old(self).engine()
                    &&& final(self).counts() == Metrics::added(
                        old(self).counts(),
                        DataPoint::PacketsTooLargeToSend,
                        1,
                    )
                },
                Some(kind) => {
                    &&& r.is_err()
                    &&& r->Err_0.spec_kind() == kind
                    &&& final(self).engine() == old(self).engine()
                    &&& final(self).counts() == old(self).counts()
                },
                None => {
                    &&& r.is_ok()
                    &&& frozen_of(r->Ok_0) == Seq::<u8>::empty()
                    &&& final(self).counts() == old(self).counts()
                    &&& final(self).engine() == old(self).engine().sent(datagram.payload@)
                },
            },
    {
        let max: usize = self.config.max_payload_size_bytes();
        if datagram.payload.len() > max {
            self.metrics.add(DataPoint::PacketsTooLargeToSend, 1);
            return Err(ProtocolError::PayloadTooLarge(datagram.payload.len(), max));
        }
        let stream_id = datagram.stream_id;
        match datagram.ordering {
            OrderingGuarantee::Unordered => {},
            OrderingGuarantee::Sequenced => {
                if stream_id >= self.sequenced_streams.len() {
                    return Err(ProtocolError::InvalidStreamId);
                }
            },
            OrderingGuarantee::Ordered => {
                if stream_id >= self.ordered_streams.len() {
                    return Err(ProtocolError::InvalidStreamId);
                }
            },
        }
        match self.connection.send(datagram.payload) {
            Ok(()) => Ok(Bytes::new()),
            Err(e) => Err(e),
        }
    }

    fn handle_unreliable_send(&mut self, datagram: Datagram) -> (r: ProtocolResult<Bytes>)
        requires
            old(self).wf(),
            datagram.delivery == DeliveryGuarantee::Unreliable,
        ensures
            final(self).wf(),
            final(self).config() == old(self).config(),
            final(self).ordered_streams() == old(self).ordered_streams(),
            final(self).engine() == old(self).engine(),
            final(self).counts() == old(self).counts(),
            match old(self).send_error(datagram) {
                Some(ErrorKind::InvalidConfiguration) => {
                    &&& r matches Err(ProtocolError::InvalidConfiguration(reason)) && reason@
                        == "Unable to send an unreliable and ordered packet."@
                    &&& final(self).sequenced_numbers() == old(self).sequenced_numbers()
                },
                Some(kind) => {
                    &&& r.is_err()
                    &&& r->Err_0.spec_kind() == kind
                    &&& final(self).sequenced_numbers() == old(self).sequenced_numbers()
                },
                None => {
                    &&& r.is_ok()
                    &&& frozen_of(r->Ok_0) == old(self).sent_bytes(datagram)
                    &&& final(self).sequenced_numbers() == if Self::numbered(datagram) {
                        old(self).sequenced_numbers().update(
                            datagram.stream_id as int,
                            old(self).next_number(datagram.stream_id),
                        )
                    } else {
                        old(self).sequenced_numbers()
                    }
                },
            },
    {
        match datagram.ordering {
            OrderingGuarantee::Unordered => {
                let bytes = encode_unreliable(None, datagram.payload);
                Ok(Bytes::from(bytes.as_slice()))
            },
            OrderingGuarantee::Sequenced => {
                let stream_id = datagram.stream_id;
                if stream_id >= self.sequenced_streams.len() {
                    return Err(ProtocolError::InvalidStreamId);
                }
                let ghost before = self.sequenced_streams@;
                let mut stream = self.sequenced_streams[stream_id];
                let sequence_num = stream.advance();
                self.sequenced_streams[stream_id] = stream;
                proof {
                    assert(self.sequenced_streams@ == before.update(stream_id as int, stream));
                    assert(self.sequenced_numbers() =~= old(self).sequenced_numbers().update(
                        stream_id as int,
                        sequence_num,
                    ));
                }
                let bytes = encode_unreliable(Some((stream_id, sequence_num)), datagram.payload);
                Ok(Bytes::from(bytes.as_slice()))
            },
            OrderingGuarantee::Ordered => Err(
                ProtocolError::InvalidConfiguration(
                    "Unable to send an unreliable and ordered packet.",
                ),
            ),
        }
    }
}

} // verus!
