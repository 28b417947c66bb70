//! The reliability engine of one connection.
use crate::buffer::bytes_of;
use crate::congestion::{grow_window, settle_window, Congestion};
use crate::engine::{lemma_controlled_keeps_data, lemma_resend_wait_shrinks, Progress};
use crate::errors::{ProtocolError, ProtocolResult};
use crate::estimator::sample_rtt;
use crate::fragment::enqueue;
use crate::inflight::{
    count_skips, drop_covered, lemma_remove_keeps_order, lemma_skip_keeps_order, remove_acked,
};
use crate::message::{message_run, message_size, next_message, take_message};
use crate::packing::{
    lemma_pack_all_concat, pack_all, pack_header, pack_rest, payloads, pending_limit, Packed,
};
use crate::probe::{advance_probe, Probe};
use crate::segment::{views, Header, Segment};
use crate::serial::{offset_from, seq_diff, time_diff};
use crate::staging::{lemma_skip_keeps_contiguous, promote, stage};
use crate::state::{recv_queue_contiguous, ConnectionView};
use crate::transmit::{
    data_chunks, lemma_transmitted_bounded, pack_acks, release, transmit_all, Pace,
};
use crate::{CMD_ACK, CMD_PUSH, CMD_WASK, CMD_WINS};
use crate::{
    DEADLINK, DEFAULT_MTU, INTERVAL, MIN_MTU, PROTOCOL_OVERHEAD, RECV_WINDOW_SIZE, RTO_DEF,
    RTO_MIN, RTO_NDL, SEND_WINDOW_SIZE, THRESH_INIT,
};
use bytes::BytesMut;
use std::collections::VecDeque;
use vstd::prelude::*;

verus! {

/// One end of a reliable connection.
///
/// The engine holds what is to be sent and what has arrived, and decides what goes on
/// the wire and when. It owns no socket and reads no clock: `input` takes what the
/// transport received, `update` and `flush` hand back the packets to transmit, and the
/// time is an argument.
pub struct ReliableConnection {
    session_id: u32,
    max_transmission_unit: usize,
    max_segment_size: usize,
    dead: bool,
    unacked_send_sequence_num: u32,
    next_send_sequence_num: u32,
    next_recv_sequence_num: u32,
    ssthresh: u32,
    floating_rtt: u32,
    static_rtt: u32,
    calculated_rto: u32,
    minimum_rto: u32,
    send_window_size: usize,
    recv_window_size: usize,
    remote_window_size: u16,
    congestion_window_size: u32,
    ask_send: bool,
    ask_tell: bool,
    current_time: u32,
    interval: u32,
    next_flush_time: u32,
    update_called: bool,
    nodelay: u32,
    next_probe_time: u32,
    probe_wait: u32,
    dead_link: u32,
    incr: u64,
    send_queue: VecDeque<Segment>,
    recv_queue: VecDeque<Segment>,
    send_buffer: VecDeque<Segment>,
    recv_buffer: VecDeque<Segment>,
    ack_list: Vec<(u32, u32)>,
    payload_buffer: BytesMut,
    fast_resend: u32,
    use_congestion_control: bool,
    in_streaming_mode: bool,
    dropped: u64,
}

impl View for ReliableConnection {
    type V = ConnectionView;

    closed spec fn view(&self) -> ConnectionView {
        ConnectionView {
            session_id: self.session_id,
            mtu: self.max_transmission_unit,
            mss: self.max_segment_size,
            dead: self.dead,
            una: self.unacked_send_sequence_num,
            next_sn: self.next_send_sequence_num,
            rcv_next: self.next_recv_sequence_num,
            ssthresh: self.ssthresh,
            rttvar: self.floating_rtt,
            srtt: self.static_rtt,
            rto: self.calculated_rto,
            min_rto: self.minimum_rto,
            send_wnd: self.send_window_size,
            recv_wnd: self.recv_window_size,
            remote_wnd: self.remote_window_size,
            cwnd: self.congestion_window_size,
            ask_send: self.ask_send,
            ask_tell: self.ask_tell,
            current: self.current_time,
            interval: self.interval,
            next_flush: self.next_flush_time,
            update_called: self.update_called,
            nodelay: self.nodelay,
            next_probe_time: self.next_probe_time,
            probe_wait: self.probe_wait,
            dead_link: self.dead_link,
            incr: self.incr,
            send_queue: views(self.send_queue@),
            recv_queue: views(self.recv_queue@),
            send_buffer: views(self.send_buffer@),
            recv_buffer: views(self.recv_buffer@),
            ack_list: self.ack_list@,
            buffer_len: bytes_of(self.payload_buffer).len(),
            fast_resend: self.fast_resend,
            use_congestion_control: self.use_congestion_control,
            streaming: self.in_streaming_mode,
            dropped: self.dropped,
        }
    }
}

/// The bookkeeping of a segment in flight.
#[derive(Clone, Copy, Debug, PartialEq, Eq, Structural)]
pub struct Flight {
    pub sequence_num: u32,
    pub fragment_id: u8,
    /// When the segment is due for retransmission.
    pub resend_time: u32,
    /// The segment's own retransmission timeout.
    pub rto: u32,
    /// How often a later segment was acknowledged before this one.
    pub fastack: u32,
    /// How often the segment was transmitted.
    pub xmit: u32,
}

impl Flight {
    /// The bookkeeping of `seg`.
    pub open spec fn of(seg: crate::segment::SegmentView) -> Flight {
        Flight {
            sequence_num: seg.sequence_num,
            fragment_id: seg.fragment_id,
            resend_time: seg.resend_time,
            rto: seg.rto,
            fastack: seg.fastack,
            xmit: seg.xmit,
        }
    }
}

impl ReliableConnection {
    /// What holds of a connection before and after every call.
    pub open spec fn wf(&self) -> bool {
        self@.wf()
    }

    /// A connection of session `session_id` with the default settings: an MTU of 1400
    /// bytes, windows of 32 segments, a retransmission timeout of 200 ms with a floor
    /// of 100 ms, a flush interval of 100 ms, no fast retransmission, no congestion
    /// control.
    pub fn new(session_id: u32) -> (c: ReliableConnection)
        ensures
            c.wf(),
            c@ == ConnectionView::fresh(session_id),
    {
        let c = ReliableConnection {
            session_id,
            max_transmission_unit: DEFAULT_MTU,
            max_segment_size: DEFAULT_MTU - PROTOCOL_OVERHEAD,
            dead: false,
            unacked_send_sequence_num: 0,
            next_send_sequence_num: 0,
            next_recv_sequence_num: 0,
            ssthresh: THRESH_INIT,
            floating_rtt: 0,
            static_rtt: 0,
            calculated_rto: RTO_DEF,
            minimum_rto: RTO_MIN,
            send_window_size: SEND_WINDOW_SIZE,
            recv_window_size: RECV_WINDOW_SIZE,
            remote_window_size: RECV_WINDOW_SIZE as u16,
            congestion_window_size: 0,
            ask_send: false,
            ask_tell: false,
            current_time: 0,
            interval: INTERVAL,
            next_flush_time: 0,
            update_called: false,
            nodelay: 0,
            next_probe_time: 0,
            probe_wait: 0,
            dead_link: DEADLINK,
            incr: 0,
            send_queue: VecDeque::with_capacity(SEND_WINDOW_SIZE),
            recv_queue: VecDeque::with_capacity(RECV_WINDOW_SIZE),
            send_buffer: VecDeque::new(),
            recv_buffer: VecDeque::new(),
            ack_list: Vec::new(),
            payload_buffer: BytesMut::with_capacity((DEFAULT_MTU + PROTOCOL_OVERHEAD) * 3),
            fast_resend: 0,
            use_congestion_control: false,
            in_streaming_mode: false,
            dropped: 0,
        };
        proof {
            assert(c@.send_queue =~= Seq::empty());
            assert(c@.recv_queue =~= Seq::empty());
            assert(c@.send_buffer =~= Seq::empty());
            assert(c@.recv_buffer =~= Seq::empty());
            assert(c@.ack_list =~= Seq::empty());
        }
        c
    }

    /// Sets the maximum transmission unit, and with it the largest payload of a
    /// segment, `mtu - 24`; the encoding buffer becomes three times `mtu + 24` bytes
    /// long.
    ///
    /// Fails with `InvalidConfiguration` for an MTU under 50 bytes. The MTU must fit
    /// the machine: a payload length is a 32-bit field on the wire, and the encoding
    /// buffer must not be longer than `isize::MAX`.
    pub fn set_mtu(&mut self, mtu: usize) -> (r: ProtocolResult<()>)
        requires
            old(self).wf(),
            mtu <= u32::MAX,
            (mtu + PROTOCOL_OVERHEAD) * 3 <= isize::MAX,
        ensures
            final(self).wf(),
            mtu < MIN_MTU ==> final(self)@ == old(self)@ && (r matches Err(
                ProtocolError::InvalidConfiguration(reason),
            ) && reason@ == "MTU too small."@),
            mtu >= MIN_MTU ==> r.is_ok() && final(self)@ == old(self)@.with_mtu(mtu),
    {
        if mtu < MIN_MTU || mtu < PROTOCOL_OVERHEAD {
            return Err(ProtocolError::InvalidConfiguration("MTU too small."));
        }
        self.max_transmission_unit = mtu;
        self.max_segment_size = mtu - PROTOCOL_OVERHEAD;
        let new_size: usize = (mtu + PROTOCOL_OVERHEAD) * 3;
        self.payload_buffer.resize(new_size, 0);
        proof {
            assert(self@.send_queue == old(self)@.send_queue);
            assert(self@.send_buffer == old(self)@.send_buffer);
        }
        Ok(())
    }

    /// Tunes the connection. `nodelay`: 0 for normal mode, above 0 for no-delay mode
    /// with its lower floor of the retransmission timeout; a timeout below the new
    /// floor is raised to it. `interval`: the flush
    /// interval in milliseconds, held within 10 and 5000. `resend`: the number of
    /// acknowledgements of later segments after which a segment is sent again
    /// without waiting for its timeout, 0 for never. A negative number leaves its
    /// setting as it is.
    pub fn nodelay(&mut self, nodelay: i32, interval: i32, resend: i32, use_congestion_control: bool)
        requires
            old(self).wf(),
        ensures
            final(self).wf(),
            final(self)@ == old(self)@.with_nodelay(nodelay, interval, resend, use_congestion_control),
    {
        if nodelay >= 0 {
            self.nodelay = nodelay as u32;
            self.minimum_rto = if nodelay > 0 { RTO_NDL } else { RTO_MIN };
            if self.calculated_rto < self.minimum_rto {
                self.calculated_rto = self.minimum_rto;
            }
        }
        if interval >= 0 {
            self.interval = if interval > 5000 {
                5000
            } else if interval < 10 {
                10
            } else {
                interval as u32
            };
        }
        if resend >= 0 {
            self.fast_resend = resend as u32;
        }
        self.use_congestion_control = use_congestion_control;
        proof {
            assert(self@.send_queue == old(self)@.send_queue);
            assert(self@.send_buffer == old(self)@.send_buffer);
        }
    }

    /// Sets the send window and the receive window, in segments.
    pub fn set_window_sizes(&mut self, send_size: usize, recv_size: usize)
        requires
            old(self).wf(),
        ensures
            final(self).wf(),
            final(self)@ == old(self)@.with_window_sizes(send_size, recv_size),
    {
        self.send_window_size = send_size;
        self.recv_window_size = recv_size;
        proof {
            assert(self@.send_queue == old(self)@.send_queue);
            assert(self@.send_buffer == old(self)@.send_buffer);
        }
    }

    /// Turns streaming mode on or off. In streaming mode payloads are not kept
    /// apart: `send` fills up the last queued segment before it starts a new one,
    /// and every segment is a message of its own to the receiver.
    pub fn set_streaming_mode(&mut self, streaming: bool)
        requires
            old(self).wf(),
        ensures
            final(self).wf(),
            final(self)@ == (ConnectionView { streaming, ..old(self)@ }),
    {
        self.in_streaming_mode = streaming;
        proof {
            assert(self@.send_queue == old(self)@.send_queue);
            assert(self@.send_buffer == old(self)@.send_buffer);
        }
    }

    /// Appends `payload` to the send queue, cut into segments of at most one MSS.
    ///
    /// Fails with `EmptyPayload` for an empty payload, with `IOError` on a dead
    /// link, and with `FragmentsGreaterThanWindowSize` where the payload needs as
    /// many fragments as the receive window has slots, or more than 256. On failure
    /// nothing changes.
    pub fn send(&mut self, payload: &[u8]) -> (r: ProtocolResult<()>)
        requires
            old(self).wf(),
        ensures
            final(self).wf(),
            match old(self)@.send_error(payload@) {
                Some(kind) => r.is_err() && r->Err_0.spec_kind() == kind && final(self)@ == old(
                    self,
                )@,
                None => r.is_ok() && final(self)@ == old(self)@.sent(payload@),
            },
    {
        if self.dead && payload.len() > 0 {
            return Err(ProtocolError::IOError(crate::errors::not_connected()));
        }
        enqueue(
            &mut self.send_queue,
            payload,
            self.max_segment_size,
            self.in_streaming_mode,
            self.recv_window_size,
        )
    }

    /// Size in bytes of the next message that `recv` would deliver.
    ///
    /// Fails with `IncompleteMessage` while the receive queue holds fewer segments
    /// than its first segment announces, and with `BufferTooSmall` where the size is
    /// more than a `usize` can count.
    pub fn peek_size(&self) -> (r: ProtocolResult<usize>)
        requires
            self.wf(),
        ensures
            match self@.peek_error() {
                Some(kind) => r.is_err() && r->Err_0.spec_kind() == kind,
                None => r.is_ok() && r->Ok_0 == next_message(self@.recv_queue).len(),
            },
    {
        if self.recv_queue.len() == 0 {
            return Err(ProtocolError::IncompleteMessage);
        }
        let announced: usize = self.recv_queue[0].fragment_id as usize;
        proof {
            assert(self@.recv_queue[0] == self.recv_queue@[0]@);
        }
        if self.recv_queue.len() <= announced {
            return Err(ProtocolError::IncompleteMessage);
        }
        match message_size(&self.recv_queue) {
            Some(size) => Ok(size),
            None => Err(ProtocolError::BufferTooSmall),
        }
    }

    /// Delivers the next message into the front of `buffer` and returns its size.
    ///
    /// Fails with `EmptyRecvQueue` while no segment is ready, with `IncompleteMessage`
    /// while the receive queue holds fewer segments than its first segment announces,
    /// and with `BufferTooSmall` where `buffer` cannot hold the message. On failure
    /// nothing changes.
    pub fn recv(&mut self, buffer: &mut [u8]) -> (r: ProtocolResult<usize>)
        requires
            old(self).wf(),
        ensures
            final(self).wf(),
            match old(self)@.recv_error(old(buffer)@.len()) {
                Some(kind) => {
                    &&& r.is_err()
                    &&& r->Err_0.spec_kind() == kind
                    &&& final(self)@ == old(self)@
                    &&& final(buffer)@ == old(buffer)@
                },
                None => {
                    &&& r.is_ok()
                    &&& r->Ok_0 == next_message(old(self)@.recv_queue).len()
                    &&& final(buffer)@ == next_message(old(self)@.recv_queue) + old(buffer)@.skip(
                        r->Ok_0 as int,
                    )
                    &&& final(self)@ == old(self)@.received()
                },
            },
    {
        if self.recv_queue.len() == 0 {
            return Err(ProtocolError::EmptyRecvQueue);
        }
        let announced: usize = self.recv_queue[0].fragment_id as usize;
        proof {
            assert(self@.recv_queue[0] == self.recv_queue@[0]@);
        }
        if self.recv_queue.len() <= announced {
            return Err(ProtocolError::IncompleteMessage);
        }
        let room: usize = buffer.len();
        match message_size(&self.recv_queue) {
            Some(size) => {
                if size > room {
                    return Err(ProtocolError::BufferTooSmall);
                }
            },
            None => {
                return Err(ProtocolError::BufferTooSmall);
            },
        }
        let was_full: bool = self.recv_queue.len() >= self.recv_window_size;
        proof {
            crate::message::lemma_message_run(old(self)@.recv_queue);
            lemma_skip_keeps_contiguous(
                self@.rcv_next,
                self@.recv_queue,
                message_run(self@.recv_queue) as int,
            );
        }
        let size = take_message(&mut self.recv_queue, buffer);
        let next = promote(
            &mut self.recv_buffer,
            &mut self.recv_queue,
            self.next_recv_sequence_num,
            self.recv_window_size,
        );
        self.next_recv_sequence_num = next;
        if was_full {
            self.ask_tell = true;
        }
        proof {
            assert(self@.send_queue == old(self)@.send_queue);
            assert(self@.send_buffer == old(self)@.send_buffer);
        }
        Ok(size)
    }

    /// Takes in what the transport has received: any number of segments, one after
    /// the other. Returns the number of bytes taken.
    ///
    /// Fails with `BufferTooSmall` where `buffer` cannot hold one header. A segment of
    /// another session (`InvalidSessionId`), one whose payload is cut off
    /// (`IncompleteMessage`) and one with an unknown command (`InvalidCommand`) end
    /// the input; the segments ahead of it have had their effect.
    pub fn input(&mut self, buffer: &[u8]) -> (r: ProtocolResult<usize>)
        requires
            old(self).wf(),
        ensures
            final(self).wf(),
            final(self)@ == old(self)@.input(buffer@).0,
            match old(self)@.input(buffer@).1 {
                Ok(used) => r.is_ok() && r->Ok_0 == used,
                Err(kind) => r.is_err() && r->Err_0.spec_kind() == kind,
            },
    {
        let n: usize = buffer.len();
        if n < PROTOCOL_OVERHEAD {
            return Err(ProtocolError::BufferTooSmall);
        }
        let una_before: u32 = self.unacked_send_sequence_num;
        let ghost start = Progress { state: self@, acked: false, max_ack: 0 };
        let mut acked: bool = false;
        let mut max_ack: u32 = 0;
        let mut at: usize = 0;
        while n - at >= PROTOCOL_OVERHEAD
            invariant
                n == buffer@.len(),
                0 <= at <= n,
                self.wf(),
                (Progress { state: self@, acked, max_ack }).absorbed_from(buffer@, at as int)
                    == start.absorbed_from(buffer@, 0),
                start == (Progress { state: old(self)@, acked: false, max_ack: 0 }),
                una_before == old(self)@.una,
            decreases n - at,
        {
            let h = Header::read(buffer, at);
            let ghost here = Progress { state: self@, acked, max_ack };
            proof {
                let e = self@.segment_error(buffer@, at as int);
                assert(e.is_some() ==> here.absorbed_from(buffer@, at as int) == (
                    here,
                    Err::<int, crate::errors::ErrorKind>(e.unwrap()),
                ));
            }
            if h.session_id != self.session_id {
                return Err(ProtocolError::InvalidSessionId);
            }
            let left: usize = n - at - PROTOCOL_OVERHEAD;
            if (left as u64) < h.length as u64 {
                return Err(ProtocolError::IncompleteMessage);
            }
            if h.command != CMD_PUSH && h.command != CMD_ACK && h.command != CMD_WASK && h.command
                != CMD_WINS {
                return Err(ProtocolError::InvalidCommand);
            }
            let from: usize = at + PROTOCOL_OVERHEAD;
            let end: usize = from + h.length as usize;
            let payload = vstd::slice::slice_subrange(buffer, from, end);
            proof {
                assert(self@.segment_error(buffer@, at as int).is_none());
                assert(here.absorbed_from(buffer@, at as int) == here.absorbed(
                    h,
                    buffer@.subrange(from as int, end as int),
                ).absorbed_from(buffer@, end as int));
            }
            let (a, m) = self.absorb(&h, payload, acked, max_ack);
            acked = a;
            max_ack = m;
            at = end;
        }
        proof {
            let here = Progress { state: self@, acked, max_ack };
            assert(here.absorbed_from(buffer@, at as int) == (here, Ok::<int, crate::errors::ErrorKind>(at as int)));
        }
        self.finish(una_before, acked, max_ack);
        Ok(at)
    }

    /// Takes in one incoming segment.
    fn absorb(&mut self, h: &Header, payload: &[u8], acked: bool, max_ack: u32) -> (r: (bool, u32))
        requires
            old(self).wf(),
        ensures
            final(self).wf(),
            (Progress { state: final(self)@, acked: r.0, max_ack: r.1 }) == (Progress {
                state: old(self)@,
                acked,
                max_ack,
            }).absorbed(*h, payload@),
    {
        self.hear(h);
        if h.command == CMD_ACK {
            self.acknowledge(h);
            let latest: u32 = if !acked || time_diff(h.sequence_num, max_ack) > 0 {
                h.sequence_num
            } else {
                max_ack
            };
            (true, latest)
        } else if h.command == CMD_PUSH {
            self.push(h, payload);
            (acked, max_ack)
        } else if h.command == CMD_WASK {
            self.ask_tell = true;
            (acked, max_ack)
        } else {
            (acked, max_ack)
        }
    }

    /// Takes in the window and the cumulative acknowledgement of an incoming header.
    fn hear(&mut self, h: &Header)
        requires
            old(self).wf(),
        ensures
            final(self).wf(),
            final(self)@ == old(self)@.heard(*h),
    {
        let ghost before = self@.send_buffer;
        self.remote_window_size = h.window_size;
        drop_covered(&mut self.send_buffer, h.unacked_sequence_num);
        proof {
            let k = choose|k: int|
                0 <= k <= old(self).send_buffer@.len() && self.send_buffer@ == #[trigger] old(
                    self,
                ).send_buffer@.skip(k);
            assert(self@.send_buffer =~= before.skip(k));
            lemma_skip_keeps_order(self@.una, self@.next_sn, before, k);
            assert forall|i: int| 0 <= i < self@.send_buffer.len() implies {
                &&& crate::state::sendable(#[trigger] self@.send_buffer[i])
                &&& crate::state::in_flight_bounded(self@.send_buffer[i], self@.dead_link)
                &&& (!self@.dead ==> self@.send_buffer[i].xmit < self@.dead_link)
            } by {
                assert(self@.send_buffer[i] == before[i + k]);
            }
            assert(self@.send_queue == old(self)@.send_queue);
        }
        self.settle_una();
    }

    /// Takes in an acknowledgement.
    fn acknowledge(&mut self, h: &Header)
        requires
            old(self).wf(),
        ensures
            final(self).wf(),
            final(self)@ == old(self)@.acknowledged(*h),
    {
        self.take_sample(h.timestamp);
        self.drop_acked(h.sequence_num);
    }

    /// Feeds the round trip of an acknowledged segment stamped `timestamp` to the
    /// estimator, unless the stamp lies in the future.
    fn take_sample(&mut self, timestamp: u32)
        requires
            old(self).wf(),
        ensures
            final(self).wf(),
            final(self)@ == ({
                let s = old(self)@;
                let rtt = crate::serial::seq_diff(s.current, timestamp);
                let e = if rtt >= 0 {
                    crate::estimator::sampled(s.srtt, s.rttvar, s.interval, s.min_rto, rtt as u32)
                } else {
                    crate::estimator::Estimate { srtt: s.srtt, rttvar: s.rttvar, rto: s.rto }
                };
                ConnectionView { srtt: e.srtt, rttvar: e.rttvar, rto: e.rto, ..s }
            }),
    {
        let rtt: i32 = time_diff(self.current_time, timestamp);
        if rtt >= 0 {
            let e = sample_rtt(
                self.static_rtt,
                self.floating_rtt,
                self.interval,
                self.minimum_rto,
                rtt as u32,
            );
            self.static_rtt = e.srtt;
            self.floating_rtt = e.rttvar;
            self.calculated_rto = e.rto;
        }
    }

    /// Removes the segment numbered `sn` from the send buffer, if it is in flight.
    fn drop_acked(&mut self, sn: u32)
        requires
            old(self).wf(),
        ensures
            final(self).wf(),
            final(self)@ == ({
                let s = old(self)@;
                let buf = crate::inflight::selectively_acked(s.send_buffer, s.una, s.next_sn, sn);
                ConnectionView {
                    send_buffer: buf,
                    una: crate::inflight::oldest_unacked(buf, s.next_sn),
                    ..s
                }
            }),
    {
        let ghost before = self@.send_buffer;
        remove_acked(
            &mut self.send_buffer,
            self.unacked_send_sequence_num,
            self.next_send_sequence_num,
            sn,
        );
        proof {
            let after = self@.send_buffer;
            if self.send_buffer@ == old(self).send_buffer@ {
                assert(after == before);
                assert(before.skip(0) =~= before);
                lemma_skip_keeps_order(self@.una, self@.next_sn, before, 0);
            } else {
                let k = choose|k: int|
                    0 <= k < old(self).send_buffer@.len() && self.send_buffer@ == #[trigger] old(
                        self,
                    ).send_buffer@.remove(k);
                assert(after =~= before.remove(k));
                lemma_remove_keeps_order(self@.una, self@.next_sn, before, k);
                assert forall|i: int| 0 <= i < after.len() implies {
                    &&& crate::state::sendable(#[trigger] after[i])
                    &&& crate::state::in_flight_bounded(after[i], self@.dead_link)
                    &&& (!self@.dead ==> after[i].xmit < self@.dead_link)
                } by {
                    assert(after[i] == if i < k { before[i] } else { before[i + 1] });
                }
            }
            assert(self@.send_queue == old(self)@.send_queue);
        }
        self.settle_una();
    }

    /// Sets `una` to the number of the first segment in flight, or to the next number
    /// to assign where none is in flight.
    fn settle_una(&mut self)
        ensures
            final(self)@ == (ConnectionView {
                una: crate::inflight::oldest_unacked(old(self)@.send_buffer, old(self)@.next_sn),
                ..old(self)@
            }),
    {
        if self.send_buffer.len() > 0 {
            proof {
                assert(self@.send_buffer[0] == self.send_buffer@[0]@);
            }
            self.unacked_send_sequence_num = self.send_buffer[0].sequence_num;
        } else {
            self.unacked_send_sequence_num = self.next_send_sequence_num;
        }
    }

    /// Takes in a data segment.
    fn push(&mut self, h: &Header, payload: &[u8])
        requires
            old(self).wf(),
        ensures
            final(self).wf(),
            final(self)@ == old(self)@.pushed(h.with_payload(payload@)),
    {
        let sn: u32 = h.sequence_num;
        if (offset_from(self.next_recv_sequence_num, sn) as usize) < self.recv_window_size {
            let ghost acks = self.ack_list@;
            self.ack_list.push((sn, h.timestamp));
            let segment = Segment {
                session_id: h.session_id,
                command: h.command,
                fragment_id: h.fragment_id,
                window_size: h.window_size,
                timestamp: h.timestamp,
                sequence_num: sn,
                unacked_sequence_num: h.unacked_sequence_num,
                resend_time: 0,
                rto: 0,
                fastack: 0,
                xmit: 0,
                data: BytesMut::from(payload),
            };
            assert(segment@ == h.with_payload(payload@));
            let added = stage(&mut self.recv_buffer, self.next_recv_sequence_num, segment);
            if !added {
                self.note_dropped();
            }
            let next = promote(
                &mut self.recv_buffer,
                &mut self.recv_queue,
                self.next_recv_sequence_num,
                self.recv_window_size,
            );
            self.next_recv_sequence_num = next;
            proof {
                assert(self@.send_queue == old(self)@.send_queue);
                assert(self@.send_buffer == old(self)@.send_buffer);
            }
        } else {
            self.note_dropped();
        }
    }

    /// Counts one more data segment as dropped.
    fn note_dropped(&mut self)
        ensures
            final(self)@ == (ConnectionView {
                dropped: old(self)@.one_more_dropped(),
                ..old(self)@
            }),
    {
        if self.dropped < u64::MAX {
            self.dropped = self.dropped + 1;
        }
    }

    /// Ends an input: counts the latest acknowledgement against the segments in flight
    /// before it, and lets the congestion window grow if `una` has moved.
    fn finish(&mut self, una_before: u32, acked: bool, max_ack: u32)
        requires
            old(self).wf(),
        ensures
            final(self).wf(),
            final(self)@ == (Progress { state: old(self)@, acked, max_ack }).finished(una_before),
    {
        let ghost before = self@.send_buffer;
        if acked {
            count_skips(
                &mut self.send_buffer,
                self.unacked_send_sequence_num,
                self.next_send_sequence_num,
                max_ack,
            );
        }
        if self.use_congestion_control && time_diff(self.unacked_send_sequence_num, una_before)
            > 0 {
            let c = grow_window(
                Congestion {
                    cwnd: self.congestion_window_size,
                    incr: self.incr,
                    ssthresh: self.ssthresh,
                },
                self.remote_window_size,
                self.max_segment_size,
            );
            self.congestion_window_size = c.cwnd;
            self.incr = c.incr;
        }
        proof {
            let after = self@.send_buffer;
            assert(after.len() == before.len());
            assert forall|i: int| 0 <= i < after.len() implies {
                &&& (#[trigger] after[i]).sequence_num == before[i].sequence_num
                &&& after[i].data == before[i].data
                &&& after[i].xmit == before[i].xmit
                &&& after[i].rto == before[i].rto
            } by {}
            assert(self@.send_queue == old(self)@.send_queue);
        }
    }

    /// Tells the connection the time, and flushes if a flush is due; returns the
    /// packets for the transport. Call it every 10 to 100 ms, or when `check` says.
    pub fn update(&mut self, current: u32) -> (packets: Vec<Vec<u8>>)
        requires
            old(self).wf(),
        ensures
            final(self).wf(),
            final(self)@ == old(self)@.updated(current),
            payloads(packets@) == old(self)@.update_packets(current),
    {
        self.current_time = current;
        let first: bool = !self.update_called;
        if first {
            self.update_called = true;
            self.next_flush_time = current;
        }
        let mut since: i32 = time_diff(current, self.next_flush_time);
        if since >= 10_000 || since < -10_000 {
            self.next_flush_time = current;
            since = 0;
        }
        if since >= 0 {
            let stepped: u32 = self.next_flush_time.wrapping_add(self.interval);
            self.next_flush_time = if time_diff(current, stepped) >= 0 {
                current.wrapping_add(self.interval)
            } else {
                stepped
            };
            proof {
                crate::serial::lemma_wrapping_add_is_seq_add(current, self.interval);
                assert(self@ == old(self)@.ticked(current));
                assert(self@.send_queue == old(self)@.send_queue);
                assert(self@.send_buffer == old(self)@.send_buffer);
            }
            self.flush_now()
        } else {
            proof {
                assert(self@ == old(self)@.ticked(current));
                assert(self@.send_queue == old(self)@.send_queue);
                assert(self@.send_buffer == old(self)@.send_buffer);
            }
            let out: Vec<Vec<u8>> = Vec::new();
            proof {
                assert(payloads(out@) =~= Seq::<Seq<u8>>::empty());
            }
            out
        }
    }

    /// When `update` should be called next, asked at time `current`: at once before
    /// the first update, when a flush is due and when a segment in flight is due;
    /// otherwise at the earliest of the next flush, the time when the next segment
    /// in flight is due, and one interval from `current`, which is always later than
    /// `current`.
    pub fn check(&self, current: u32) -> (next: u32)
        requires
            self.wf(),
        ensures
            next == self@.check(current),
            self@.wanted_now(current) ==> next == current,
            !self@.wanted_now(current) ==> 0 < seq_diff(next, current) <= self@.interval
                && seq_diff(next, current) == self@.wait(current),
    {
        if !self.update_called {
            return current;
        }
        let since: i32 = time_diff(current, self.next_flush_time);
        if since >= 0 {
            return current;
        }
        let flush_wait: u32 = offset_from(current, self.next_flush_time);
        let ghost buf = self@.send_buffer;
        let n: usize = self.send_buffer.len();
        let mut wait: u32 = u32::MAX;
        let mut i: usize = 0;
        proof {
            assert(buf.take(0) =~= Seq::<crate::segment::SegmentView>::empty());
        }
        while i < n
            invariant
                buf == self@.send_buffer,
                n == buf.len(),
                n == self.send_buffer@.len(),
                0 <= i <= n,
                wait == ConnectionView::resend_wait(buf.take(i as int), current),
                wait > 0,
            decreases n - i,
        {
            let due: i32 = time_diff(self.send_buffer[i].resend_time, current);
            proof {
                assert(buf[i as int] == self.send_buffer@[i as int]@);
                assert(buf.take(i as int + 1).drop_last() =~= buf.take(i as int));
                assert(buf.take(i as int + 1).last() == buf[i as int]);
                lemma_resend_wait_shrinks(buf, current, i as int + 1);
            }
            if due <= 0 {
                return current;
            }
            if (due as u32) < wait {
                wait = due as u32;
            }
            i = i + 1;
        }
        proof {
            assert(buf.take(n as int) =~= buf);
            crate::serial::lemma_wrapping_add_is_seq_add(current, wait);
            crate::serial::lemma_wrapping_add_is_seq_add(current, flush_wait);
            crate::serial::lemma_wrapping_add_is_seq_add(current, self.interval);
        }
        let shorter: u32 = if wait < flush_wait { wait } else { flush_wait };
        let minimal: u32 = if shorter < self.interval { shorter } else { self.interval };
        current.wrapping_add(minimal)
    }

    /// Sends what is due at the connection's current time and returns the packets
    /// for the transport, each of at most one MTU unless a single segment is larger:
    /// an acknowledgement for every data segment received since the last flush, the
    /// window commands that are due, and the data segments that are new, timed out
    /// or skipped often enough by acknowledgements of later segments.
    ///
    /// Does nothing before the first `update` and on a dead link.
    pub fn flush(&mut self) -> (packets: Vec<Vec<u8>>)
        requires
            old(self).wf(),
        ensures
            final(self).wf(),
            final(self)@ == old(self)@.flushed(),
            payloads(packets@) == old(self)@.flush_packets(),
    {
        self.flush_now()
    }

    /// The flush itself, which an update starts before the congestion window is
    /// known to be open.
    fn flush_now(&mut self) -> (packets: Vec<Vec<u8>>)
        requires
            old(self)@.sound(),
        ensures
            final(self)@.sound(),
            old(self)@.flushing() || old(self)@.cwnd >= 1 ==> final(self)@.cwnd >= 1,
            final(self)@ == old(self)@.flushed(),
            payloads(packets@) == old(self)@.flush_packets(),
    {
        let mut out: Vec<Vec<u8>> = Vec::new();
        if !self.update_called || self.dead {
            proof {
                assert(payloads(out@) =~= Seq::<Seq<u8>>::empty());
            }
            return out;
        }
        let ghost s = self@;
        let pace = self.pace_now();
        self.flush_control(&mut out, &pace);
        proof {
            lemma_controlled_keeps_data(s);
            lemma_pack_all_concat(
                Packed { done: Seq::empty(), pending: Seq::empty() },
                s.control_chunks(),
                data_chunks(s.in_flight_with_admitted(), s.pace()),
                s.mtu as nat,
            );
        }
        self.flush_data(&mut out, &pace);
        out
    }

    /// The first part of a flush: packs acknowledgements and window commands.
    fn flush_control(&mut self, out: &mut Vec<Vec<u8>>, pace: &Pace)
        requires
            old(self)@.sound(),
            *pace == old(self)@.pace(),
            old(out)@.len() == 0,
        ensures
            final(self)@.sound(),
            final(self)@ == old(self)@.controlled(),
            (Packed { done: payloads(final(out)@), pending: bytes_of(final(self).payload_buffer) })
                == pack_all(
                Packed { done: Seq::empty(), pending: Seq::empty() },
                old(self)@.control_chunks(),
                old(self)@.mtu as nat,
            ),
            bytes_of(final(self).payload_buffer).len() <= pending_limit(),
    {
        let mtu: usize = self.max_transmission_unit;
        let ghost s = self@;
        let ghost empty = Packed { done: Seq::empty(), pending: Seq::empty() };
        self.payload_buffer.clear();
        proof {
            assert(payloads(out@) =~= Seq::<Seq<u8>>::empty());
        }
        let template = Header {
            session_id: self.session_id,
            command: CMD_ACK,
            fragment_id: 0,
            window_size: pace.window_size,
            timestamp: 0,
            sequence_num: 0,
            unacked_sequence_num: self.next_recv_sequence_num,
            length: 0,
        };
        assert(template == s.control(CMD_ACK, 0, 0));
        pack_acks(&self.ack_list, &template, &mut self.payload_buffer, out, mtu);
        let acks: usize = self.ack_list.len();
        let (sn, ts): (u32, u32) = if acks > 0 { self.ack_list[acks - 1] } else { (0, 0) };
        self.ack_list.clear();
        let probe = advance_probe(
            Probe { wait: self.probe_wait, next_time: self.next_probe_time, ask_send: self.ask_send },
            self.remote_window_size,
            self.current_time,
        );
        self.probe_wait = probe.wait;
        self.next_probe_time = probe.next_time;
        let ghost after_acks = Packed {
            done: payloads(out@),
            pending: bytes_of(self.payload_buffer),
        };
        let ghost mut sent: Seq<Seq<u8>> = Seq::empty();
        if probe.ask_send {
            let ask = Header {
                session_id: self.session_id,
                command: CMD_WASK,
                fragment_id: 0,
                window_size: pace.window_size,
                timestamp: ts,
                sequence_num: sn,
                unacked_sequence_num: self.next_recv_sequence_num,
                length: 0,
            };
            assert(ask == s.control(CMD_WASK, sn, ts));
            pack_header(&mut self.payload_buffer, out, &ask, mtu);
            proof {
                crate::packing::lemma_pack_all_push(after_acks, sent, ask.wire(), mtu as nat);
                sent = sent.push(ask.wire());
            }
        }
        if self.ask_tell {
            let tell = Header {
                session_id: self.session_id,
                command: CMD_WINS,
                fragment_id: 0,
                window_size: pace.window_size,
                timestamp: ts,
                sequence_num: sn,
                unacked_sequence_num: self.next_recv_sequence_num,
                length: 0,
            };
            assert(tell == s.control(CMD_WINS, sn, ts));
            pack_header(&mut self.payload_buffer, out, &tell, mtu);
            proof {
                crate::packing::lemma_pack_all_push(after_acks, sent, tell.wire(), mtu as nat);
                sent = sent.push(tell.wire());
            }
        }
        self.ask_send = false;
        self.ask_tell = false;
        proof {
            assert(sent =~= s.probe_chunks());
            lemma_pack_all_concat(empty, s.ack_chunks(), s.probe_chunks(), mtu as nat);
            assert(self@.ack_list =~= Seq::empty());
            assert(self@.send_queue == s.send_queue);
            assert(self@.send_buffer == s.send_buffer);
        }
    }

    /// The second part of a flush: admits segments to the send buffer, sends what is
    /// due, hands out the last packet and settles the congestion window.
    fn flush_data(&mut self, out: &mut Vec<Vec<u8>>, pace: &Pace)
        requires
            old(self)@.sound(),
            old(self)@.update_called,
            !old(self)@.dead,
            *pace == old(self)@.pace(),
            bytes_of(old(self).payload_buffer).len() <= pending_limit(),
        ensures
            final(self)@.sound(),
            final(self)@.cwnd >= 1,
            final(self)@ == old(self)@.dispatched(),
            payloads(final(out)@) == ({
                let p = pack_all(
                    Packed { done: payloads(old(out)@), pending: bytes_of(old(self).payload_buffer) },
                    data_chunks(old(self)@.in_flight_with_admitted(), old(self)@.pace()),
                    old(self)@.mtu as nat,
                );
                if p.pending.len() > 0 {
                    p.done.push(p.pending)
                } else {
                    p.done
                }
            }),
    {
        let ghost s = self@;
        let mtu: usize = self.max_transmission_unit;
        let window: u32 = self.effective_window();
        let next = release(
            &mut self.send_queue,
            &mut self.send_buffer,
            self.unacked_send_sequence_num,
            self.next_send_sequence_num,
            window,
            pace,
        );
        self.next_send_sequence_num = next;
        let ghost buf = s.in_flight_with_admitted();
        proof {
            let k = s.admitting();
            assert(views(self.send_buffer@) == buf);
            assert forall|i: int| 0 <= i < buf.len() implies {
                &&& crate::state::sendable(#[trigger] buf[i])
                &&& crate::state::in_flight_bounded(buf[i], pace.dead_link)
                &&& buf[i].xmit < pace.dead_link
            } by {
                if i < s.send_buffer.len() {
                    assert(buf[i] == s.send_buffer[i]);
                } else {
                    let j = i - s.send_buffer.len();
                    assert(buf[i] == crate::transmit::stamped(
                        s.send_queue[j],
                        *pace,
                        crate::serial::seq_add(s.next_sn, j),
                    ));
                    assert(crate::state::sendable(s.send_queue[j]));
                }
            }
            assert forall|i: int| 0 <= i < self@.send_queue.len() implies crate::state::sendable(
                #[trigger] self@.send_queue[i],
            ) by {
                assert(self@.send_queue[i] == s.send_queue[i + k]);
            }
        }
        let seen = transmit_all(&mut self.send_buffer, pace, &mut self.payload_buffer, out, mtu);
        pack_rest(&mut self.payload_buffer, out);
        let in_flight: u32 = offset_from(
            self.unacked_send_sequence_num,
            self.next_send_sequence_num,
        );
        let c = settle_window(
            Congestion { cwnd: self.congestion_window_size, incr: self.incr, ssthresh: self.ssthresh },
            self.use_congestion_control,
            seen.change,
            seen.lost,
            in_flight,
            window,
            self.fast_resend,
            self.max_segment_size,
        );
        self.congestion_window_size = c.cwnd;
        self.incr = c.incr;
        self.ssthresh = c.ssthresh;
        self.dead = seen.dead;
        proof {
            let after = self@.send_buffer;
            assert(after == crate::transmit::transmitted_all(buf, *pace));
            assert forall|i: int| 0 <= i < after.len() implies {
                &&& (#[trigger] after[i]).sequence_num == buf[i].sequence_num
                &&& crate::state::sendable(after[i])
                &&& crate::state::in_flight_bounded(after[i], self@.dead_link)
                &&& (!self@.dead ==> after[i].xmit < self@.dead_link)
            } by {
                lemma_transmitted_bounded(buf[i], *pace);
                if !self@.dead {
                    if crate::transmit::decision(buf[i], *pace) != crate::transmit::Decision::Hold
                        && crate::transmit::transmitted(buf[i], *pace).xmit >= pace.dead_link {
                        assert(crate::transmit::worn_out(buf, *pace, buf.len() as int));
                    }
                }
            }
            crate::inflight::lemma_same_numbers_same_order(self@.una, self@.next_sn, buf, after);
        }
    }

    /// What a flush at the current time stamps on segments.
    fn pace_now(&self) -> (p: Pace)
        ensures
            p == self@.pace(),
    {
        Pace {
            session_id: self.session_id,
            now: self.current_time,
            rto: self.calculated_rto,
            nodelay: self.nodelay,
            fast_resend: self.fast_resend,
            window_size: (self.num_open_slots_in_recv_queue() % 0x1_0000) as u16,
            rcv_next: self.next_recv_sequence_num,
            dead_link: self.dead_link,
        }
    }

    /// How many segments may be in flight.
    fn effective_window(&self) -> (w: u32)
        ensures
            w == self@.effective_window(),
            w <= crate::state::MAX_IN_FLIGHT,
    {
        let remote: u32 = self.remote_window_size as u32;
        let narrow: u32 = if self.send_window_size < self.remote_window_size as usize {
            self.send_window_size as u32
        } else {
            remote
        };
        if self.use_congestion_control && self.congestion_window_size < narrow {
            self.congestion_window_size
        } else {
            narrow
        }
    }

    /// Free slots of the receive queue.
    pub fn num_open_slots_in_recv_queue(&self) -> (n: usize)
        ensures
            n == self@.open_slots(),
    {
        if self.recv_queue.len() < self.recv_window_size {
            self.recv_window_size - self.recv_queue.len()
        } else {
            0
        }
    }

    /// Number of segments that wait to be sent or to be acknowledged, held at
    /// `usize::MAX`.
    pub fn num_segments_awaiting_send(&self) -> (n: usize)
        ensures
            n == if self@.send_buffer.len() + self@.send_queue.len() <= usize::MAX {
                self@.send_buffer.len() + self@.send_queue.len()
            } else {
                usize::MAX as nat
            },
    {
        self.send_buffer.len().saturating_add(self.send_queue.len())
    }

    /// Number of data segments dropped since they were last counted: those that
    /// arrived outside the receive window, and those whose number was staged
    /// already.
    pub fn num_segments_dropped(&self) -> (n: u64)
        ensures
            n == self@.dropped,
    {
        self.dropped
    }

    /// Hands out the number of data segments dropped since they were last counted,
    /// and starts counting again.
    pub fn take_dropped(&mut self) -> (n: u64)
        requires
            old(self).wf(),
        ensures
            final(self).wf(),
            n == old(self)@.dropped,
            final(self)@ == old(self)@.counted(),
    {
        let n = self.dropped;
        self.dropped = 0;
        proof {
            assert(self@.send_queue == old(self)@.send_queue);
            assert(self@.send_buffer == old(self)@.send_buffer);
        }
        n
    }

    /// Number of segments that wait in the receive queue to be delivered.
    pub fn num_segments_ready(&self) -> (n: usize)
        ensures
            n == self@.recv_queue.len(),
    {
        self.recv_queue.len()
    }

    /// Number of segments that wait in the receive buffer for those before them.
    pub fn num_segments_staged(&self) -> (n: usize)
        ensures
            n == self@.recv_buffer.len(),
    {
        self.recv_buffer.len()
    }

    /// The bookkeeping of the segment at `index` of the send buffer, if there is one.
    pub fn in_flight(&self, index: usize) -> (f: Option<Flight>)
        ensures
            match f {
                Some(flight) => index < self@.send_buffer.len() && flight == Flight::of(
                    self@.send_buffer[index as int],
                ),
                None => index >= self@.send_buffer.len(),
            },
    {
        if index < self.send_buffer.len() {
            let seg = &self.send_buffer[index];
            proof {
                assert(self@.send_buffer[index as int] == seg@);
            }
            Some(
                Flight {
                    sequence_num: seg.sequence_num,
                    fragment_id: seg.fragment_id,
                    resend_time: seg.resend_time,
                    rto: seg.rto,
                    fastack: seg.fastack,
                    xmit: seg.xmit,
                },
            )
        } else {
            None
        }
    }

    /// The session that the connection belongs to.
    pub fn session_id(&self) -> (v: u32)
        ensures
            v == self@.session_id,
    {
        self.session_id
    }

    /// Largest packet handed to the transport, in bytes.
    pub fn max_transmission_unit(&self) -> (v: usize)
        ensures
            v == self@.mtu,
    {
        self.max_transmission_unit
    }

    /// Largest payload of a segment, in bytes.
    pub fn max_segment_size(&self) -> (v: usize)
        ensures
            v == self@.mss,
    {
        self.max_segment_size
    }

    /// The send window, in segments.
    pub fn send_window_size(&self) -> (v: usize)
        ensures
            v == self@.send_wnd,
    {
        self.send_window_size
    }

    /// The receive window, in segments.
    pub fn recv_window_size(&self) -> (v: usize)
        ensures
            v == self@.recv_wnd,
    {
        self.recv_window_size
    }

    /// The window that the peer advertised last.
    pub fn remote_window_size(&self) -> (v: u16)
        ensures
            v == self@.remote_wnd,
    {
        self.remote_window_size
    }

    /// The congestion window, in segments.
    pub fn congestion_window_size(&self) -> (v: u32)
        ensures
            v == self@.cwnd,
    {
        self.congestion_window_size
    }

    /// The slow-start threshold, in segments.
    pub fn slow_start_threshold(&self) -> (v: u32)
        ensures
            v == self@.ssthresh,
    {
        self.ssthresh
    }

    /// The current retransmission timeout, in milliseconds.
    pub fn calculated_rto(&self) -> (v: u32)
        ensures
            v == self@.rto,
    {
        self.calculated_rto
    }

    /// The floor of the retransmission timeout, in milliseconds.
    pub fn minimum_rto(&self) -> (v: u32)
        ensures
            v == self@.min_rto,
    {
        self.minimum_rto
    }

    /// The flush interval, in milliseconds.
    pub fn interval(&self) -> (v: u32)
        ensures
            v == self@.interval,
    {
        self.interval
    }

    /// Oldest sequence number sent and not yet acknowledged.
    pub fn unacked_send_sequence_num(&self) -> (v: u32)
        ensures
            v == self@.una,
    {
        self.unacked_send_sequence_num
    }

    /// Next sequence number to assign.
    pub fn next_send_sequence_num(&self) -> (v: u32)
        ensures
            v == self@.next_sn,
    {
        self.next_send_sequence_num
    }

    /// Next sequence number expected in order.
    pub fn next_recv_sequence_num(&self) -> (v: u32)
        ensures
            v == self@.rcv_next,
    {
        self.next_recv_sequence_num
    }

    /// Whether a segment has been transmitted as often as the dead-link cap allows
    /// without being acknowledged. A dead connection no longer sends.
    pub fn is_dead(&self) -> (v: bool)
        ensures
            v == self@.dead,
    {
        self.dead
    }

    /// Number of bytes that the encoding buffer holds.
    pub fn payload_buffer_len(&self) -> (n: usize)
        ensures
            n == self@.buffer_len,
    {
        self.payload_buffer.len()
    }

    /// Number of bytes that the encoding buffer can hold without reallocating, as
    /// its allocator says: at least as many as it holds, so at least three times
    /// `mtu + 24` right after the MTU has been set.
    pub fn payload_buffer_capacity(&self) -> (n: usize)
        ensures
            n >= self@.buffer_len,
    {
        self.payload_buffer.capacity()
    }
}

} // verus!
