//! The state of one connection as a mathematical value, and what holds of it between
//! any two calls.
use crate::segment::SegmentView;
use crate::serial::seq_offset;
use crate::{MIN_MTU, PROBE_LIMIT, PROTOCOL_OVERHEAD, RTO_MAX, RTO_MIN, RTO_NDL, THRESH_MIN};
use vstd::prelude::*;

verus! {

/// Largest payload that a segment of a well-formed connection carries: one less than
/// 2^32 minus the header.
pub const MAX_MSS: usize = 0xFFFF_FFE7;

/// Largest number of segments in flight: the widest window a peer can advertise.
pub const MAX_IN_FLIGHT: u32 = 0xFFFF;

/// Every field of a connection, with the four queues as sequences of segment values.
pub struct ConnectionView {
    pub session_id: u32,
    pub mtu: usize,
    pub mss: usize,
    /// Some segment was transmitted `dead_link` times without an acknowledgement.
    pub dead: bool,
    /// Oldest sequence number sent and not yet acknowledged.
    pub una: u32,
    /// Next sequence number to assign.
    pub next_sn: u32,
    /// Next sequence number expected in order.
    pub rcv_next: u32,
    pub ssthresh: u32,
    /// Mean deviation of the round-trip time.
    pub rttvar: u32,
    /// Smoothed round-trip time.
    pub srtt: u32,
    pub rto: u32,
    pub min_rto: u32,
    pub send_wnd: usize,
    pub recv_wnd: usize,
    pub remote_wnd: u16,
    pub cwnd: u32,
    /// A window probe is due with the next flush.
    pub ask_send: bool,
    /// A window advertisement is due with the next flush.
    pub ask_tell: bool,
    pub current: u32,
    pub interval: u32,
    pub next_flush: u32,
    pub update_called: bool,
    pub nodelay: u32,
    pub next_probe_time: u32,
    pub probe_wait: u32,
    pub dead_link: u32,
    /// Bytes credited towards the next growth of the congestion window.
    pub incr: u64,
    pub send_queue: Seq<SegmentView>,
    pub recv_queue: Seq<SegmentView>,
    pub send_buffer: Seq<SegmentView>,
    pub recv_buffer: Seq<SegmentView>,
    /// Sequence number and timestamp of each segment to acknowledge.
    pub ack_list: Seq<(u32, u32)>,
    /// Bytes held by the encoding buffer.
    pub buffer_len: nat,
    pub fast_resend: u32,
    pub use_congestion_control: bool,
    pub streaming: bool,
    /// Data segments dropped since they were last counted, up to `u64::MAX`: those
    /// outside the receive window and those staged already.
    pub dropped: u64,
}

/// The segments in flight are numbered from `una` upwards in strictly increasing
/// order, all below `next_sn`; `una` is the first of them, or `next_sn` where none is
/// in flight. Order is taken modulo 2^32, by distance ahead of `una`.
pub open spec fn send_window_ordered(una: u32, next_sn: u32, buf: Seq<SegmentView>) -> bool {
    &&& seq_offset(una, next_sn) <= MAX_IN_FLIGHT
    &&& forall|i: int|
        0 <= i < buf.len() ==> seq_offset(una, (#[trigger] buf[i]).sequence_num) < seq_offset(
            una,
            next_sn,
        )
    &&& forall|i: int, j: int|
        0 <= i < j < buf.len() ==> seq_offset(una, (#[trigger] buf[i]).sequence_num)
            < seq_offset(una, (#[trigger] buf[j]).sequence_num)
    &&& buf.len() > 0 ==> buf[0].sequence_num == una
    &&& buf.len() == 0 ==> una == next_sn
}

/// The staged segments are in strictly increasing order of their distance ahead of
/// `rcv_next`, so no two share a sequence number.
pub open spec fn recv_buffer_ordered(rcv_next: u32, buf: Seq<SegmentView>) -> bool {
    forall|i: int, j: int|
        0 <= i < j < buf.len() ==> seq_offset(rcv_next, (#[trigger] buf[i]).sequence_num)
            < seq_offset(rcv_next, (#[trigger] buf[j]).sequence_num)
}

/// The deliverable segments carry consecutive sequence numbers that end just before
/// `rcv_next`.
pub open spec fn recv_queue_contiguous(rcv_next: u32, queue: Seq<SegmentView>) -> bool {
    forall|i: int|
        0 <= i < queue.len() ==> seq_offset((#[trigger] queue[i]).sequence_num, rcv_next) == (
        queue.len() - i) % 0x1_0000_0000
}

/// The bound that the congestion window puts on the byte credit.
pub open spec fn credit_bounded(cwnd: u32, incr: u64) -> bool {
    if cwnd <= MAX_IN_FLIGHT {
        incr <= (0x1_0000 + 2 * cwnd) * MAX_MSS
    } else {
        incr <= cwnd * MAX_MSS
    }
}

/// A payload that the engine can hold in a segment to send and encode.
pub open spec fn sendable(seg: SegmentView) -> bool {
    &&& seg.data.len() <= MAX_MSS
    &&& (seg.data.len() + 2 * PROTOCOL_OVERHEAD) * 3 <= isize::MAX
}

/// A segment in flight has been transmitted no more often than the dead-link cap
/// allows, and each transmission has added at most one maximal timeout to its own.
pub open spec fn in_flight_bounded(seg: SegmentView, dead_link: u32) -> bool {
    &&& seg.xmit <= dead_link
    &&& seg.rto <= RTO_MAX * (seg.xmit + 1)
}

impl ConnectionView {
    /// Number of sequence numbers assigned and not yet acknowledged cumulatively.
    pub open spec fn in_flight(self) -> int {
        seq_offset(self.una, self.next_sn)
    }

    /// Free slots of the receive queue.
    pub open spec fn open_slots(self) -> nat {
        if self.recv_queue.len() < self.recv_wnd {
            (self.recv_wnd - self.recv_queue.len()) as nat
        } else {
            0
        }
    }

    /// What holds of a connection before and after every call.
    pub open spec fn wf(self) -> bool {
        &&& self.sound()
        &&& self.update_called ==> self.cwnd >= 1
    }

    /// What holds of a connection at every moment, also between an update and the
    /// flush that it starts.
    pub open spec fn sound(self) -> bool {
        &&& MIN_MTU <= self.mtu <= u32::MAX
        &&& (self.mtu + PROTOCOL_OVERHEAD) * 3 <= isize::MAX
        &&& self.mss == self.mtu - PROTOCOL_OVERHEAD
        &&& (self.min_rto == RTO_NDL || self.min_rto == RTO_MIN)
        &&& self.min_rto <= self.rto <= RTO_MAX
        &&& 10 <= self.interval <= 5000
        &&& self.srtt <= i32::MAX
        &&& self.rttvar <= i32::MAX
        &&& self.fast_resend <= i32::MAX
        &&& THRESH_MIN <= self.ssthresh <= 0x3FFF
        &&& self.cwnd <= 0x8000_3FFE
        &&& self.dead ==> self.update_called
        &&& credit_bounded(self.cwnd, self.incr)
        &&& self.probe_wait <= PROBE_LIMIT
        &&& 1 <= self.dead_link <= 0xFFFF
        &&& !self.dead ==> forall|i: int|
            0 <= i < self.send_buffer.len() ==> (#[trigger] self.send_buffer[i]).xmit
                < self.dead_link
        &&& send_window_ordered(self.una, self.next_sn, self.send_buffer)
        &&& forall|i: int|
            0 <= i < self.send_buffer.len() ==> sendable(#[trigger] self.send_buffer[i])
        &&& forall|i: int|
            0 <= i < self.send_buffer.len() ==> in_flight_bounded(
                #[trigger] self.send_buffer[i],
                self.dead_link,
            )
        &&& forall|i: int|
            0 <= i < self.send_queue.len() ==> sendable(#[trigger] self.send_queue[i])
        &&& recv_buffer_ordered(self.rcv_next, self.recv_buffer)
        &&& recv_queue_contiguous(self.rcv_next, self.recv_queue)
        &&& self.buffer_len <= isize::MAX
    }
}

} // verus!
