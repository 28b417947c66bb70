//! The reliability engine as a state machine: for each operation of a connection, the
//! state that follows and what the operation hands back.
//!
//! Everything here is ghost code. [`crate::connection::ReliableConnection`] is the
//! executable engine; each of its operations is proved to do what is written here.
use crate::congestion::{grown, settled, Congestion};
use crate::errors::ErrorKind;
use crate::estimator::{sampled, Estimate};
use crate::fragment::{enqueue_error, enqueued};
use crate::inflight::{cumulatively_acked, fast_acked, oldest_unacked, selectively_acked};
use crate::message::{message_ready, message_run, next_message};
use crate::packing::{pack_all, packets_of, Packed};
use crate::probe::{probed, Probe};
use crate::segment::{valid_command, Header, SegmentView};
use crate::serial::{seq_add, seq_diff, seq_offset};
use crate::staging::{in_recv_window, is_staged, promotable, room, staged};
use crate::state::ConnectionView;
use crate::transmit::{
    ack_wires, admitted, admitted_count, data_chunks, outcome, transmitted_all, Pace,
};
use crate::{
    CMD_ACK, CMD_PUSH, CMD_WASK, CMD_WINS, DEADLINK, DEFAULT_MTU, INTERVAL, MIN_MTU,
    PROTOCOL_OVERHEAD, RECV_WINDOW_SIZE, RTO_DEF, RTO_MIN, RTO_NDL, SEND_WINDOW_SIZE, THRESH_INIT,
};
use vstd::prelude::*;

verus! {

/// The state while an input is being worked off: the connection, whether an
/// acknowledgement has been seen, and the latest number acknowledged if so.
pub struct Progress {
    pub state: ConnectionView,
    pub acked: bool,
    pub max_ack: u32,
}

impl ConnectionView {
    /// A connection that has neither sent nor received anything.
    pub open spec fn fresh(session_id: u32) -> ConnectionView {
        ConnectionView {
            session_id,
            mtu: DEFAULT_MTU,
            mss: (DEFAULT_MTU - PROTOCOL_OVERHEAD) as usize,
            dead: false,
            una: 0,
            next_sn: 0,
            rcv_next: 0,
            ssthresh: THRESH_INIT,
            rttvar: 0,
            srtt: 0,
            rto: RTO_DEF,
            min_rto: RTO_MIN,
            send_wnd: SEND_WINDOW_SIZE,
            recv_wnd: RECV_WINDOW_SIZE,
            remote_wnd: RECV_WINDOW_SIZE as u16,
            cwnd: 0,
            ask_send: false,
            ask_tell: false,
            current: 0,
            interval: INTERVAL,
            next_flush: 0,
            update_called: false,
            nodelay: 0,
            next_probe_time: 0,
            probe_wait: 0,
            dead_link: DEADLINK,
            incr: 0,
            send_queue: Seq::empty(),
            recv_queue: Seq::empty(),
            send_buffer: Seq::empty(),
            recv_buffer: Seq::empty(),
            ack_list: Seq::empty(),
            buffer_len: 0,
            fast_resend: 0,
            use_congestion_control: false,
            streaming: false,
            dropped: 0,
        }
    }

    /// The congestion window, its byte credit and the threshold.
    pub open spec fn congestion(self) -> Congestion {
        Congestion { cwnd: self.cwnd, incr: self.incr, ssthresh: self.ssthresh }
    }

    // ------------------------------------------------------------------ send
    /// Why `send` refuses `payload`, if it does: it is empty, the link is dead, or
    /// it needs too many fragments.
    pub open spec fn send_error(self, payload: Seq<u8>) -> Option<ErrorKind> {
        if self.dead && payload.len() > 0 {
            Some(ErrorKind::IOError)
        } else {
            enqueue_error(self.send_queue, payload, self.mss as nat, self.streaming, self.recv_wnd)
        }
    }

    /// The state after `send` has accepted `payload`.
    pub open spec fn sent(self, payload: Seq<u8>) -> ConnectionView {
        ConnectionView {
            send_queue: enqueued(self.send_queue, payload, self.mss as nat, self.streaming),
            ..self
        }
    }

    // ------------------------------------------------------------------ recv
    /// Why `peek_size` has no size to give, if it has none.
    pub open spec fn peek_error(self) -> Option<ErrorKind> {
        if !message_ready(self.recv_queue) {
            Some(ErrorKind::IncompleteMessage)
        } else if next_message(self.recv_queue).len() > usize::MAX {
            Some(ErrorKind::BufferTooSmall)
        } else {
            None
        }
    }

    /// Why `recv` delivers nothing into a buffer of `room` bytes, if it does not.
    pub open spec fn recv_error(self, room: nat) -> Option<ErrorKind> {
        if self.recv_queue.len() == 0 {
            Some(ErrorKind::EmptyRecvQueue)
        } else if !message_ready(self.recv_queue) {
            Some(ErrorKind::IncompleteMessage)
        } else if next_message(self.recv_queue).len() > room {
            Some(ErrorKind::BufferTooSmall)
        } else {
            None
        }
    }

    /// The state after `recv` has delivered the first message: its segments have left
    /// the receive queue, staged segments that follow without a gap have taken the room,
    /// and the peer is to be told of the window if the queue was full before.
    pub open spec fn received(self) -> ConnectionView {
        let queue = self.recv_queue.skip(message_run(self.recv_queue) as int);
        let k = promotable(self.recv_buffer, self.rcv_next, room(queue.len(), self.recv_wnd));
        ConnectionView {
            recv_queue: queue + self.recv_buffer.take(k as int),
            recv_buffer: self.recv_buffer.skip(k as int),
            rcv_next: seq_add(self.rcv_next, k as int),
            ask_tell: self.ask_tell || self.recv_queue.len() >= self.recv_wnd,
            ..self
        }
    }

    /// The number of the segment that is delivered next: the receive queue holds the
    /// segments from this number up to, but not including, `rcv_next`.
    pub open spec fn delivery_point(self) -> u32 {
        seq_add(self.rcv_next, -(self.recv_queue.len() as int))
    }

    // ----------------------------------------------------------------- input
    /// Why the segment whose header stands at `bytes[at..at + 24]` ends the input, if
    /// it does. The checks come in this order: the session, room for the payload that
    /// the header declares, a known command.
    pub open spec fn segment_error(self, bytes: Seq<u8>, at: int) -> Option<ErrorKind> {
        let h = Header::at(bytes, at);
        if h.session_id != self.session_id {
            Some(ErrorKind::InvalidSessionId)
        } else if bytes.len() - at - PROTOCOL_OVERHEAD < h.length {
            Some(ErrorKind::IncompleteMessage)
        } else if !valid_command(h.command) {
            Some(ErrorKind::InvalidCommand)
        } else {
            None
        }
    }

    /// The state after the window and the cumulative acknowledgement of an incoming
    /// header have been taken in: the peer's window is the advertised one, and the
    /// segments in flight that the peer has received in order are gone.
    pub open spec fn heard(self, h: Header) -> ConnectionView {
        let buf = cumulatively_acked(self.send_buffer, h.unacked_sequence_num);
        ConnectionView {
            remote_wnd: h.window_size,
            send_buffer: buf,
            una: oldest_unacked(buf, self.next_sn),
            ..self
        }
    }

    /// The state after an acknowledgement `h`: a round trip that did not end before it
    /// began is fed to the estimator, and the segment acknowledged leaves the send
    /// buffer.
    pub open spec fn acknowledged(self, h: Header) -> ConnectionView {
        let rtt = seq_diff(self.current, h.timestamp);
        let e = if rtt >= 0 {
            sampled(self.srtt, self.rttvar, self.interval, self.min_rto, rtt as u32)
        } else {
            Estimate { srtt: self.srtt, rttvar: self.rttvar, rto: self.rto }
        };
        let buf = selectively_acked(self.send_buffer, self.una, self.next_sn, h.sequence_num);
        ConnectionView {
            srtt: e.srtt,
            rttvar: e.rttvar,
            rto: e.rto,
            send_buffer: buf,
            una: oldest_unacked(buf, self.next_sn),
            ..self
        }
    }

    /// The count of dropped data segments after one more has been dropped.
    pub open spec fn one_more_dropped(self) -> u64 {
        if self.dropped < u64::MAX {
            (self.dropped + 1) as u64
        } else {
            u64::MAX
        }
    }

    /// The state after a data segment has arrived. Outside the receive window it is
    /// dropped. Inside, it is noted for acknowledgement and staged unless its number
    /// is staged already, in which case it is dropped too; staged segments that now
    /// follow without a gap move on to the receive queue. A dropped segment is
    /// counted.
    pub open spec fn pushed(self, seg: SegmentView) -> ConnectionView {
        if in_recv_window(self.rcv_next, self.recv_wnd, seg.sequence_num) {
            let buf = staged(self.recv_buffer, self.rcv_next, seg);
            let k = promotable(buf, self.rcv_next, room(self.recv_queue.len(), self.recv_wnd));
            ConnectionView {
                ack_list: self.ack_list.push((seg.sequence_num, seg.timestamp)),
                recv_buffer: buf.skip(k as int),
                recv_queue: self.recv_queue + buf.take(k as int),
                rcv_next: seq_add(self.rcv_next, k as int),
                dropped: if is_staged(self.recv_buffer, self.rcv_next, seg.sequence_num) {
                    self.one_more_dropped()
                } else {
                    self.dropped
                },
                ..self
            }
        } else {
            ConnectionView { dropped: self.one_more_dropped(), ..self }
        }
    }

    /// The state after the dropped data segments have been counted: the count starts
    /// again at 0.
    pub open spec fn counted(self) -> ConnectionView {
        ConnectionView { dropped: 0, ..self }
    }
}

impl Progress {
    /// The latest number acknowledged, once `sn` has been acknowledged too.
    pub open spec fn latest(self, sn: u32) -> u32 {
        if !self.acked || seq_diff(sn, self.max_ack) > 0 {
            sn
        } else {
            self.max_ack
        }
    }

    /// The progress after one incoming segment with header `h` and the given payload.
    pub open spec fn absorbed(self, h: Header, payload: Seq<u8>) -> Progress {
        let s = self.state.heard(h);
        if h.command == CMD_ACK {
            Progress { state: s.acknowledged(h), acked: true, max_ack: self.latest(h.sequence_num) }
        } else if h.command == CMD_PUSH {
            Progress { state: s.pushed(h.with_payload(payload)), ..self }
        } else if h.command == CMD_WASK {
            Progress { state: ConnectionView { ask_tell: true, ..s }, ..self }
        } else {
            Progress { state: s, ..self }
        }
    }

    /// The progress after the segments of `bytes` from position `at` on, and where the
    /// input ended: the position behind the last whole segment, or the error that cut
    /// it short. Segments ahead of an error have had their effect.
    pub open spec fn absorbed_from(self, bytes: Seq<u8>, at: int) -> (Progress, Result<int, ErrorKind>)
        decreases bytes.len() - at,
    {
        if at < 0 || bytes.len() - at < PROTOCOL_OVERHEAD {
            (self, Ok(at))
        } else {
            match self.state.segment_error(bytes, at) {
                Some(e) => (self, Err(e)),
                None => {
                    let h = Header::at(bytes, at);
                    let end = at + PROTOCOL_OVERHEAD + h.length;
                    self.absorbed(h, bytes.subrange(at + PROTOCOL_OVERHEAD, end)).absorbed_from(
                        bytes,
                        end,
                    )
                },
            }
        }
    }

    /// The state when the input has been worked off: the latest number acknowledged
    /// counts against the segments in flight before it, and with congestion control
    /// the window grows if the input has moved `una` ahead of `una_before`.
    pub open spec fn finished(self, una_before: u32) -> ConnectionView {
        let s = self.state;
        let buf = if self.acked {
            fast_acked(s.send_buffer, s.una, s.next_sn, self.max_ack)
        } else {
            s.send_buffer
        };
        let c = if s.use_congestion_control && seq_diff(s.una, una_before) > 0 {
            grown(s.congestion(), s.remote_wnd, s.mss)
        } else {
            s.congestion()
        };
        ConnectionView { send_buffer: buf, cwnd: c.cwnd, incr: c.incr, ..s }
    }
}

impl ConnectionView {
    /// The state after `input` and what it returns: the number of bytes taken, or why
    /// the input was cut short.
    pub open spec fn input(self, bytes: Seq<u8>) -> (ConnectionView, Result<int, ErrorKind>) {
        if bytes.len() < PROTOCOL_OVERHEAD {
            (self, Err(ErrorKind::BufferTooSmall))
        } else {
            let (p, r) = (Progress { state: self, acked: false, max_ack: 0 }).absorbed_from(
                bytes,
                0,
            );
            match r {
                Ok(used) => (p.finished(self.una), Ok(used)),
                Err(e) => (p.state, Err(e)),
            }
        }
    }

    // ----------------------------------------------------------------- flush
    /// The window to advertise: the free slots of the receive queue, modulo 2^16.
    pub open spec fn advertised(self) -> u16 {
        (self.open_slots() % 0x1_0000) as u16
    }

    /// What a flush at the connection's current time stamps on segments.
    pub open spec fn pace(self) -> Pace {
        Pace {
            session_id: self.session_id,
            now: self.current,
            rto: self.rto,
            nodelay: self.nodelay,
            fast_resend: self.fast_resend,
            window_size: self.advertised(),
            rcv_next: self.rcv_next,
            dead_link: self.dead_link,
        }
    }

    /// The header of a segment without payload that a flush sends.
    pub open spec fn control(self, command: u8, sn: u32, ts: u32) -> Header {
        Header {
            session_id: self.session_id,
            command,
            fragment_id: 0,
            window_size: self.advertised(),
            timestamp: ts,
            sequence_num: sn,
            unacked_sequence_num: self.rcv_next,
            length: 0,
        }
    }

    /// The acknowledgements that a flush sends: one for each entry of the ack list,
    /// with the number and the timestamp of the segment acknowledged.
    pub open spec fn ack_chunks(self) -> Seq<Seq<u8>> {
        ack_wires(self.ack_list, self.control(CMD_ACK, 0, 0))
    }

    /// The probe timer.
    pub open spec fn probe(self) -> Probe {
        Probe { wait: self.probe_wait, next_time: self.next_probe_time, ask_send: self.ask_send }
    }

    /// The window commands that a flush sends: a request for the peer's window where
    /// one is due, then an advertisement of the own window where one is due. Both
    /// repeat number and timestamp of the last acknowledgement sent with the flush, or
    /// carry zeros where there was none.
    pub open spec fn probe_chunks(self) -> Seq<Seq<u8>> {
        let (sn, ts) = if self.ack_list.len() > 0 { self.ack_list.last() } else { (0u32, 0u32) };
        let ask = if probed(self.probe(), self.remote_wnd, self.current).ask_send {
            seq![self.control(CMD_WASK, sn, ts).wire()]
        } else {
            Seq::empty()
        };
        let tell = if self.ask_tell {
            seq![self.control(CMD_WINS, sn, ts).wire()]
        } else {
            Seq::empty()
        };
        ask + tell
    }

    /// How many segments may be in flight: no more than the own send window and the
    /// peer's window allow, nor, with congestion control, the congestion window.
    pub open spec fn effective_window(self) -> int {
        let narrow = if self.send_wnd < self.remote_wnd {
            self.send_wnd as int
        } else {
            self.remote_wnd as int
        };
        if self.use_congestion_control && self.cwnd < narrow {
            self.cwnd as int
        } else {
            narrow
        }
    }

    /// How many segments the flush moves from the send queue to the send buffer.
    pub open spec fn admitting(self) -> nat {
        admitted_count(self.send_queue.len(), self.in_flight(), self.effective_window())
    }

    /// The send buffer as the flush finds it once it has admitted new segments.
    pub open spec fn in_flight_with_admitted(self) -> Seq<SegmentView> {
        self.send_buffer + admitted(self.send_queue, self.pace(), self.next_sn, self.admitting())
    }

    /// Whether a flush does anything: the connection has been updated once and its
    /// link is not dead.
    pub open spec fn flushing(self) -> bool {
        self.update_called && !self.dead
    }

    /// The acknowledgements and window commands that a flush sends.
    pub open spec fn control_chunks(self) -> Seq<Seq<u8>> {
        self.ack_chunks() + self.probe_chunks()
    }

    /// Everything that a flush sends, segment by segment: acknowledgements, window
    /// commands, data.
    pub open spec fn flush_chunks(self) -> Seq<Seq<u8>> {
        self.control_chunks() + data_chunks(self.in_flight_with_admitted(), self.pace())
    }

    /// The packets that a flush hands out.
    pub open spec fn flush_packets(self) -> Seq<Seq<u8>> {
        if self.flushing() {
            packets_of(self.flush_chunks(), self.mtu as nat)
        } else {
            Seq::empty()
        }
    }

    /// The state in the middle of a flush, when acknowledgements and window commands
    /// are packed: the ack list is empty, the probe timer has advanced, no window
    /// command is due any more, and the encoding buffer holds what is packed and not
    /// yet handed out.
    pub open spec fn controlled(self) -> ConnectionView {
        let probe = probed(self.probe(), self.remote_wnd, self.current);
        ConnectionView {
            ack_list: Seq::empty(),
            probe_wait: probe.wait,
            next_probe_time: probe.next_time,
            ask_send: false,
            ask_tell: false,
            buffer_len: pack_all(
                Packed { done: Seq::empty(), pending: Seq::empty() },
                self.control_chunks(),
                self.mtu as nat,
            ).pending.len(),
            ..self
        }
    }

    /// The state at the end of a flush, from the state in its middle: as many
    /// segments as the window admits have moved from the send queue to the send
    /// buffer, every segment in flight has been sent or held as [`transmitted`] says,
    /// the link is dead if one of them has worn out, the congestion window has
    /// [`settled`], and the encoding buffer is empty.
    ///
    /// [`transmitted`]: crate::transmit::transmitted
    pub open spec fn dispatched(self) -> ConnectionView {
        let k = self.admitting();
        let next_sn = seq_add(self.next_sn, k as int);
        let buf = self.in_flight_with_admitted();
        let seen = outcome(buf, self.pace());
        let c = settled(
            self.congestion(),
            self.use_congestion_control,
            seen.change,
            seen.lost,
            seq_offset(self.una, next_sn),
            self.effective_window(),
            self.fast_resend,
            self.mss,
        );
        ConnectionView {
            send_queue: self.send_queue.skip(k as int),
            send_buffer: transmitted_all(buf, self.pace()),
            next_sn,
            dead: seen.dead,
            cwnd: c.cwnd,
            incr: c.incr,
            ssthresh: c.ssthresh,
            buffer_len: 0,
            ..self
        }
    }

    /// The state after a flush.
    pub open spec fn flushed(self) -> ConnectionView {
        if self.flushing() {
            self.controlled().dispatched()
        } else {
            self
        }
    }

    // ---------------------------------------------------------------- update
    /// Whether an update at time `now` flushes: on the first update, when the time of
    /// the next flush has come, or when the clock is more than ten seconds away from
    /// it.
    pub open spec fn flush_due(self, now: u32) -> bool {
        let since = seq_diff(now, self.next_flush);
        !self.update_called || since >= 0 || since < -10_000
    }

    /// The state after an update at time `now`, before the flush if one is due: the
    /// time is `now`, and if a flush is due the next one is an interval after the one
    /// planned, or after `now` where that would be in the past or the plan was more
    /// than ten seconds off.
    pub open spec fn ticked(self, now: u32) -> ConnectionView {
        let since = seq_diff(now, self.next_flush);
        let planned = if !self.update_called || since >= 10_000 || since < -10_000 {
            now
        } else {
            self.next_flush
        };
        let stepped = seq_add(planned, self.interval as int);
        let next_flush = if !self.flush_due(now) {
            self.next_flush
        } else if seq_diff(now, stepped) >= 0 {
            seq_add(now, self.interval as int)
        } else {
            stepped
        };
        ConnectionView { current: now, update_called: true, next_flush, ..self }
    }

    /// The state after an update at time `now`.
    pub open spec fn updated(self, now: u32) -> ConnectionView {
        if self.flush_due(now) {
            self.ticked(now).flushed()
        } else {
            self.ticked(now)
        }
    }

    /// The packets that an update at time `now` hands out.
    pub open spec fn update_packets(self, now: u32) -> Seq<Seq<u8>> {
        if self.flush_due(now) {
            self.ticked(now).flush_packets()
        } else {
            Seq::empty()
        }
    }

    // ----------------------------------------------------------------- check
    /// The shortest wait until a segment in flight is due again, counted from `now`;
    /// `u32::MAX` where none is in flight.
    pub open spec fn resend_wait(buf: Seq<SegmentView>, now: u32) -> int
        decreases buf.len(),
    {
        if buf.len() == 0 {
            u32::MAX as int
        } else {
            let rest = Self::resend_wait(buf.drop_last(), now);
            let own = seq_diff(buf.last().resend_time, now);
            if own < rest { own } else { rest }
        }
    }

    /// Whether an update is wanted at once at time `now`: before the first update,
    /// when the time of the next flush has come, or when a segment in flight is due.
    pub open spec fn wanted_now(self, now: u32) -> bool {
        ||| !self.update_called
        ||| seq_diff(now, self.next_flush) >= 0
        ||| Self::resend_wait(self.send_buffer, now) <= 0
    }

    /// How long to wait at time `now` until the next update, where none is wanted at
    /// once: the shortest of the wait for the next flush, the wait for the next
    /// segment due, and one interval.
    pub open spec fn wait(self, now: u32) -> int {
        let flush_wait = -seq_diff(now, self.next_flush);
        let resend_wait = Self::resend_wait(self.send_buffer, now);
        let shorter = if resend_wait < flush_wait { resend_wait } else { flush_wait };
        if shorter < self.interval { shorter } else { self.interval as int }
    }

    /// When `update` should be called next, asked at time `now`: at `now` where an
    /// update is wanted at once, otherwise after the wait.
    pub open spec fn check(self, now: u32) -> u32 {
        if self.wanted_now(now) {
            now
        } else {
            seq_add(now, self.wait(now))
        }
    }

    // -------------------------------------------------------------- settings
    /// The state after the MTU has been set: segments take `mtu - 24` bytes from now
    /// on, and the encoding buffer is three times `mtu + 24` bytes long.
    pub open spec fn with_mtu(self, mtu: usize) -> ConnectionView {
        ConnectionView {
            mtu,
            mss: (mtu - PROTOCOL_OVERHEAD) as usize,
            buffer_len: ((mtu + PROTOCOL_OVERHEAD) * 3) as nat,
            ..self
        }
    }

    /// The floor of the retransmission timeout after `nodelay`: 30 ms in no-delay
    /// mode, 100 ms in normal mode, and as it was for a negative number.
    pub open spec fn floor_after(self, nodelay: i32) -> u32 {
        if nodelay > 0 {
            RTO_NDL
        } else if nodelay == 0 {
            RTO_MIN
        } else {
            self.min_rto
        }
    }

    /// The state after `nodelay`. A negative number leaves its setting as it is. The
    /// floor of the retransmission timeout is 30 ms in no-delay mode and 100 ms
    /// otherwise, and a timeout below the new floor is raised to it; the interval is
    /// held within `[10, 5000]` ms.
    pub open spec fn with_nodelay(
        self,
        nodelay: i32,
        interval: i32,
        resend: i32,
        use_congestion_control: bool,
    ) -> ConnectionView {
        ConnectionView {
            nodelay: if nodelay >= 0 { nodelay as u32 } else { self.nodelay },
            min_rto: self.floor_after(nodelay),
            rto: if self.rto < self.floor_after(nodelay) {
                self.floor_after(nodelay)
            } else {
                self.rto
            },
            interval: if interval > 5000 {
                5000
            } else if interval >= 10 {
                interval as u32
            } else if interval >= 0 {
                10
            } else {
                self.interval
            },
            fast_resend: if resend >= 0 { resend as u32 } else { self.fast_resend },
            use_congestion_control,
            ..self
        }
    }

    /// The state after the window sizes have been set.
    pub open spec fn with_window_sizes(self, send_wnd: usize, recv_wnd: usize) -> ConnectionView {
        ConnectionView { send_wnd, recv_wnd, ..self }
    }
}

/// The shortest wait over all segments in flight is no longer than that over the
/// first `k` of them.
pub proof fn lemma_resend_wait_shrinks(buf: Seq<SegmentView>, now: u32, k: int)
    requires
        0 <= k <= buf.len(),
    ensures
        ConnectionView::resend_wait(buf, now) <= ConnectionView::resend_wait(buf.take(k), now),
    decreases buf.len() - k,
{
    if k == buf.len() {
        assert(buf.take(k) =~= buf);
    } else {
        lemma_resend_wait_shrinks(buf, now, k + 1);
        assert(buf.take(k + 1).drop_last() =~= buf.take(k));
    }
}

/// Packing acknowledgements and window commands leaves alone what the flush does to
/// data segments.
pub proof fn lemma_controlled_keeps_data(s: ConnectionView)
    ensures
        s.controlled().pace() == s.pace(),
        s.controlled().in_flight_with_admitted() == s.in_flight_with_admitted(),
        s.controlled().mtu == s.mtu,
        s.controlled().update_called == s.update_called,
        s.controlled().dead == s.dead,
        s.controlled().rto == s.rto,
        s.controlled().min_rto == s.min_rto,
{
}

} // verus!
