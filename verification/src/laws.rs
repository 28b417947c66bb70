//! What holds of the engine whatever it is fed: the laws that follow from the state
//! machine of [`crate::engine`] and from the well-formedness of its state.
use crate::engine::Progress;
use crate::errors::ErrorKind;
use crate::estimator::sampled;
use crate::inflight::{
    fast_acked, in_send_window, lemma_remove_keeps_order, oldest_unacked, other_than,
    selectively_acked, skipped_once,
};
use crate::message::{message_run, next_message, payload_of};
use crate::runs::{lemma_prefix_len, lemma_prefix_len_unique, prefix_len};
use crate::segment::{Header, SegmentView};
use crate::serial::{seq_add, seq_diff, seq_offset};
use crate::staging::{
    in_recv_window, lemma_promotable_bounded, lemma_staged_ordered, numbered_before, promotable,
    room, staged,
};
use crate::state::{recv_buffer_ordered, send_window_ordered, ConnectionView, MAX_IN_FLIGHT};
use crate::transmit::{data_chunks, decision, transmitted, Decision, Pace};
use crate::{CMD_ACK, RTO_MAX, RTO_MIN, RTO_NDL};
use vstd::prelude::*;

verus! {

// ------------------------------------------------------------------ send window
/// Every segment in flight is numbered at or after `una` and before `next_sn`, later
/// segments carry later numbers, and the first one is numbered `una`. In signed
/// differences: no segment in flight lies before `una` or at or after `next_sn`.
pub proof fn lemma_in_flight_within_window(s: ConnectionView)
    requires
        s.wf(),
    ensures
        forall|i: int|
            0 <= i < s.send_buffer.len() ==> in_send_window(
                s.una,
                s.next_sn,
                (#[trigger] s.send_buffer[i]).sequence_num,
            ),
        forall|i: int|
            0 <= i < s.send_buffer.len() ==> 0 <= seq_diff(
                (#[trigger] s.send_buffer[i]).sequence_num,
                s.una,
            ) && seq_diff(s.send_buffer[i].sequence_num, s.next_sn) < 0,
        forall|i: int, j: int|
            0 <= i < j < s.send_buffer.len() ==> seq_diff(
                (#[trigger] s.send_buffer[j]).sequence_num,
                (#[trigger] s.send_buffer[i]).sequence_num,
            ) > 0,
        s.send_buffer.len() > 0 ==> s.send_buffer[0].sequence_num == s.una,
        s.send_buffer.len() == 0 ==> s.una == s.next_sn,
        0 <= seq_diff(s.next_sn, s.una) <= MAX_IN_FLIGHT,
{
    assert forall|i: int| 0 <= i < s.send_buffer.len() implies 0 <= seq_diff(
        (#[trigger] s.send_buffer[i]).sequence_num,
        s.una,
    ) && seq_diff(s.send_buffer[i].sequence_num, s.next_sn) < 0 by {
        assert(seq_offset(s.una, s.send_buffer[i].sequence_num) < seq_offset(s.una, s.next_sn));
    }
    assert forall|i: int, j: int| 0 <= i < j < s.send_buffer.len() implies seq_diff(
        (#[trigger] s.send_buffer[j]).sequence_num,
        (#[trigger] s.send_buffer[i]).sequence_num,
    ) > 0 by {
        assert(seq_offset(s.una, s.send_buffer[i].sequence_num) < seq_offset(
            s.una,
            s.send_buffer[j].sequence_num,
        ));
        assert(seq_offset(s.una, s.send_buffer[j].sequence_num) < seq_offset(s.una, s.next_sn));
    }
}

// --------------------------------------------------------------- receive buffer
/// No two staged segments share a sequence number.
pub proof fn lemma_staged_numbers_distinct(s: ConnectionView)
    requires
        s.wf(),
    ensures
        forall|i: int, j: int|
            0 <= i < s.recv_buffer.len() && 0 <= j < s.recv_buffer.len() && i != j ==> (
            #[trigger] s.recv_buffer[i]).sequence_num != (#[trigger] s.recv_buffer[j]).sequence_num,
{
    assert forall|i: int, j: int|
        0 <= i < s.recv_buffer.len() && 0 <= j < s.recv_buffer.len() && i != j implies (
    #[trigger] s.recv_buffer[i]).sequence_num != (#[trigger] s.recv_buffer[j]).sequence_num by {
        if i < j {
            assert(seq_offset(s.rcv_next, s.recv_buffer[i].sequence_num) < seq_offset(
                s.rcv_next,
                s.recv_buffer[j].sequence_num,
            ));
        } else {
            assert(seq_offset(s.rcv_next, s.recv_buffer[j].sequence_num) < seq_offset(
                s.rcv_next,
                s.recv_buffer[i].sequence_num,
            ));
        }
    }
}

// ------------------------------------------------------------------- estimator
/// The retransmission timeout always lies between its floor and 60000 ms, and the
/// floor is one of its two values.
pub proof fn lemma_rto_bounded(s: ConnectionView)
    requires
        s.wf(),
    ensures
        s.min_rto <= s.rto <= RTO_MAX,
        s.min_rto == RTO_NDL || s.min_rto == RTO_MIN,
{
}

/// Every round-trip sample leaves the timeout between the floor and the ceiling.
pub proof fn lemma_sample_within_range(srtt: u32, rttvar: u32, interval: u32, min_rto: u32, rtt: u32)
    requires
        min_rto <= RTO_MAX,
    ensures
        min_rto <= sampled(srtt, rttvar, interval, min_rto, rtt).rto <= RTO_MAX,
{
}

/// Whatever the settings given to `nodelay`, the timeout lies between the new floor
/// and the ceiling afterwards.
pub proof fn lemma_nodelay_keeps_rto_above_floor(
    s: ConnectionView,
    nodelay: i32,
    interval: i32,
    resend: i32,
    congestion: bool,
)
    requires
        s.wf(),
    ensures
        ({
            let t = s.with_nodelay(nodelay, interval, resend, congestion);
            t.min_rto <= t.rto <= RTO_MAX
        }),
{
}

// ------------------------------------------------------------ congestion window
/// Once a connection has been updated its congestion window is at least one
/// segment.
pub proof fn lemma_window_open(s: ConnectionView)
    requires
        s.wf(),
        s.update_called,
    ensures
        s.cwnd >= 1,
{
}

/// Every update leaves the congestion window at least one segment wide.
pub proof fn lemma_update_opens_window(s: ConnectionView, now: u32)
    requires
        s.wf(),
    ensures
        s.updated(now).update_called,
        s.updated(now).cwnd >= 1,
{
}

// ------------------------------------------------------------------- scheduling
/// Where no update is wanted at once, the time that `check` names lies after `now`:
/// by the wait, which is no longer than one interval, than the wait for the next
/// flush, and than the wait for any segment in flight.
pub proof fn lemma_check_is_ahead(s: ConnectionView, now: u32)
    requires
        s.wf(),
        !s.wanted_now(now),
    ensures
        seq_diff(s.check(now), now) == s.wait(now),
        0 < s.wait(now) <= s.interval,
        s.wait(now) <= -seq_diff(now, s.next_flush),
        s.wait(now) <= ConnectionView::resend_wait(s.send_buffer, now),
        s.wait(now) == s.interval || s.wait(now) == -seq_diff(now, s.next_flush) || s.wait(now)
            == ConnectionView::resend_wait(s.send_buffer, now),
{
}

// ---------------------------------------------------------------- empty queue
/// With an empty receive queue `recv` yields `EmptyRecvQueue`, whatever the buffer,
/// and nothing but an input fills the queue: not a send, an update, a flush or a
/// setting.
pub proof fn lemma_empty_queue_stays_empty(
    s: ConnectionView,
    room: nat,
    payload: Seq<u8>,
    now: u32,
    mtu: usize,
    nodelay: i32,
    interval: i32,
    resend: i32,
    congestion: bool,
    send_wnd: usize,
    recv_wnd: usize,
)
    requires
        s.recv_queue.len() == 0,
    ensures
        s.recv_error(room) == Some(ErrorKind::EmptyRecvQueue),
        s.sent(payload).recv_queue.len() == 0,
        s.updated(now).recv_queue.len() == 0,
        s.flushed().recv_queue.len() == 0,
        s.with_mtu(mtu).recv_queue.len() == 0,
        s.with_nodelay(nodelay, interval, resend, congestion).recv_queue.len() == 0,
        s.with_window_sizes(send_wnd, recv_wnd).recv_queue.len() == 0,
{
}

/// Whether every staged segment lies within the receive window.
pub open spec fn staged_in_window(s: ConnectionView) -> bool {
    forall|i: int|
        0 <= i < s.recv_buffer.len() ==> in_recv_window(
            s.rcv_next,
            s.recv_wnd,
            (#[trigger] s.recv_buffer[i]).sequence_num,
        )
}

/// Staged segments that lie within the receive window stay within it when a data
/// segment arrives and when a message is delivered; only a receive window that is
/// set narrower can leave staged segments outside.
pub proof fn lemma_staged_stay_in_window(s: ConnectionView, seg: SegmentView)
    requires
        s.wf(),
        staged_in_window(s),
    ensures
        staged_in_window(s.pushed(seg)),
        staged_in_window(s.received()),
{
    if in_recv_window(s.rcv_next, s.recv_wnd, seg.sequence_num) {
        let p = prefix_len(s.recv_buffer, numbered_before(s.rcv_next, seg.sequence_num)) as int;
        lemma_prefix_len(s.recv_buffer, numbered_before(s.rcv_next, seg.sequence_num));
        let buf = staged(s.recv_buffer, s.rcv_next, seg);
        lemma_staged_ordered(s.recv_buffer, s.rcv_next, seg);
        assert forall|i: int| 0 <= i < buf.len() implies in_recv_window(
            s.rcv_next,
            s.recv_wnd,
            (#[trigger] buf[i]).sequence_num,
        ) by {
            if buf != s.recv_buffer {
                if i < p {
                    assert(buf[i] == s.recv_buffer[i]);
                } else if i > p {
                    assert(buf[i] == s.recv_buffer[i - 1]);
                }
            }
        }
        let r = room(s.recv_queue.len(), s.recv_wnd);
        let k = promotable(buf, s.rcv_next, r) as int;
        crate::staging::lemma_promotion_keeps_order(buf, s.rcv_next, r);
        let after = s.pushed(seg);
        assert forall|i: int| 0 <= i < after.recv_buffer.len() implies in_recv_window(
            after.rcv_next,
            after.recv_wnd,
            (#[trigger] after.recv_buffer[i]).sequence_num,
        ) by {
            assert(after.recv_buffer[i] == buf[i + k]);
            assert(in_recv_window(s.rcv_next, s.recv_wnd, buf[i + k].sequence_num));
        }
    }
    let queue = s.recv_queue.skip(message_run(s.recv_queue) as int);
    let r = room(queue.len(), s.recv_wnd);
    let k = promotable(s.recv_buffer, s.rcv_next, r) as int;
    crate::staging::lemma_promotion_keeps_order(s.recv_buffer, s.rcv_next, r);
    let after = s.received();
    assert forall|i: int| 0 <= i < after.recv_buffer.len() implies in_recv_window(
        after.rcv_next,
        after.recv_wnd,
        (#[trigger] after.recv_buffer[i]).sequence_num,
    ) by {
        assert(after.recv_buffer[i] == s.recv_buffer[i + k]);
        assert(in_recv_window(s.rcv_next, s.recv_wnd, s.recv_buffer[i + k].sequence_num));
    }
}

// ------------------------------------------------------------ in-order delivery
/// The receive queue holds the segments numbered from the delivery point on, one
/// after the other without a gap: segment `i` of the queue carries the number `i`
/// after the delivery point.
pub proof fn lemma_queue_numbers_consecutive(s: ConnectionView)
    requires
        s.wf(),
    ensures
        forall|i: int|
            0 <= i < s.recv_queue.len() ==> (#[trigger] s.recv_queue[i]).sequence_num == seq_add(
                s.delivery_point(),
                i,
            ),
{
    assert forall|i: int| 0 <= i < s.recv_queue.len() implies (
    #[trigger] s.recv_queue[i]).sequence_num == seq_add(s.delivery_point(), i) by {
        assert(seq_offset(s.recv_queue[i].sequence_num, s.rcv_next) == (s.recv_queue.len() - i)
            % 0x1_0000_0000);
    }
}

/// A data segment that arrives leaves the receive queue as it is or adds segments at
/// its end; it never moves the delivery point.
pub proof fn lemma_push_appends(s: ConnectionView, seg: SegmentView)
    ensures
        s.pushed(seg).recv_queue.len() >= s.recv_queue.len(),
        s.pushed(seg).recv_queue.take(s.recv_queue.len() as int) == s.recv_queue,
        s.pushed(seg).delivery_point() == s.delivery_point(),
{
    if in_recv_window(s.rcv_next, s.recv_wnd, seg.sequence_num) {
        let buf = staged(s.recv_buffer, s.rcv_next, seg);
        let k = promotable(buf, s.rcv_next, room(s.recv_queue.len(), s.recv_wnd));
        lemma_promotable_bounded(buf, s.rcv_next, room(s.recv_queue.len(), s.recv_wnd));
        assert((s.recv_queue + buf.take(k as int)).take(s.recv_queue.len() as int)
            =~= s.recv_queue);
        let after = s.pushed(seg);
        assert(after.recv_queue.len() == s.recv_queue.len() + k);
        assert(after.rcv_next == seq_add(s.rcv_next, k as int));
        crate::serial::lemma_seq_add_twice(s.rcv_next, k as int, -(after.recv_queue.len() as int));
    } else {
        assert(s.recv_queue.take(s.recv_queue.len() as int) =~= s.recv_queue);
    }
}

/// Working off segments leaves the receive queue as it is or adds segments at its
/// end, and never moves the delivery point.
pub proof fn lemma_absorbed_from_appends(p: Progress, bytes: Seq<u8>, at: int)
    ensures
        p.absorbed_from(bytes, at).0.state.recv_queue.len() >= p.state.recv_queue.len(),
        p.absorbed_from(bytes, at).0.state.recv_queue.take(p.state.recv_queue.len() as int)
            == p.state.recv_queue,
        p.absorbed_from(bytes, at).0.state.delivery_point() == p.state.delivery_point(),
    decreases bytes.len() - at,
{
    let queue = p.state.recv_queue;
    if at < 0 || bytes.len() - at < crate::PROTOCOL_OVERHEAD {
        assert(queue.take(queue.len() as int) =~= queue);
    } else if p.state.segment_error(bytes, at).is_some() {
        assert(queue.take(queue.len() as int) =~= queue);
    } else {
        let h = Header::at(bytes, at);
        let end = at + crate::PROTOCOL_OVERHEAD + h.length;
        let payload = bytes.subrange(at + crate::PROTOCOL_OVERHEAD, end);
        let q = p.absorbed(h, payload);
        lemma_push_appends(p.state.heard(h), h.with_payload(payload));
        assert(q.state.recv_queue.len() >= queue.len());
        assert(q.state.recv_queue.take(queue.len() as int) == queue);
        assert(q.state.delivery_point() == p.state.delivery_point());
        lemma_absorbed_from_appends(q, bytes, end);
        let last = q.absorbed_from(bytes, end).0.state.recv_queue;
        assert(last.take(queue.len() as int) =~= last.take(q.state.recv_queue.len() as int).take(
            queue.len() as int,
        ));
    }
}

/// Whatever arrives, what is in the receive queue stays there in its place, new
/// segments come behind it, and the delivery point stays where it is: nothing is
/// delivered twice, out of turn, or skipped.
pub proof fn lemma_input_appends(s: ConnectionView, bytes: Seq<u8>)
    ensures
        s.input(bytes).0.recv_queue.len() >= s.recv_queue.len(),
        s.input(bytes).0.recv_queue.take(s.recv_queue.len() as int) == s.recv_queue,
        s.input(bytes).0.delivery_point() == s.delivery_point(),
{
    if bytes.len() >= crate::PROTOCOL_OVERHEAD {
        lemma_absorbed_from_appends(Progress { state: s, acked: false, max_ack: 0 }, bytes, 0);
    } else {
        assert(s.recv_queue.take(s.recv_queue.len() as int) =~= s.recv_queue);
    }
}

/// A delivery takes the segments of the first message off the front of the receive
/// queue, hands out their payloads in order, and moves the delivery point behind
/// them.
pub proof fn lemma_recv_delivers_in_order(s: ConnectionView)
    requires
        s.recv_queue.len() > 0,
    ensures
        1 <= message_run(s.recv_queue) <= s.recv_queue.len(),
        next_message(s.recv_queue) == payload_of(
            s.recv_queue.take(message_run(s.recv_queue) as int),
        ),
        s.received().delivery_point() == seq_add(
            s.delivery_point(),
            message_run(s.recv_queue) as int,
        ),
        s.received().recv_queue.len() >= s.recv_queue.len() - message_run(s.recv_queue),
        s.received().recv_queue.take(s.recv_queue.len() - message_run(s.recv_queue))
            == s.recv_queue.skip(message_run(s.recv_queue) as int),
{
    crate::message::lemma_message_run(s.recv_queue);
    let run = message_run(s.recv_queue) as int;
    let queue = s.recv_queue.skip(run);
    let k = promotable(s.recv_buffer, s.rcv_next, room(queue.len(), s.recv_wnd));
    lemma_promotable_bounded(s.recv_buffer, s.rcv_next, room(queue.len(), s.recv_wnd));
    assert((queue + s.recv_buffer.take(k as int)).take(queue.len() as int) =~= queue);
    let after = s.received();
    assert(after.recv_queue.len() == s.recv_queue.len() - run + k);
    assert(after.rcv_next == seq_add(s.rcv_next, k as int));
    crate::serial::lemma_seq_add_twice(s.rcv_next, k as int, -(after.recv_queue.len() as int));
    crate::serial::lemma_seq_add_twice(s.rcv_next, -(s.recv_queue.len() as int), run);
}

// --------------------------------------------------------- faithful delivery
/// Whether `seg` is the segment that the peer numbered so: `source` tells, for each
/// sequence number, the segment that the peer has sent under it, and `seg` carries
/// its fragment number and its payload.
pub open spec fn genuine(seg: SegmentView, source: spec_fn(u32) -> SegmentView) -> bool {
    &&& seg.fragment_id == source(seg.sequence_num).fragment_id
    &&& seg.data == source(seg.sequence_num).data
}

/// Whether everything that is staged or ready is what the peer has sent.
pub open spec fn faithful(s: ConnectionView, source: spec_fn(u32) -> SegmentView) -> bool {
    &&& forall|i: int| 0 <= i < s.recv_queue.len() ==> genuine(#[trigger] s.recv_queue[i], source)
    &&& forall|i: int|
        0 <= i < s.recv_buffer.len() ==> genuine(#[trigger] s.recv_buffer[i], source)
}

/// The segments that the peer has sent under the `count` numbers from `from` on.
pub open spec fn sent_run(source: spec_fn(u32) -> SegmentView, from: u32, count: nat) -> Seq<
    SegmentView,
> {
    Seq::new(count, |i: int| source(seq_add(from, i)))
}

/// Whether every data segment of `bytes` from position `at` on, as far as the input
/// gets, is what the peer has sent.
pub open spec fn carries_sent(
    p: Progress,
    bytes: Seq<u8>,
    at: int,
    source: spec_fn(u32) -> SegmentView,
) -> bool
    decreases bytes.len() - at,
{
    if at < 0 || bytes.len() - at < crate::PROTOCOL_OVERHEAD {
        true
    } else if p.state.segment_error(bytes, at).is_some() {
        true
    } else {
        let h = Header::at(bytes, at);
        let end = at + crate::PROTOCOL_OVERHEAD + h.length;
        let payload = bytes.subrange(at + crate::PROTOCOL_OVERHEAD, end);
        &&& h.command == crate::CMD_PUSH ==> genuine(h.with_payload(payload), source)
        &&& carries_sent(p.absorbed(h, payload), bytes, end, source)
    }
}

/// The payloads of two runs of segments that carry the same payloads, one by one,
/// are the same.
pub proof fn lemma_payload_of_same_data(a: Seq<SegmentView>, b: Seq<SegmentView>)
    requires
        a.len() == b.len(),
        forall|i: int| 0 <= i < a.len() ==> (#[trigger] a[i]).data == b[i].data,
    ensures
        payload_of(a) == payload_of(b),
    decreases a.len(),
{
    if a.len() > 0 {
        assert forall|i: int| 0 <= i < a.drop_last().len() implies (
        #[trigger] a.drop_last()[i]).data == b.drop_last()[i].data by {
            assert(a.drop_last()[i] == a[i]);
            assert(b.drop_last()[i] == b[i]);
        }
        lemma_payload_of_same_data(a.drop_last(), b.drop_last());
        assert(a.last().data == b.last().data) by {
            assert(a[a.len() - 1].data == b[a.len() - 1].data);
        }
    }
}

/// A data segment that the peer has sent leaves staged and ready only what the peer
/// has sent.
pub proof fn lemma_push_keeps_faithful(
    s: ConnectionView,
    seg: SegmentView,
    source: spec_fn(u32) -> SegmentView,
)
    requires
        faithful(s, source),
        genuine(seg, source),
    ensures
        faithful(s.pushed(seg), source),
{
    if in_recv_window(s.rcv_next, s.recv_wnd, seg.sequence_num) {
        let p = prefix_len(s.recv_buffer, numbered_before(s.rcv_next, seg.sequence_num)) as int;
        lemma_prefix_len(s.recv_buffer, numbered_before(s.rcv_next, seg.sequence_num));
        let buf = staged(s.recv_buffer, s.rcv_next, seg);
        assert forall|i: int| 0 <= i < buf.len() implies genuine(#[trigger] buf[i], source) by {
            if buf != s.recv_buffer {
                if i < p {
                    assert(buf[i] == s.recv_buffer[i]);
                } else if i > p {
                    assert(buf[i] == s.recv_buffer[i - 1]);
                }
            }
        }
        let k = promotable(buf, s.rcv_next, room(s.recv_queue.len(), s.recv_wnd)) as int;
        lemma_promotable_bounded(buf, s.rcv_next, room(s.recv_queue.len(), s.recv_wnd));
        let after = s.pushed(seg);
        assert forall|i: int| 0 <= i < after.recv_queue.len() implies genuine(
            #[trigger] after.recv_queue[i],
            source,
        ) by {
            if i < s.recv_queue.len() {
                assert(after.recv_queue[i] == s.recv_queue[i]);
            } else {
                assert(after.recv_queue[i] == buf[i - s.recv_queue.len()]);
            }
        }
        assert forall|i: int| 0 <= i < after.recv_buffer.len() implies genuine(
            #[trigger] after.recv_buffer[i],
            source,
        ) by {
            assert(after.recv_buffer[i] == buf[i + k]);
        }
    }
}

/// Working off segments of which the data segments are what the peer has sent
/// leaves staged and ready only what the peer has sent.
pub proof fn lemma_absorbed_from_keeps_faithful(
    p: Progress,
    bytes: Seq<u8>,
    at: int,
    source: spec_fn(u32) -> SegmentView,
)
    requires
        faithful(p.state, source),
        carries_sent(p, bytes, at, source),
    ensures
        faithful(p.absorbed_from(bytes, at).0.state, source),
    decreases bytes.len() - at,
{
    if at < 0 || bytes.len() - at < crate::PROTOCOL_OVERHEAD {
    } else if p.state.segment_error(bytes, at).is_some() {
    } else {
        let h = Header::at(bytes, at);
        let end = at + crate::PROTOCOL_OVERHEAD + h.length;
        let payload = bytes.subrange(at + crate::PROTOCOL_OVERHEAD, end);
        let heard = p.state.heard(h);
        assert(faithful(heard, source));
        if h.command == crate::CMD_PUSH {
            lemma_push_keeps_faithful(heard, h.with_payload(payload), source);
        } else if h.command == CMD_ACK {
            assert(faithful(heard.acknowledged(h), source));
        }
        lemma_absorbed_from_keeps_faithful(p.absorbed(h, payload), bytes, end, source);
    }
}

/// An input of which the data segments are what the peer has sent leaves staged and
/// ready only what the peer has sent.
pub proof fn lemma_input_keeps_faithful(
    s: ConnectionView,
    bytes: Seq<u8>,
    source: spec_fn(u32) -> SegmentView,
)
    requires
        faithful(s, source),
        carries_sent(Progress { state: s, acked: false, max_ack: 0 }, bytes, 0, source),
    ensures
        faithful(s.input(bytes).0, source),
{
    if bytes.len() >= crate::PROTOCOL_OVERHEAD {
        let start = Progress { state: s, acked: false, max_ack: 0 };
        lemma_absorbed_from_keeps_faithful(start, bytes, 0, source);
    }
}

/// A delivery leaves staged and ready only what the peer has sent.
pub proof fn lemma_recv_keeps_faithful(s: ConnectionView, source: spec_fn(u32) -> SegmentView)
    requires
        faithful(s, source),
    ensures
        faithful(s.received(), source),
{
    crate::message::lemma_message_run(s.recv_queue);
    let run = message_run(s.recv_queue) as int;
    let queue = s.recv_queue.skip(run);
    let k = promotable(s.recv_buffer, s.rcv_next, room(queue.len(), s.recv_wnd)) as int;
    lemma_promotable_bounded(s.recv_buffer, s.rcv_next, room(queue.len(), s.recv_wnd));
    let after = s.received();
    assert forall|i: int| 0 <= i < after.recv_queue.len() implies genuine(
        #[trigger] after.recv_queue[i],
        source,
    ) by {
        if i < queue.len() {
            assert(after.recv_queue[i] == s.recv_queue[i + run]);
        } else {
            assert(after.recv_queue[i] == s.recv_buffer[i - queue.len()]);
        }
    }
    assert forall|i: int| 0 <= i < after.recv_buffer.len() implies genuine(
        #[trigger] after.recv_buffer[i],
        source,
    ) by {
        assert(after.recv_buffer[i] == s.recv_buffer[i + k]);
    }
}

/// As long as the data segments that arrive are what the peer has sent, each
/// delivery hands out the payloads that the peer has sent under the numbers from
/// the delivery point on, in the order of these numbers; together with
/// [`lemma_recv_delivers_in_order`] and [`lemma_input_appends`]: what has been
/// delivered so far is what the peer has sent under the first numbers, once each
/// and in order.
pub proof fn lemma_delivery_matches_source(s: ConnectionView, source: spec_fn(u32) -> SegmentView)
    requires
        s.wf(),
        faithful(s, source),
        s.recv_queue.len() > 0,
    ensures
        next_message(s.recv_queue) == payload_of(
            sent_run(source, s.delivery_point(), message_run(s.recv_queue)),
        ),
        forall|i: int|
            0 <= i < message_run(s.recv_queue) - 1 ==> (#[trigger] sent_run(
                source,
                s.delivery_point(),
                message_run(s.recv_queue),
            )[i]).fragment_id != 0,
{
    lemma_queue_numbers_consecutive(s);
    crate::message::lemma_message_run(s.recv_queue);
    lemma_prefix_len(s.recv_queue, crate::message::more_follow());
    let run = message_run(s.recv_queue);
    let taken = s.recv_queue.take(run as int);
    let sent = sent_run(source, s.delivery_point(), run);
    assert forall|i: int| 0 <= i < taken.len() implies (#[trigger] taken[i]).data == sent[i].data
        && taken[i].fragment_id == sent[i].fragment_id by {
        assert(taken[i] == s.recv_queue[i]);
        assert(genuine(s.recv_queue[i], source));
    }
    lemma_payload_of_same_data(taken, sent);
    assert forall|i: int| 0 <= i < run - 1 implies (#[trigger] sent[i]).fragment_id != 0 by {
        assert(taken[i].fragment_id == sent[i].fragment_id);
        assert(crate::message::more_follow()(s.recv_queue[i]));
    }
}

// ------------------------------------------------------------ whole messages
/// Number of segments that the first `k` of `messages` take, at `mss` bytes to a
/// segment.
pub open spec fn segments_before(messages: Seq<Seq<u8>>, mss: nat, k: int) -> nat
    decreases k,
{
    if k <= 0 {
        0
    } else {
        segments_before(messages, mss, k - 1) + crate::fragment::fragment_count(
            messages[k - 1].len(),
            mss,
        )
    }
}

/// Whether `source` is what a peer sends that has cut `messages`, one after the
/// other, into segments of at most `mss` bytes and numbered them from `first` on:
/// fragment `i` of message `k` travels under the number that many segments after
/// `first`.
pub open spec fn carries(
    source: spec_fn(u32) -> SegmentView,
    first: u32,
    messages: Seq<Seq<u8>>,
    mss: nat,
) -> bool {
    forall|k: int, i: int|
        0 <= k < messages.len() && 0 <= i < crate::fragment::fragment_count(
            messages[k].len(),
            mss,
        ) ==> genuine(
            SegmentView {
                sequence_num: seq_add(first, segments_before(messages, mss, k) + i),
                ..#[trigger] crate::fragment::fragment(
                    messages[k],
                    mss,
                    crate::fragment::fragment_count(messages[k].len(), mss),
                    false,
                    i,
                )
            },
            source,
        )
}

/// A queue of segments that are what the peer has sent, numbered without a gap from
/// the first segment of message `k` on, and as long as its first segment
/// announces, begins with message `k`, whole.
pub proof fn lemma_queue_holds_message(
    queue: Seq<SegmentView>,
    source: spec_fn(u32) -> SegmentView,
    first: u32,
    messages: Seq<Seq<u8>>,
    mss: nat,
    k: int,
)
    requires
        forall|i: int| 0 <= i < queue.len() ==> genuine(#[trigger] queue[i], source),
        forall|i: int|
            0 <= i < queue.len() ==> (#[trigger] queue[i]).sequence_num == seq_add(
                first,
                segments_before(messages, mss, k) + i,
            ),
        carries(source, first, messages, mss),
        mss >= 1,
        0 <= k < messages.len(),
        messages[k].len() >= 1,
        crate::fragment::fragment_count(messages[k].len(), mss) <= crate::fragment::MAX_FRAGMENTS,
        crate::message::message_ready(queue),
    ensures
        message_run(queue) == crate::fragment::fragment_count(messages[k].len(), mss),
        next_message(queue) == messages[k],
{
    let count = crate::fragment::fragment_count(messages[k].len(), mss) as int;
    let all = crate::fragment::fragments(messages[k], mss, false);
    let start = segments_before(messages, mss, k) as int;
    crate::fragment::lemma_fragments_reassemble(messages[k], mss, false);
    assert(count >= 1) by {
        crate::message::lemma_message_run(all);
    }
    assert forall|i: int| 0 <= i < count && i < queue.len() implies (#[trigger] queue[i]).fragment_id
        == all[i].fragment_id && queue[i].data == all[i].data by {
        let sent = crate::fragment::fragment(messages[k], mss, count as nat, false, i);
        assert(genuine(
            SegmentView { sequence_num: seq_add(first, start + i), ..sent },
            source,
        ));
        assert(genuine(queue[i], source));
    }
    assert(queue[0].fragment_id == all[0].fragment_id);
    assert(all[0].fragment_id == (count - 1) as u8);
    assert(queue.len() >= count);
    assert forall|i: int| 0 <= i < count - 1 implies crate::message::more_follow()(
        #[trigger] queue[i],
    ) by {
        assert(all[i].fragment_id == (count - 1 - i) as u8);
    }
    assert(!crate::message::more_follow()(queue[count - 1])) by {
        assert(all[count - 1].fragment_id == 0);
    }
    lemma_prefix_len_unique(queue, crate::message::more_follow(), (count - 1) as nat);
    let taken = queue.take(count);
    assert forall|i: int| 0 <= i < taken.len() implies (#[trigger] taken[i]).data == all[i].data by {
        assert(taken[i] == queue[i]);
    }
    lemma_payload_of_same_data(taken, all);
}

/// A delivery hands out one message of the peer, whole and nothing else: where
/// everything staged and ready is what the peer has sent, the peer has sent
/// `messages` cut into fragments, and the first `k` of them have been delivered, a
/// delivery that succeeds hands out message `k` and leaves the delivery point at the
/// first segment of message `k + 1`. With [`lemma_input_keeps_faithful`],
/// [`lemma_input_appends`] and [`lemma_recv_keeps_faithful`] this holds of every
/// delivery in turn: what has been delivered is a prefix of what the peer has sent,
/// message by message.
pub proof fn lemma_recv_delivers_whole_message(
    s: ConnectionView,
    source: spec_fn(u32) -> SegmentView,
    first: u32,
    messages: Seq<Seq<u8>>,
    mss: nat,
    k: int,
)
    requires
        s.wf(),
        faithful(s, source),
        carries(source, first, messages, mss),
        mss >= 1,
        0 <= k < messages.len(),
        messages[k].len() >= 1,
        crate::fragment::fragment_count(messages[k].len(), mss) <= crate::fragment::MAX_FRAGMENTS,
        s.delivery_point() == seq_add(first, segments_before(messages, mss, k) as int),
        crate::message::message_ready(s.recv_queue),
    ensures
        message_run(s.recv_queue) == crate::fragment::fragment_count(messages[k].len(), mss),
        next_message(s.recv_queue) == messages[k],
        s.received().delivery_point() == seq_add(
            first,
            segments_before(messages, mss, k + 1) as int,
        ),
{
    let start = segments_before(messages, mss, k) as int;
    let count = crate::fragment::fragment_count(messages[k].len(), mss) as int;
    lemma_queue_numbers_consecutive(s);
    assert forall|i: int| 0 <= i < s.recv_queue.len() implies (
    #[trigger] s.recv_queue[i]).sequence_num == seq_add(first, start + i) by {
        crate::serial::lemma_seq_add_twice(first, start, i);
    }
    lemma_queue_holds_message(s.recv_queue, source, first, messages, mss, k);
    lemma_recv_delivers_in_order(s);
    crate::serial::lemma_seq_add_twice(first, start, count);
}

// ------------------------------------------------------------ duplicate segments
/// After a segment has been staged and what follows without a gap has been
/// promoted, the same segment, if it still lies within the window, is found staged,
/// and nothing more can be promoted.
pub proof fn lemma_restaged(
    buf: Seq<SegmentView>,
    queued: nat,
    base: u32,
    recv_wnd: usize,
    seg: SegmentView,
)
    requires
        recv_buffer_ordered(base, buf),
        recv_wnd <= 0x8000_0000,
        in_recv_window(base, recv_wnd, seg.sequence_num),
    ensures
        ({
            let buf1 = staged(buf, base, seg);
            let k = promotable(buf1, base, room(queued, recv_wnd));
            let base1 = seq_add(base, k as int);
            let rest = buf1.skip(k as int);
            &&& k <= buf1.len()
            &&& room(queued + k, recv_wnd) == room(queued, recv_wnd) - k
            &&& in_recv_window(base1, recv_wnd, seg.sequence_num) ==> crate::staging::is_staged(
                rest,
                base1,
                seg.sequence_num,
            )
            &&& promotable(rest, base1, room(queued + k, recv_wnd)) == 0
        }),
{
    let sn = seg.sequence_num;
    let before = numbered_before(base, sn);
    let p = prefix_len(buf, before) as int;
    lemma_prefix_len(buf, before);
    let buf1 = staged(buf, base, seg);
    lemma_staged_ordered(buf, base, seg);
    assert(p < buf1.len() && buf1[p].sequence_num == sn);
    let r = room(queued, recv_wnd);
    let k = promotable(buf1, base, r) as int;
    lemma_promotable_bounded(buf1, base, r);
    crate::staging::lemma_promotion_keeps_order(buf1, base, r);
    crate::staging::lemma_promotable_maximal(buf1, base, r);
    let base1 = seq_add(base, k);
    let rest = buf1.skip(k);
    if in_recv_window(base1, recv_wnd, sn) {
        if p < k {
            crate::staging::lemma_promotable_run(buf1, base, r, p);
            lemma_promoted_is_behind(base, k, p, recv_wnd);
        }
        lemma_found_again(rest, base1, p - k, sn);
    }
}

/// A number that was promoted lies behind the receive window afterwards: of `k`
/// numbers promoted from `base` on, the one `p` after `base` is outside a window of
/// up to 2^31 numbers that begins `k` after `base`.
pub proof fn lemma_promoted_is_behind(base: u32, k: int, p: int, recv_wnd: usize)
    requires
        0 <= p < k <= recv_wnd <= 0x8000_0000,
    ensures
        !in_recv_window(seq_add(base, k), recv_wnd, seq_add(base, p)),
{
    assert(seq_offset(seq_add(base, k), seq_add(base, p)) == 0x1_0000_0000 - (k - p));
}

/// In a receive buffer in order, a number that stands at index `q` is found staged.
pub proof fn lemma_found_again(buf: Seq<SegmentView>, base: u32, q: int, sn: u32)
    requires
        recv_buffer_ordered(base, buf),
        0 <= q < buf.len(),
        buf[q].sequence_num == sn,
    ensures
        prefix_len(buf, numbered_before(base, sn)) == q,
        crate::staging::is_staged(buf, base, sn),
{
    let again = numbered_before(base, sn);
    assert forall|i: int| 0 <= i < q implies again(#[trigger] buf[i]) by {
        assert(seq_offset(base, buf[i].sequence_num) < seq_offset(base, buf[q].sequence_num));
    }
    assert(!again(buf[q]));
    lemma_prefix_len_unique(buf, again, q as nat);
}

/// A data segment that arrives a second time changes nothing about what is staged
/// and what is ready: receive buffer, receive queue and `rcv_next` are as after the
/// first arrival, and the segment is counted as dropped. This holds for receive
/// windows of up to 2^31 segments, half the number space.
pub proof fn lemma_duplicate_push_suppressed(s: ConnectionView, seg: SegmentView)
    requires
        s.wf(),
        s.recv_wnd <= 0x8000_0000,
    ensures
        s.pushed(seg).pushed(seg).recv_buffer == s.pushed(seg).recv_buffer,
        s.pushed(seg).pushed(seg).recv_queue == s.pushed(seg).recv_queue,
        s.pushed(seg).pushed(seg).rcv_next == s.pushed(seg).rcv_next,
        s.pushed(seg).pushed(seg).dropped == s.pushed(seg).one_more_dropped(),
{
    lemma_restaged_state(
        s.recv_buffer,
        s.recv_queue,
        s.rcv_next,
        s.recv_wnd,
        seg,
    );
}

/// [`lemma_restaged`], read on the three values that a data segment changes.
pub proof fn lemma_restaged_state(
    buf: Seq<SegmentView>,
    queue: Seq<SegmentView>,
    base: u32,
    recv_wnd: usize,
    seg: SegmentView,
)
    requires
        recv_buffer_ordered(base, buf),
        recv_wnd <= 0x8000_0000,
    ensures
        in_recv_window(base, recv_wnd, seg.sequence_num) ==> ({
            let buf1 = staged(buf, base, seg);
            let k = promotable(buf1, base, room(queue.len(), recv_wnd));
            let base1 = seq_add(base, k as int);
            let rest = buf1.skip(k as int);
            let queue1 = queue + buf1.take(k as int);
            in_recv_window(base1, recv_wnd, seg.sequence_num) ==> {
                &&& crate::staging::is_staged(rest, base1, seg.sequence_num)
                &&& staged(rest, base1, seg) == rest
                &&& promotable(rest, base1, room(queue1.len(), recv_wnd)) == 0
                &&& rest.skip(0) == rest
                &&& queue1 + rest.take(0) == queue1
                &&& seq_add(base1, 0) == base1
            }
        }),
{
    if in_recv_window(base, recv_wnd, seg.sequence_num) {
        lemma_restaged(buf, queue.len(), base, recv_wnd, seg);
        let buf1 = staged(buf, base, seg);
        let k = promotable(buf1, base, room(queue.len(), recv_wnd));
        let rest = buf1.skip(k as int);
        let queue1 = queue + buf1.take(k as int);
        assert(queue1.len() == queue.len() + k);
        assert(rest.skip(0) =~= rest);
        assert(queue1 + rest.take(0) =~= queue1);
    }
}

// ------------------------------------------------------------- acknowledgements
/// Acknowledging a number twice does to the segments in flight what acknowledging
/// it once does.
pub proof fn lemma_selective_ack_idempotent(buf: Seq<SegmentView>, una: u32, next_sn: u32, sn: u32)
    requires
        send_window_ordered(una, next_sn, buf),
    ensures
        ({
            let once = selectively_acked(buf, una, next_sn, sn);
            let una_once = oldest_unacked(once, next_sn);
            selectively_acked(once, una_once, next_sn, sn) == once
        }),
{
    let once = selectively_acked(buf, una, next_sn, sn);
    let una_once = oldest_unacked(once, next_sn);
    let k = prefix_len(buf, other_than(sn)) as int;
    lemma_prefix_len(buf, other_than(sn));
    if in_send_window(una, next_sn, sn) && k < buf.len() {
        assert(buf[k].sequence_num == sn);
        assert forall|i: int| 0 <= i < once.len() implies other_than(sn)(#[trigger] once[i]) by {
            let j = if i < k { i } else { i + 1 };
            assert(once[i] == buf[j]);
            if j < k {
                assert(seq_offset(una, buf[j].sequence_num) < seq_offset(una, buf[k].sequence_num));
            } else {
                assert(seq_offset(una, buf[k].sequence_num) < seq_offset(una, buf[j].sequence_num));
            }
        }
        lemma_prefix_len_unique(once, other_than(sn), once.len());
    } else {
        assert(once == buf);
        if k < buf.len() {
            assert(buf[k].sequence_num == sn);
            assert(seq_offset(una, buf[k].sequence_num) < seq_offset(una, next_sn));
        }
        if buf.len() > 0 {
            assert(una_once == una);
        }
    }
}

/// An acknowledgement fed twice leaves the send buffer and `una` as it leaves them
/// when fed once.
pub proof fn lemma_ack_idempotent(s: ConnectionView, h: Header)
    requires
        s.wf(),
    ensures
        s.acknowledged(h).acknowledged(h).send_buffer == s.acknowledged(h).send_buffer,
        s.acknowledged(h).acknowledged(h).una == s.acknowledged(h).una,
{
    lemma_selective_ack_idempotent(s.send_buffer, s.una, s.next_sn, h.sequence_num);
}

/// An acknowledgement segment that arrives twice, with its cumulative
/// acknowledgement and its window, leaves in flight what it leaves in flight when it
/// arrives once, and `una` with it; the round-trip estimator takes a second sample.
/// This holds for a cumulative acknowledgement that is not a quarter of the number
/// space away from `una`.
pub proof fn lemma_ack_segment_idempotent(p: Progress, h: Header, payload: Seq<u8>)
    requires
        p.state.wf(),
        h.command == CMD_ACK,
        -0x4000_0000 <= seq_diff(h.unacked_sequence_num, p.state.una) <= 0x4000_0000,
    ensures
        ({
            let once = p.absorbed(h, payload);
            let twice = once.absorbed(h, payload);
            &&& twice.state.send_buffer == once.state.send_buffer
            &&& twice.state.una == once.state.una
            &&& twice.state.remote_wnd == once.state.remote_wnd
            &&& twice.max_ack == once.max_ack
        }),
{
    let s = p.state;
    let ur = h.unacked_sequence_num;
    let covered = crate::inflight::covered_by(ur);
    let buf0 = s.send_buffer;
    let k = prefix_len(buf0, covered) as int;
    lemma_prefix_len(buf0, covered);
    let heard = s.heard(h);
    let buf1 = heard.send_buffer;
    assert(buf1 == buf0.skip(k));
    crate::inflight::lemma_skip_keeps_order(s.una, s.next_sn, buf0, k);
    let once = heard.acknowledged(h);
    let buf2 = once.send_buffer;
    lemma_selective_ack_idempotent(buf1, heard.una, s.next_sn, h.sequence_num);
    if buf2.len() > 0 {
        assert(buf1.len() > 0);
        assert(buf1[0] == buf0[k]);
        assert(!covered(buf0[k]));
        if buf2[0] != buf1[0] {
            let j = prefix_len(buf1, other_than(h.sequence_num)) as int;
            lemma_prefix_len(buf1, other_than(h.sequence_num));
            assert(buf2 == buf1.remove(j));
            assert(j == 0);
            assert(buf2[0] == buf1[1]);
            assert(buf1[1] == buf0[k + 1]);
            assert(seq_offset(s.una, buf0[k].sequence_num) < seq_offset(
                s.una,
                buf0[k + 1].sequence_num,
            ));
            assert(seq_offset(s.una, buf0[k + 1].sequence_num) < seq_offset(s.una, s.next_sn));
        }
        assert(!covered(buf2[0]));
    }
    assert(prefix_len(buf2, covered) == 0);
    assert(buf2.skip(0) =~= buf2);
    assert(once.heard(h).send_buffer == buf2);
    assert(once.heard(h).una == once.una);
}

// ------------------------------------------------------------ fast retransmit
/// One input whose latest acknowledgement lies behind a segment in flight counts
/// once against that segment.
pub proof fn lemma_skip_counted(buf: Seq<SegmentView>, una: u32, next_sn: u32, max_ack: u32, i: int)
    requires
        0 <= i < buf.len(),
        in_send_window(una, next_sn, max_ack),
        seq_offset(una, buf[i].sequence_num) < seq_offset(una, max_ack),
    ensures
        fast_acked(buf, una, next_sn, max_ack)[i] == skipped_once(buf[i]),
        fast_acked(buf, una, next_sn, max_ack)[i].fastack >= buf[i].fastack,
        buf[i].fastack < u32::MAX ==> fast_acked(buf, una, next_sn, max_ack)[i].fastack
            == buf[i].fastack + 1,
{
}

/// The segments in flight after each of `acks`, in turn, has been the latest
/// acknowledgement of an input.
pub open spec fn fast_acked_all(buf: Seq<SegmentView>, una: u32, next_sn: u32, acks: Seq<u32>)
    -> Seq<SegmentView>
    decreases acks.len(),
{
    if acks.len() == 0 {
        buf
    } else {
        fast_acked(fast_acked_all(buf, una, next_sn, acks.drop_last()), una, next_sn, acks.last())
    }
}

/// A segment that stays in flight while `k` inputs acknowledge later segments has
/// been skipped `k` times more than before, as far as the count goes.
pub proof fn lemma_skips_add_up(
    buf: Seq<SegmentView>,
    una: u32,
    next_sn: u32,
    acks: Seq<u32>,
    i: int,
)
    requires
        0 <= i < buf.len(),
        forall|j: int|
            0 <= j < acks.len() ==> in_send_window(una, next_sn, #[trigger] acks[j]) && seq_offset(
                una,
                buf[i].sequence_num,
            ) < seq_offset(una, acks[j]),
    ensures
        fast_acked_all(buf, una, next_sn, acks).len() == buf.len(),
        fast_acked_all(buf, una, next_sn, acks)[i].sequence_num == buf[i].sequence_num,
        fast_acked_all(buf, una, next_sn, acks)[i].xmit == buf[i].xmit,
        fast_acked_all(buf, una, next_sn, acks)[i].resend_time == buf[i].resend_time,
        fast_acked_all(buf, una, next_sn, acks)[i].fastack == (if buf[i].fastack + acks.len()
            <= u32::MAX {
            buf[i].fastack + acks.len()
        } else {
            u32::MAX as int
        }),
    decreases acks.len(),
{
    if acks.len() > 0 {
        let earlier = acks.drop_last();
        assert forall|j: int| 0 <= j < earlier.len() implies in_send_window(
            una,
            next_sn,
            #[trigger] earlier[j],
        ) && seq_offset(una, buf[i].sequence_num) < seq_offset(una, earlier[j]) by {
            assert(earlier[j] == acks[j]);
        }
        lemma_skips_add_up(buf, una, next_sn, earlier, i);
        let mid = fast_acked_all(buf, una, next_sn, earlier);
        assert(in_send_window(una, next_sn, acks[acks.len() - 1]));
        lemma_skip_counted(mid, una, next_sn, acks.last(), i);
    }
}

/// With fast retransmission after `k > 0` skips, a segment that was sent and has
/// then stayed in flight while `k` or more inputs acknowledged later segments goes
/// out with the next flush, whether or not its timeout has run out.
pub proof fn lemma_skipped_segment_goes_out(
    buf: Seq<SegmentView>,
    una: u32,
    next_sn: u32,
    acks: Seq<u32>,
    i: int,
    pace: Pace,
)
    requires
        0 <= i < buf.len(),
        buf[i].xmit > 0,
        0 < pace.fast_resend <= acks.len(),
        forall|j: int|
            0 <= j < acks.len() ==> in_send_window(una, next_sn, #[trigger] acks[j]) && seq_offset(
                una,
                buf[i].sequence_num,
            ) < seq_offset(una, acks[j]),
    ensures
        decision(fast_acked_all(buf, una, next_sn, acks)[i], pace) != Decision::Hold,
        exists|j: int|
            0 <= j < data_chunks(fast_acked_all(buf, una, next_sn, acks), pace).len()
                && #[trigger] data_chunks(fast_acked_all(buf, una, next_sn, acks), pace)[j]
                == transmitted(fast_acked_all(buf, una, next_sn, acks)[i], pace).wire(),
{
    lemma_skips_add_up(buf, una, next_sn, acks, i);
    lemma_decided_is_sent(fast_acked_all(buf, una, next_sn, acks), pace, i);
}

/// With fast retransmission after `k > 0` skips, a segment that has been sent and
/// skipped `k` times goes out with the next flush, before its timeout if that has
/// not run out; it then starts counting skips again.
pub proof fn lemma_fast_retransmit(seg: SegmentView, pace: Pace)
    requires
        pace.fast_resend > 0,
        0 < seg.xmit < u32::MAX,
        seg.fastack >= pace.fast_resend,
    ensures
        decision(seg, pace) != Decision::Hold,
        seq_diff(pace.now, seg.resend_time) < 0 ==> {
            &&& decision(seg, pace) == Decision::Fast
            &&& transmitted(seg, pace).fastack == 0
            &&& transmitted(seg, pace).xmit == seg.xmit + 1
            &&& transmitted(seg, pace).sequence_num == seg.sequence_num
        },
{
}

/// A segment in flight that a flush decides to send is among the segments that the
/// flush encodes.
pub proof fn lemma_decided_is_sent(buf: Seq<SegmentView>, pace: Pace, i: int)
    requires
        0 <= i < buf.len(),
        decision(buf[i], pace) != Decision::Hold,
    ensures
        exists|j: int|
            0 <= j < data_chunks(buf, pace).len() && #[trigger] data_chunks(buf, pace)[j]
                == transmitted(buf[i], pace).wire(),
    decreases buf.len(),
{
    let rest = buf.drop_last();
    let all = data_chunks(buf, pace);
    if i == buf.len() - 1 {
        let j = all.len() - 1;
        assert(all[j] == transmitted(buf[i], pace).wire());
    } else {
        lemma_decided_is_sent(rest, pace, i);
        let j = choose|j: int|
            0 <= j < data_chunks(rest, pace).len() && #[trigger] data_chunks(rest, pace)[j]
                == transmitted(rest[i], pace).wire();
        assert(rest[i] == buf[i]);
        assert(all[j] == data_chunks(rest, pace)[j]);
    }
}

/// With fast retransmission after `k > 0` skips, a flush sends a segment in flight
/// that was sent before and has been skipped `k` times, although its timeout has not
/// run out: the segment is among what the flush encodes, stamped with the time of the
/// flush, transmitted once more, due again after its own timeout, which stays, and
/// starts counting skips again. With congestion control, and unless a segment has
/// timed out as well, the congestion window is the new threshold plus `k`
/// afterwards.
pub proof fn lemma_flush_sends_skipped(s: ConnectionView, i: int)
    requires
        s.wf(),
        s.flushing(),
        0 <= i < s.send_buffer.len(),
        s.fast_resend > 0,
        s.send_buffer[i].xmit >= 1,
        s.send_buffer[i].fastack >= s.fast_resend,
        seq_diff(s.current, s.send_buffer[i].resend_time) < 0,
    ensures
        ({
            let held = s.send_buffer[i];
            let sent = s.flushed().send_buffer[i];
            &&& i < s.flushed().send_buffer.len()
            &&& sent.sequence_num == held.sequence_num
            &&& sent.data == held.data
            &&& sent.xmit == held.xmit + 1
            &&& sent.fastack == 0
            &&& sent.rto == held.rto
            &&& sent.resend_time == seq_add(s.current, held.rto as int)
            &&& sent.timestamp == s.current
            &&& sent.unacked_sequence_num == s.rcv_next
            &&& exists|j: int|
                0 <= j < s.flush_chunks().len() && #[trigger] s.flush_chunks()[j] == sent.wire()
            &&& s.use_congestion_control && !crate::transmit::outcome(
                s.in_flight_with_admitted(),
                s.pace(),
            ).lost ==> s.flushed().cwnd == s.flushed().ssthresh + s.fast_resend
        }),
{
    crate::engine::lemma_controlled_keeps_data(s);
    let pace = s.pace();
    let buf = s.in_flight_with_admitted();
    assert(buf[i] == s.send_buffer[i]);
    assert(crate::transmit::decided(buf, pace, buf.len() as int, Decision::Fast)) by {
        lemma_fast_retransmit(buf[i], pace);
        assert(decision(buf[i], pace) == Decision::Fast);
    }
    assert(s.send_buffer[i].xmit < s.dead_link);
    lemma_fast_retransmit(buf[i], pace);
    lemma_decided_is_sent(buf, pace, i);
    let j = choose|j: int|
        0 <= j < data_chunks(buf, pace).len() && #[trigger] data_chunks(buf, pace)[j]
            == transmitted(buf[i], pace).wire();
    let ahead = s.control_chunks().len() as int;
    assert(s.flush_chunks()[ahead + j] == data_chunks(buf, pace)[j]);
    assert(s.flushed().send_buffer == crate::transmit::transmitted_all(buf, pace));
}

/// What a flush does to the window probe.
///
/// With room at the peer the probe is disarmed. Without, a probe that is not armed
/// is armed for 7 s from the flush. An armed probe whose time has come sends a
/// request for the window as the first segment behind the acknowledgements, waits
/// half as long again, at most 120 s, and starts from the flush. No request is sent
/// where none was due before and the probe's time has not come. After the flush no
/// window command is due any more.
pub proof fn lemma_flush_probes(s: ConnectionView)
    requires
        s.wf(),
        s.flushing(),
    ensures
        !s.flushed().ask_send,
        !s.flushed().ask_tell,
        s.flushed().probe_wait <= crate::PROBE_LIMIT,
        s.remote_wnd != 0 ==> s.flushed().probe_wait == 0 && s.flushed().next_probe_time == 0,
        s.remote_wnd == 0 && s.probe_wait == 0 ==> s.flushed().probe_wait == crate::PROBE_INIT
            && s.flushed().next_probe_time == seq_add(s.current, crate::PROBE_INIT as int),
        s.remote_wnd == 0 && s.probe_wait > 0 && seq_diff(s.current, s.next_probe_time) >= 0 ==> {
            &&& s.flushed().probe_wait == crate::probe::next_wait(s.probe_wait)
            &&& s.flushed().next_probe_time == seq_add(
                s.current,
                crate::probe::next_wait(s.probe_wait),
            )
            &&& s.ack_list.len() < s.flush_chunks().len()
            &&& exists|sn: u32, ts: u32|
                s.flush_chunks()[s.ack_list.len() as int] == #[trigger] s.control(
                    crate::CMD_WASK,
                    sn,
                    ts,
                ).wire()
        },
        !s.ask_send && !(s.remote_wnd == 0 && s.probe_wait > 0 && seq_diff(
            s.current,
            s.next_probe_time,
        ) >= 0) ==> s.probe_chunks().len() <= 1 && (s.probe_chunks().len() == 1 ==> exists|
            sn: u32,
            ts: u32,
        |
            s.probe_chunks()[0] == #[trigger] s.control(crate::CMD_WINS, sn, ts).wire()),
{
    let probe = crate::probe::probed(s.probe(), s.remote_wnd, s.current);
    assert(s.flushed().probe_wait == probe.wait);
    assert(s.flushed().next_probe_time == probe.next_time);
    let (sn, ts) = if s.ack_list.len() > 0 { s.ack_list.last() } else { (0u32, 0u32) };
    if s.remote_wnd == 0 && s.probe_wait > 0 && seq_diff(s.current, s.next_probe_time) >= 0 {
        assert(probe.ask_send);
        assert(s.probe_chunks()[0] == s.control(crate::CMD_WASK, sn, ts).wire());
        assert(s.ack_chunks().len() == s.ack_list.len());
        assert(s.flush_chunks()[s.ack_list.len() as int] == s.probe_chunks()[0]);
    }
    if !s.ask_send && !(s.remote_wnd == 0 && s.probe_wait > 0 && seq_diff(
        s.current,
        s.next_probe_time,
    ) >= 0) {
        assert(!probe.ask_send);
        if s.ask_tell {
            assert(s.probe_chunks()[0] == s.control(crate::CMD_WINS, sn, ts).wire());
        }
    }
}

// ------------------------------------------------------- one segment as input
/// An input that is one encoded segment of the connection's session takes the
/// segment in, ends the input, and takes every byte.
pub proof fn lemma_input_of_one_segment(s: ConnectionView, seg: SegmentView)
    requires
        seg.on_wire(),
        seg.session_id == s.session_id,
    ensures
        s.input(seg.wire()) == (
            (Progress { state: s, acked: false, max_ack: 0 }).absorbed(
                seg.header(),
                seg.data,
            ).finished(s.una),
            Ok::<int, ErrorKind>(seg.wire().len() as int),
        ),
        seg.wire().len() == crate::PROTOCOL_OVERHEAD + seg.data.len(),
{
    let bytes = seg.wire();
    let h = seg.header();
    let start = Progress { state: s, acked: false, max_ack: 0 };
    crate::segment::lemma_header_round_trip(h, seg.data);
    crate::segment::lemma_wire_len(seg);
    assert(Header::at(bytes, 0) == h);
    assert(h.length == seg.data.len());
    let end = crate::PROTOCOL_OVERHEAD + h.length;
    assert(bytes.subrange(crate::PROTOCOL_OVERHEAD as int, end) =~= seg.data);
    assert(s.segment_error(bytes, 0).is_none());
    let after = start.absorbed(h, seg.data);
    assert(after.absorbed_from(bytes, end) == (after, Ok::<int, ErrorKind>(end)));
    assert(start.absorbed_from(bytes, 0) == after.absorbed_from(bytes, end));
}

/// A data segment that is fed to `input` a second time, with no delivery in
/// between, is taken whole again and changes nothing about what is staged and what
/// is ready; it is counted as dropped. This holds for receive windows of up to 2^31
/// segments.
pub proof fn lemma_duplicate_input_suppressed(s: ConnectionView, seg: SegmentView)
    requires
        s.wf(),
        s.recv_wnd <= 0x8000_0000,
        seg.on_wire(),
        seg.command == crate::CMD_PUSH,
        seg.session_id == s.session_id,
    ensures
        ({
            let (once, taken) = s.input(seg.wire());
            let (twice, taken_again) = once.input(seg.wire());
            &&& taken == Ok::<int, ErrorKind>(seg.wire().len() as int)
            &&& taken_again == taken
            &&& twice.recv_buffer == once.recv_buffer
            &&& twice.recv_queue == once.recv_queue
            &&& twice.rcv_next == once.rcv_next
            &&& twice.dropped == once.one_more_dropped()
        }),
{
    let h = seg.header();
    assert(h.with_payload(seg.data) == seg);
    lemma_input_of_one_segment(s, seg);
    let once = s.input(seg.wire()).0;
    assert(once.session_id == s.session_id);
    lemma_input_of_one_segment(once, seg);
    lemma_restaged_state(s.recv_buffer, s.recv_queue, s.rcv_next, s.recv_wnd, seg);
    let first = s.heard(h).pushed(seg);
    assert(once.recv_buffer == first.recv_buffer);
    assert(once.recv_queue == first.recv_queue);
    assert(once.rcv_next == first.rcv_next);
    assert(once.recv_wnd == s.recv_wnd);
    assert(once.dropped == first.dropped);
    let second = once.heard(h).pushed(seg);
    let twice = once.input(seg.wire()).0;
    assert(twice.recv_buffer == second.recv_buffer);
    assert(twice.recv_queue == second.recv_queue);
    assert(twice.rcv_next == second.rcv_next);
    assert(twice.dropped == second.dropped);
}

/// An acknowledgement segment that is fed to `input` a second time is taken whole
/// again and takes no further segment out of flight: the numbers in flight, `una`
/// and `next_sn` are as after the first input. The estimator takes a second sample
/// and the segments before the one acknowledged count a second skip. This holds
/// for a cumulative acknowledgement that is not a quarter of the number space away
/// from `una`.
pub proof fn lemma_ack_input_idempotent(s: ConnectionView, seg: SegmentView)
    requires
        s.wf(),
        seg.on_wire(),
        seg.command == CMD_ACK,
        seg.session_id == s.session_id,
        -0x4000_0000 <= seq_diff(seg.unacked_sequence_num, s.una) <= 0x4000_0000,
    ensures
        ({
            let (once, taken) = s.input(seg.wire());
            let (twice, taken_again) = once.input(seg.wire());
            &&& taken == Ok::<int, ErrorKind>(seg.wire().len() as int)
            &&& taken_again == taken
            &&& crate::inflight::numbers(twice.send_buffer) == crate::inflight::numbers(
                once.send_buffer,
            )
            &&& twice.una == once.una
            &&& twice.next_sn == once.next_sn
        }),
{
    let h = seg.header();
    let start = Progress { state: s, acked: false, max_ack: 0 };
    lemma_input_of_one_segment(s, seg);
    let first = start.absorbed(h, seg.data);
    let once = s.input(seg.wire()).0;
    assert(once == first.finished(s.una));
    lemma_input_of_one_segment(once, seg);
    // Feeding the segment again right away, before the input has ended.
    lemma_ack_segment_idempotent(start, h, seg.data);
    let again = first.absorbed(h, seg.data);
    // Ending the input has changed no number in flight.
    crate::inflight::lemma_skips_keep_numbers(
        first.state.send_buffer,
        first.state.una,
        first.state.next_sn,
        first.max_ack,
    );
    assert(crate::inflight::numbers(once.send_buffer) == crate::inflight::numbers(
        first.state.send_buffer,
    ));
    assert(once.una == first.state.una);
    assert(once.next_sn == first.state.next_sn);
    // So the second input takes out of flight what the second feed would have.
    let restart = Progress { state: once, acked: false, max_ack: 0 };
    let second = restart.absorbed(h, seg.data);
    crate::inflight::lemma_acks_go_by_numbers(
        once.send_buffer,
        first.state.send_buffer,
        once.una,
        once.next_sn,
        h.unacked_sequence_num,
        h.sequence_num,
    );
    let heard_once = once.heard(h);
    let heard_first = first.state.heard(h);
    assert(crate::inflight::numbers(heard_once.send_buffer) == crate::inflight::numbers(
        heard_first.send_buffer,
    ));
    assert(heard_once.una == heard_first.una);
    crate::inflight::lemma_acks_go_by_numbers(
        heard_once.send_buffer,
        heard_first.send_buffer,
        heard_once.una,
        once.next_sn,
        h.unacked_sequence_num,
        h.sequence_num,
    );
    assert(crate::inflight::numbers(second.state.send_buffer) == crate::inflight::numbers(
        again.state.send_buffer,
    ));
    assert(second.state.una == again.state.una);
    let twice = once.input(seg.wire()).0;
    assert(twice == second.finished(once.una));
    crate::inflight::lemma_skips_keep_numbers(
        second.state.send_buffer,
        second.state.una,
        second.state.next_sn,
        second.max_ack,
    );
}

} // verus!
