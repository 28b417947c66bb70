//! What a flush does to the segments to send: which leave the send queue for the
//! send buffer, and which of those in flight go out.
use crate::buffer::bytes_of;
use crate::packing::{
    lemma_pack_all_push, pack_all, pack_header, pack_segment, payloads, pending_limit, Packed,
};
use crate::segment::{views, Header, Segment, SegmentView};
use crate::serial::{
    lemma_wrapping_add_is_seq_add, offset_from, seq_add, seq_diff, seq_offset, time_diff,
};
use crate::state::{in_flight_bounded, send_window_ordered, sendable, MAX_IN_FLIGHT};
use crate::{CMD_PUSH, RTO_MAX};
use bytes::BytesMut;
use std::collections::VecDeque;
use vstd::prelude::*;

verus! {

/// What a flush stamps on the segments it sends.
#[derive(Clone, Copy, Debug, PartialEq, Eq, Structural)]
pub struct Pace {
    pub session_id: u32,
    /// The time of the flush.
    pub now: u32,
    /// The connection's retransmission timeout.
    pub rto: u32,
    pub nodelay: u32,
    pub fast_resend: u32,
    /// The window to advertise: the free slots of the receive queue, modulo 2^16.
    pub window_size: u16,
    pub rcv_next: u32,
    pub dead_link: u32,
}

/// Why a segment in flight goes out with a flush, or that it does not.
#[derive(Clone, Copy, Debug, PartialEq, Eq, Structural)]
pub enum Decision {
    /// It was never transmitted.
    First,
    /// Its retransmission time has come.
    Timeout,
    /// Enough later segments were acknowledged before it.
    Fast,
    /// It stays.
    Hold,
}

/// What the flush has seen over all segments in flight.
#[derive(Clone, Copy, Debug, PartialEq, Eq, Structural)]
pub struct Outcome {
    /// Some segment timed out.
    pub lost: bool,
    /// Some segment was retransmitted early.
    pub change: bool,
    /// Some segment has now been transmitted `dead_link` times.
    pub dead: bool,
}

/// Whether a segment in flight goes out, and why. The first reason that applies
/// counts: never transmitted; timed out; skipped `fast_resend` times by
/// acknowledgements of later segments, where `fast_resend` is not 0.
pub open spec fn decision(seg: SegmentView, pace: Pace) -> Decision {
    if seg.xmit == 0 {
        Decision::First
    } else if seq_diff(pace.now, seg.resend_time) >= 0 {
        Decision::Timeout
    } else if pace.fast_resend > 0 && seg.fastack >= pace.fast_resend {
        Decision::Fast
    } else {
        Decision::Hold
    }
}

/// A segment that goes out, refreshed: time, advertised window and cumulative
/// acknowledgement are those of the flush.
pub open spec fn refreshed(seg: SegmentView, pace: Pace) -> SegmentView {
    SegmentView {
        timestamp: pace.now,
        window_size: pace.window_size,
        unacked_sequence_num: pace.rcv_next,
        ..seg
    }
}

/// A segment in flight after the flush.
///
/// - First transmission: its timeout is the connection's, and it is due again after
///   that timeout, plus an eighth of it unless in no-delay mode.
/// - Timeout: its timeout grows by the connection's, or by half of it in no-delay
///   mode, and it is due again after its new timeout.
/// - Fast retransmission: its count of skips starts again, and it is due again after
///   its timeout.
/// - Otherwise it stays as it is.
pub open spec fn transmitted(seg: SegmentView, pace: Pace) -> SegmentView {
    match decision(seg, pace) {
        Decision::First => {
            let floor = if pace.nodelay == 0 { pace.rto as int / 8 } else { 0 };
            refreshed(
                SegmentView {
                    xmit: 1,
                    rto: pace.rto,
                    resend_time: seq_add(pace.now, pace.rto + floor),
                    ..seg
                },
                pace,
            )
        },
        Decision::Timeout => {
            let step = if pace.nodelay == 0 { pace.rto as int } else { pace.rto as int / 2 };
            refreshed(
                SegmentView {
                    xmit: (seg.xmit + 1) as u32,
                    rto: (seg.rto + step) as u32,
                    resend_time: seq_add(pace.now, seg.rto + step),
                    ..seg
                },
                pace,
            )
        },
        Decision::Fast => refreshed(
            SegmentView {
                xmit: (seg.xmit + 1) as u32,
                fastack: 0,
                resend_time: seq_add(pace.now, seg.rto as int),
                ..seg
            },
            pace,
        ),
        Decision::Hold => seg,
    }
}

/// The send buffer after the flush.
pub open spec fn transmitted_all(buf: Seq<SegmentView>, pace: Pace) -> Seq<SegmentView> {
    Seq::new(buf.len(), |i: int| transmitted(buf[i], pace))
}

/// The encoded segments that the flush sends from the send buffer, in order.
pub open spec fn data_chunks(buf: Seq<SegmentView>, pace: Pace) -> Seq<Seq<u8>>
    decreases buf.len(),
{
    if buf.len() == 0 {
        Seq::empty()
    } else if decision(buf.last(), pace) == Decision::Hold {
        data_chunks(buf.drop_last(), pace)
    } else {
        data_chunks(buf.drop_last(), pace).push(transmitted(buf.last(), pace).wire())
    }
}

/// Whether the flush meets `d` among the first `n` segments in flight.
pub open spec fn decided(buf: Seq<SegmentView>, pace: Pace, n: int, d: Decision) -> bool {
    exists|j: int| 0 <= j < n && j < buf.len() && #[trigger] decision(buf[j], pace) == d
}

/// Whether one of the first `n` segments in flight goes out and has then been
/// transmitted `dead_link` times.
pub open spec fn worn_out(buf: Seq<SegmentView>, pace: Pace, n: int) -> bool {
    exists|j: int|
        0 <= j < n && j < buf.len() && #[trigger] decision(buf[j], pace) != Decision::Hold
            && transmitted(buf[j], pace).xmit >= pace.dead_link
}

/// What the flush has seen over the whole send buffer.
pub open spec fn outcome(buf: Seq<SegmentView>, pace: Pace) -> Outcome {
    Outcome {
        lost: decided(buf, pace, buf.len() as int, Decision::Timeout),
        change: decided(buf, pace, buf.len() as int, Decision::Fast),
        dead: worn_out(buf, pace, buf.len() as int),
    }
}

/// A segment as it enters the send buffer: numbered `sn`, stamped with the time of
/// the flush, due at once and never transmitted. Fragment number and payload stay.
pub open spec fn stamped(seg: SegmentView, pace: Pace, sn: u32) -> SegmentView {
    SegmentView {
        session_id: pace.session_id,
        command: CMD_PUSH,
        fragment_id: seg.fragment_id,
        window_size: pace.window_size,
        timestamp: pace.now,
        sequence_num: sn,
        unacked_sequence_num: pace.rcv_next,
        resend_time: pace.now,
        rto: pace.rto,
        fastack: 0,
        xmit: 0,
        data: seg.data,
    }
}

/// How many segments a flush admits to the send buffer: as many as the window leaves
/// room for beside those in flight, and no more than are queued.
pub open spec fn admitted_count(queued: nat, in_flight: int, window: int) -> nat {
    if window <= in_flight {
        0
    } else if queued < window - in_flight {
        queued
    } else {
        (window - in_flight) as nat
    }
}

/// The first `k` segments of the send queue as they enter the send buffer, numbered
/// from `next_sn` on.
pub open spec fn admitted(queue: Seq<SegmentView>, pace: Pace, next_sn: u32, k: nat) -> Seq<
    SegmentView,
> {
    Seq::new(k, |i: int| stamped(queue[i], pace, seq_add(next_sn, i)))
}

/// A flush keeps the number and the payload of a segment in flight, and keeps it
/// within the bounds of a segment in flight.
pub proof fn lemma_transmitted_bounded(seg: SegmentView, pace: Pace)
    requires
        seg.xmit < pace.dead_link,
        pace.dead_link <= 0xFFFF,
        pace.rto <= RTO_MAX,
        in_flight_bounded(seg, pace.dead_link),
    ensures
        transmitted(seg, pace).sequence_num == seg.sequence_num,
        transmitted(seg, pace).data == seg.data,
        transmitted(seg, pace).fragment_id == seg.fragment_id,
        in_flight_bounded(transmitted(seg, pace), pace.dead_link),
        decision(seg, pace) == Decision::Hold ==> transmitted(seg, pace) == seg,
{
    assert(RTO_MAX * (seg.xmit + 2) == RTO_MAX * (seg.xmit + 1) + RTO_MAX) by (nonlinear_arith);
    assert(RTO_MAX * (seg.xmit + 1) <= RTO_MAX * 0x1_0000) by (nonlinear_arith)
        requires
            seg.xmit + 1 <= 0x1_0000,
    ;
}

/// The acknowledgements for `acks`, encoded: each is `template` with the number and
/// the timestamp of the segment acknowledged.
pub open spec fn ack_wires(acks: Seq<(u32, u32)>, template: Header) -> Seq<Seq<u8>> {
    Seq::new(
        acks.len(),
        |i: int| (Header { sequence_num: acks[i].0, timestamp: acks[i].1, ..template }).wire(),
    )
}

/// Packs one acknowledgement for each entry of `acks`.
pub fn pack_acks(
    acks: &Vec<(u32, u32)>,
    template: &Header,
    buffer: &mut BytesMut,
    out: &mut Vec<Vec<u8>>,
    mtu: usize,
)
    requires
        bytes_of(*old(buffer)).len() <= pending_limit(),
        mtu <= pending_limit(),
    ensures
        (Packed { done: payloads(final(out)@), pending: bytes_of(*final(buffer)) }) == pack_all(
            Packed { done: payloads(old(out)@), pending: bytes_of(*old(buffer)) },
            ack_wires(acks@, *template),
            mtu as nat,
        ),
        bytes_of(*final(buffer)).len() <= pending_limit(),
{
    let ghost packed0 = Packed { done: payloads(out@), pending: bytes_of(*buffer) };
    let ghost all = ack_wires(acks@, *template);
    let n: usize = acks.len();
    let mut i: usize = 0;
    proof {
        assert(all.take(0) =~= Seq::<Seq<u8>>::empty());
    }
    while i < n
        invariant
            n == acks@.len(),
            0 <= i <= n,
            all == ack_wires(acks@, *template),
            mtu <= pending_limit(),
            bytes_of(*buffer).len() <= pending_limit(),
            (Packed { done: payloads(out@), pending: bytes_of(*buffer) }) == pack_all(
                packed0,
                all.take(i as int),
                mtu as nat,
            ),
        decreases n - i,
    {
        let (sn, ts) = acks[i];
        let header = Header {
            session_id: template.session_id,
            command: template.command,
            fragment_id: template.fragment_id,
            window_size: template.window_size,
            timestamp: ts,
            sequence_num: sn,
            unacked_sequence_num: template.unacked_sequence_num,
            length: template.length,
        };
        proof {
            assert(header.wire() == all[i as int]);
            assert(all.take(i as int + 1) =~= all.take(i as int).push(all[i as int]));
            lemma_pack_all_push(packed0, all.take(i as int), all[i as int], mtu as nat);
        }
        pack_header(buffer, out, &header, mtu);
        i = i + 1;
    }
    proof {
        assert(all.take(n as int) =~= all);
    }
}

/// Decides whether `seg` goes out with the flush, and updates it accordingly.
pub fn transmit(seg: &mut Segment, pace: &Pace) -> (d: Decision)
    requires
        old(seg).xmit < pace.dead_link,
        pace.dead_link <= 0xFFFF,
        pace.rto <= RTO_MAX,
        in_flight_bounded(old(seg)@, pace.dead_link),
    ensures
        d == decision(old(seg)@, *pace),
        final(seg)@ == transmitted(old(seg)@, *pace),
        final(seg).data == old(seg).data,
        in_flight_bounded(final(seg)@, pace.dead_link),
{
    let now: u32 = pace.now;
    let d: Decision;
    proof {
        assert(RTO_MAX * (seg.xmit + 1) <= RTO_MAX * 0x1_0000) by (nonlinear_arith)
            requires
                seg.xmit + 1 <= 0x1_0000,
        ;
    }
    if seg.xmit == 0 {
        d = Decision::First;
        let floor: u32 = if pace.nodelay == 0 { pace.rto / 8 } else { 0 };
        seg.xmit = 1;
        seg.rto = pace.rto;
        seg.resend_time = now.wrapping_add(pace.rto + floor);
        proof {
            lemma_wrapping_add_is_seq_add(now, (pace.rto + floor) as u32);
        }
    } else if time_diff(now, seg.resend_time) >= 0 {
        d = Decision::Timeout;
        let step: u32 = if pace.nodelay == 0 { pace.rto } else { pace.rto / 2 };
        proof {
            assert(RTO_MAX * (seg.xmit + 2) == RTO_MAX * (seg.xmit + 1) + RTO_MAX)
                by (nonlinear_arith);
        }
        seg.xmit = seg.xmit + 1;
        seg.rto = seg.rto + step;
        seg.resend_time = now.wrapping_add(seg.rto);
        proof {
            lemma_wrapping_add_is_seq_add(now, seg.rto);
        }
    } else if pace.fast_resend > 0 && seg.fastack >= pace.fast_resend {
        d = Decision::Fast;
        proof {
            assert(RTO_MAX * (seg.xmit + 2) == RTO_MAX * (seg.xmit + 1) + RTO_MAX)
                by (nonlinear_arith);
        }
        seg.xmit = seg.xmit + 1;
        seg.fastack = 0;
        seg.resend_time = now.wrapping_add(seg.rto);
        proof {
            lemma_wrapping_add_is_seq_add(now, seg.rto);
        }
    } else {
        d = Decision::Hold;
    }
    if d != Decision::Hold {
        seg.timestamp = now;
        seg.window_size = pace.window_size;
        seg.unacked_sequence_num = pace.rcv_next;
    }
    d
}

/// Goes over the send buffer once: updates each segment as the flush decides and
/// packs those that go out.
pub fn transmit_all(
    buf: &mut VecDeque<Segment>,
    pace: &Pace,
    buffer: &mut BytesMut,
    out: &mut Vec<Vec<u8>>,
    mtu: usize,
) -> (seen: Outcome)
    requires
        pace.dead_link <= 0xFFFF,
        pace.rto <= RTO_MAX,
        mtu <= pending_limit(),
        bytes_of(*old(buffer)).len() <= pending_limit(),
        forall|i: int|
            0 <= i < old(buf)@.len() ==> {
                &&& sendable(#[trigger] views(old(buf)@)[i])
                &&& in_flight_bounded(views(old(buf)@)[i], pace.dead_link)
                &&& views(old(buf)@)[i].xmit < pace.dead_link
            },
    ensures
        views(final(buf)@) == transmitted_all(views(old(buf)@), *pace),
        (Packed { done: payloads(final(out)@), pending: bytes_of(*final(buffer)) }) == pack_all(
            Packed { done: payloads(old(out)@), pending: bytes_of(*old(buffer)) },
            data_chunks(views(old(buf)@), *pace),
            mtu as nat,
        ),
        bytes_of(*final(buffer)).len() <= pending_limit(),
        seen == outcome(views(old(buf)@), *pace),
{
    let ghost start = views(buf@);
    let ghost packed0 = Packed { done: payloads(out@), pending: bytes_of(*buffer) };
    let n: usize = buf.len();
    let mut i: usize = 0;
    let mut seen = Outcome { lost: false, change: false, dead: false };
    proof {
        assert(views(buf@) =~= start.skip(0) + transmitted_all(start, *pace).take(0));
        assert(start.take(0) =~= Seq::<SegmentView>::empty());
    }
    while i < n
        invariant
            n == start.len(),
            buf@.len() == n,
            0 <= i <= n,
            pace.dead_link <= 0xFFFF,
            pace.rto <= RTO_MAX,
            mtu <= pending_limit(),
            bytes_of(*buffer).len() <= pending_limit(),
            forall|j: int|
                0 <= j < n ==> {
                    &&& sendable(#[trigger] start[j])
                    &&& in_flight_bounded(start[j], pace.dead_link)
                    &&& start[j].xmit < pace.dead_link
                },
            views(buf@) == start.skip(i as int) + transmitted_all(start, *pace).take(i as int),
            (Packed { done: payloads(out@), pending: bytes_of(*buffer) }) == pack_all(
                packed0,
                data_chunks(start.take(i as int), *pace),
                mtu as nat,
            ),
            seen.lost == decided(start, *pace, i as int, Decision::Timeout),
            seen.change == decided(start, *pace, i as int, Decision::Fast),
            seen.dead == worn_out(start, *pace, i as int),
        decreases n - i,
    {
        let ghost before = views(buf@);
        let ghost head = buf@[0]@;
        let mut seg = buf.pop_front().unwrap();
        let ghost mid = views(buf@);
        proof {
            assert(before[0] == head);
            assert(head == start[i as int]);
            assert(mid =~= before.drop_first());
            assert(start.take(i as int + 1).drop_last() =~= start.take(i as int));
            assert(start.take(i as int + 1).last() == start[i as int]);
        }
        let d = transmit(&mut seg, pace);
        if d != Decision::Hold {
            proof {
                lemma_pack_all_push(
                    packed0,
                    data_chunks(start.take(i as int), *pace),
                    seg@.wire(),
                    mtu as nat,
                );
            }
            pack_segment(buffer, out, &seg, mtu);
        }
        let worn: bool = d != Decision::Hold && seg.xmit >= pace.dead_link;
        proof {
            let j = i as int;
            if d == Decision::Timeout {
                assert(decision(start[j], *pace) == Decision::Timeout);
            }
            if d == Decision::Fast {
                assert(decision(start[j], *pace) == Decision::Fast);
            }
            if worn {
                assert(decision(start[j], *pace) != Decision::Hold && transmitted(
                    start[j],
                    *pace,
                ).xmit >= pace.dead_link);
            }
            assert(decided(start, *pace, j + 1, Decision::Timeout) <==> (seen.lost || d
                == Decision::Timeout));
            assert(decided(start, *pace, j + 1, Decision::Fast) <==> (seen.change || d
                == Decision::Fast));
            assert(worn_out(start, *pace, j + 1) <==> (seen.dead || worn));
        }
        seen = Outcome {
            lost: seen.lost || d == Decision::Timeout,
            change: seen.change || d == Decision::Fast,
            dead: seen.dead || worn,
        };
        let ghost sent = seg@;
        buf.push_back(seg);
        proof {
            assert(views(buf@) =~= mid.push(sent));
            assert(views(buf@) =~= start.skip(i as int + 1) + transmitted_all(start, *pace).take(
                i as int + 1,
            ));
        }
        i = i + 1;
    }
    proof {
        let done = transmitted_all(start, *pace);
        assert(start.skip(n as int) + done.take(n as int) =~= done);
        assert(start.take(n as int) =~= start);
    }
    seen
}

/// Moves segments from the send queue to the send buffer while the window has room
/// beside those in flight, numbering them from `next_sn` on; returns the next number
/// to assign afterwards.
pub fn release(
    queue: &mut VecDeque<Segment>,
    buf: &mut VecDeque<Segment>,
    una: u32,
    next_sn: u32,
    window: u32,
    pace: &Pace,
) -> (next: u32)
    requires
        window <= MAX_IN_FLIGHT,
        send_window_ordered(una, next_sn, views(old(buf)@)),
    ensures
        ({
            let k = admitted_count(
                old(queue)@.len(),
                seq_offset(una, next_sn),
                window as int,
            );
            &&& views(final(buf)@) == views(old(buf)@) + admitted(
                views(old(queue)@),
                *pace,
                next_sn,
                k,
            )
            &&& views(final(queue)@) == views(old(queue)@).skip(k as int)
            &&& final(queue)@ == old(queue)@.skip(k as int)
            &&& next == seq_add(next_sn, k as int)
            &&& k <= old(queue)@.len()
        }),
        send_window_ordered(una, next, views(final(buf)@)),
{
    let ghost queue0 = views(queue@);
    let ghost queue_segs = queue@;
    let ghost buf0 = views(buf@);
    let ghost flight0 = seq_offset(una, next_sn);
    let ghost k = admitted_count(queue@.len(), flight0, window as int);
    let mut next: u32 = next_sn;
    let mut moved: usize = 0;
    proof {
        assert(views(buf@) =~= buf0 + admitted(queue0, *pace, next_sn, 0));
        assert(queue@ =~= queue_segs.skip(0));
    }
    loop
        invariant
            window <= MAX_IN_FLIGHT,
            queue0 == views(queue_segs),
            k == admitted_count(queue0.len(), flight0, window as int),
            flight0 == seq_offset(una, next_sn),
            0 <= moved <= k,
            queue@ == queue_segs.skip(moved as int),
            views(buf@) == buf0 + admitted(queue0, *pace, next_sn, moved as nat),
            next == seq_add(next_sn, moved as int),
            seq_offset(una, next) == flight0 + moved,
            send_window_ordered(una, next, views(buf@)),
        ensures
            moved == k,
            queue@ == queue_segs.skip(moved as int),
            views(buf@) == buf0 + admitted(queue0, *pace, next_sn, moved as nat),
            next == seq_add(next_sn, moved as int),
            send_window_ordered(una, next, views(buf@)),
        decreases queue@.len(),
    {
        if offset_from(una, next) >= window {
            break;
        }
        if queue.len() == 0 {
            break;
        }
        let ghost before = views(buf@);
        let mut seg = queue.pop_front().unwrap();
        proof {
            assert(seg@ == queue0[moved as int]);
            assert(queue@ =~= queue_segs.skip(moved as int + 1));
        }
        seg.session_id = pace.session_id;
        seg.command = CMD_PUSH;
        seg.window_size = pace.window_size;
        seg.timestamp = pace.now;
        seg.sequence_num = next;
        seg.unacked_sequence_num = pace.rcv_next;
        seg.resend_time = pace.now;
        seg.rto = pace.rto;
        seg.fastack = 0;
        seg.xmit = 0;
        let ghost added = seg@;
        buf.push_back(seg);
        let after: u32 = next.wrapping_add(1);
        proof {
            assert(added == stamped(queue0[moved as int], *pace, next));
            assert(views(buf@) =~= before.push(added));
            assert(views(buf@) =~= buf0 + admitted(queue0, *pace, next_sn, (moved + 1) as nat));
            assert(after == seq_add(next_sn, moved as int + 1));
            let grown = views(buf@);
            assert forall|i: int| 0 <= i < grown.len() implies seq_offset(
                una,
                (#[trigger] grown[i]).sequence_num,
            ) < seq_offset(una, after) by {
                if i < before.len() {
                    assert(grown[i] == before[i]);
                }
            }
            assert forall|i: int, j: int| 0 <= i < j < grown.len() implies seq_offset(
                una,
                (#[trigger] grown[i]).sequence_num,
            ) < seq_offset(una, (#[trigger] grown[j]).sequence_num) by {
                assert(grown[i] == before[i]);
                if j < before.len() {
                    assert(grown[j] == before[j]);
                }
            }
            if before.len() > 0 {
                assert(grown[0] == before[0]);
            }
        }
        next = after;
        moved = moved + 1;
    }
    proof {
        assert(views(queue_segs.skip(moved as int)) =~= queue0.skip(moved as int));
    }
    next
}

} // verus!
