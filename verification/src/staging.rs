//! The receive buffer: where segments that arrived out of order wait, sorted and
//! without duplicates, until those before them have arrived.
use crate::runs::{lemma_prefix_len_unique, prefix_len};
use crate::segment::{views, Segment, SegmentView};
use crate::serial::{offset_from, seq_add, seq_offset};
use crate::state::{recv_buffer_ordered, recv_queue_contiguous};
use std::collections::VecDeque;
use vstd::prelude::*;

verus! {

/// Whether a segment is numbered before `sn`, counted from `base`.
pub open spec fn numbered_before(base: u32, sn: u32) -> spec_fn(SegmentView) -> bool {
    |s: SegmentView| seq_offset(base, s.sequence_num) < seq_offset(base, sn)
}

/// Whether `sn` lies in the receive window `[rcv_next, rcv_next + recv_wnd)`.
pub open spec fn in_recv_window(rcv_next: u32, recv_wnd: usize, sn: u32) -> bool {
    seq_offset(rcv_next, sn) < recv_wnd
}

/// Whether a segment numbered `sn` is staged already: the first segment that is not
/// numbered before `sn` carries `sn`.
pub open spec fn is_staged(buf: Seq<SegmentView>, rcv_next: u32, sn: u32) -> bool {
    let k = prefix_len(buf, numbered_before(rcv_next, sn));
    k < buf.len() && buf[k as int].sequence_num == sn
}

/// The receive buffer after `seg` has arrived: `seg` stands behind the segments
/// numbered before it, unless its number is staged already.
pub open spec fn staged(buf: Seq<SegmentView>, rcv_next: u32, seg: SegmentView) -> Seq<
    SegmentView,
> {
    let k = prefix_len(buf, numbered_before(rcv_next, seg.sequence_num));
    if is_staged(buf, rcv_next, seg.sequence_num) {
        buf
    } else {
        buf.insert(k as int, seg)
    }
}

/// How many leading segments of the receive buffer can move to the receive queue:
/// as many as carry the numbers `next`, `next + 1`, ... without a gap, and no more
/// than the queue has `room` for.
pub open spec fn promotable(buf: Seq<SegmentView>, next: u32, room: nat) -> nat
    decreases buf.len(),
{
    if buf.len() == 0 || room == 0 || buf[0].sequence_num != next {
        0
    } else {
        1 + promotable(buf.drop_first(), seq_add(next, 1), (room - 1) as nat)
    }
}

/// The room left in a receive queue of `len` segments under a window of `recv_wnd`.
pub open spec fn room(len: nat, recv_wnd: usize) -> nat {
    if len < recv_wnd {
        (recv_wnd - len) as nat
    } else {
        0
    }
}

/// No more segments are promoted than are staged or than there is room for.
pub proof fn lemma_promotable_bounded(buf: Seq<SegmentView>, next: u32, room: nat)
    ensures
        promotable(buf, next, room) <= buf.len(),
        promotable(buf, next, room) <= room,
    decreases buf.len(),
{
    if buf.len() == 0 || room == 0 || buf[0].sequence_num != next {
    } else {
        lemma_promotable_bounded(buf.drop_first(), seq_add(next, 1), (room - 1) as nat);
    }
}

/// The segments that are promoted carry the numbers `next`, `next + 1`, ... in order.
pub proof fn lemma_promotable_run(buf: Seq<SegmentView>, next: u32, room: nat, i: int)
    requires
        0 <= i < promotable(buf, next, room),
    ensures
        i < buf.len(),
        buf[i].sequence_num == seq_add(next, i),
    decreases buf.len(),
{
    if i > 0 {
        lemma_promotable_run(buf.drop_first(), seq_add(next, 1), (room - 1) as nat, i - 1);
        assert(buf.drop_first()[i - 1] == buf[i]);
    }
}

/// Promotion goes as far as it can: right after it nothing more can be promoted.
pub proof fn lemma_promotable_maximal(buf: Seq<SegmentView>, next: u32, room: nat)
    ensures
        ({
            let k = promotable(buf, next, room);
            promotable(buf.skip(k as int), seq_add(next, k as int), (room - k) as nat) == 0
        }),
    decreases buf.len(),
{
    let k = promotable(buf, next, room);
    lemma_promotable_bounded(buf, next, room);
    if buf.len() == 0 || room == 0 || buf[0].sequence_num != next {
        assert(buf.skip(0) =~= buf);
    } else {
        let rest = buf.drop_first();
        lemma_promotable_maximal(rest, seq_add(next, 1), (room - 1) as nat);
        lemma_promotable_bounded(rest, seq_add(next, 1), (room - 1) as nat);
        assert(rest.skip(k - 1) =~= buf.skip(k as int));
        assert(seq_add(seq_add(next, 1), k - 1) == seq_add(next, k as int));
    }
}

/// In a receive buffer in order, what stays behind a promotion is numbered at least
/// as many numbers ahead of the old `rcv_next` as segments were promoted, and stays in
/// order counted from the new one.
pub proof fn lemma_promotion_keeps_order(buf: Seq<SegmentView>, next: u32, room: nat)
    requires
        recv_buffer_ordered(next, buf),
    ensures
        ({
            let k = promotable(buf, next, room) as int;
            &&& k <= buf.len()
            &&& k <= 0xFFFF_FFFF + 1
            &&& recv_buffer_ordered(seq_add(next, k), buf.skip(k))
            &&& forall|i: int|
                k <= i < buf.len() ==> seq_offset(next, (#[trigger] buf[i]).sequence_num) >= k
                    && seq_offset(seq_add(next, k), buf[i].sequence_num) == seq_offset(
                    next,
                    buf[i].sequence_num,
                ) - k
        }),
{
    let k = promotable(buf, next, room) as int;
    lemma_promotable_bounded(buf, next, room);
    assert forall|i: int| 0 <= i < k implies seq_offset(next, (#[trigger] buf[i]).sequence_num)
        >= i by {
        lemma_offsets_climb(buf, next, i);
    }
    if k > 0 {
        lemma_offsets_climb(buf, next, k - 1);
        lemma_promotable_run(buf, next, room, k - 1);
    }
    assert forall|i: int| k <= i < buf.len() implies seq_offset(
        next,
        (#[trigger] buf[i]).sequence_num,
    ) >= k && seq_offset(seq_add(next, k), buf[i].sequence_num) == seq_offset(
        next,
        buf[i].sequence_num,
    ) - k by {
        lemma_offsets_climb(buf, next, i);
    }
    let rest = buf.skip(k);
    assert forall|i: int, j: int| 0 <= i < j < rest.len() implies seq_offset(
        seq_add(next, k),
        (#[trigger] rest[i]).sequence_num,
    ) < seq_offset(seq_add(next, k), (#[trigger] rest[j]).sequence_num) by {
        assert(rest[i] == buf[i + k]);
        assert(rest[j] == buf[j + k]);
    }
}

/// In a receive buffer in order the segment at index `i` lies at least `i` numbers
/// ahead of `rcv_next`.
pub proof fn lemma_offsets_climb(buf: Seq<SegmentView>, next: u32, i: int)
    requires
        recv_buffer_ordered(next, buf),
        0 <= i < buf.len(),
    ensures
        seq_offset(next, buf[i].sequence_num) >= i,
    decreases i,
{
    if i > 0 {
        lemma_offsets_climb(buf, next, i - 1);
        assert(seq_offset(next, buf[i - 1].sequence_num) < seq_offset(next, buf[i].sequence_num));
    }
}

/// Moving the head of the receive buffer, numbered `next`, to the end of the receive
/// queue keeps the buffer in order and the queue contiguous, counted from `next + 1`.
pub proof fn lemma_head_promoted(next: u32, buf: Seq<SegmentView>, queue: Seq<SegmentView>)
    requires
        recv_buffer_ordered(next, buf),
        recv_queue_contiguous(next, queue),
        buf.len() > 0,
        buf[0].sequence_num == next,
    ensures
        recv_buffer_ordered(seq_add(next, 1), buf.drop_first()),
        recv_queue_contiguous(seq_add(next, 1), queue.push(buf[0])),
{
    let after = seq_add(next, 1);
    let rest = buf.drop_first();
    assert forall|i: int, j: int| 0 <= i < j < rest.len() implies seq_offset(
        after,
        (#[trigger] rest[i]).sequence_num,
    ) < seq_offset(after, (#[trigger] rest[j]).sequence_num) by {
        assert(rest[i] == buf[i + 1]);
        assert(rest[j] == buf[j + 1]);
        assert(seq_offset(next, buf[0].sequence_num) < seq_offset(next, buf[i + 1].sequence_num));
        assert(seq_offset(next, buf[i + 1].sequence_num) < seq_offset(
            next,
            buf[j + 1].sequence_num,
        ));
    }
    let grown = queue.push(buf[0]);
    assert forall|i: int| 0 <= i < grown.len() implies seq_offset(
        (#[trigger] grown[i]).sequence_num,
        after,
    ) == (grown.len() - i) % 0x1_0000_0000 by {
        if i < queue.len() {
            assert(grown[i] == queue[i]);
            assert(seq_offset(queue[i].sequence_num, next) == (queue.len() - i) % 0x1_0000_0000);
        }
    }
}

/// What is left of a contiguous receive queue when leading segments are taken off is
/// contiguous.
pub proof fn lemma_skip_keeps_contiguous(
    rcv_next: u32,
    queue: Seq<SegmentView>,
    k: int,
)
    requires
        recv_queue_contiguous(rcv_next, queue),
        0 <= k <= queue.len(),
    ensures
        recv_queue_contiguous(rcv_next, queue.skip(k)),
{
    let rest = queue.skip(k);
    assert forall|i: int| 0 <= i < rest.len() implies seq_offset(
        (#[trigger] rest[i]).sequence_num,
        rcv_next,
    ) == (rest.len() - i) % 0x1_0000_0000 by {
        assert(rest[i] == queue[i + k]);
    }
}

/// Staging keeps the receive buffer in strictly increasing order.
pub proof fn lemma_staged_ordered(buf: Seq<SegmentView>, rcv_next: u32, seg: SegmentView)
    requires
        recv_buffer_ordered(rcv_next, buf),
    ensures
        recv_buffer_ordered(rcv_next, staged(buf, rcv_next, seg)),
{
    let p = numbered_before(rcv_next, seg.sequence_num);
    let k = prefix_len(buf, p) as int;
    crate::runs::lemma_prefix_len(buf, p);
    let out = staged(buf, rcv_next, seg);
    if k < buf.len() && buf[k].sequence_num == seg.sequence_num {
    } else {
        assert forall|i: int, j: int| 0 <= i < j < out.len() implies seq_offset(
            rcv_next,
            (#[trigger] out[i]).sequence_num,
        ) < seq_offset(rcv_next, (#[trigger] out[j]).sequence_num) by {
            let a = if i < k { buf[i] } else if i == k { seg } else { buf[i - 1] };
            let b = if j < k { buf[j] } else if j == k { seg } else { buf[j - 1] };
            assert(out[i] == a);
            assert(out[j] == b);
            if i < k {
                assert(p(buf[i]));
            }
            if j > k {
                assert(!p(buf[k]));
                if j - 1 > k {
                    assert(seq_offset(rcv_next, buf[k].sequence_num) < seq_offset(
                        rcv_next,
                        buf[j - 1].sequence_num,
                    ));
                }
            }
        }
    }
}

/// Puts `seg` into the receive buffer at its place, unless a segment with its number
/// is there already; says whether it was put in.
pub fn stage(buf: &mut VecDeque<Segment>, rcv_next: u32, seg: Segment) -> (added: bool)
    requires
        recv_buffer_ordered(rcv_next, views(old(buf)@)),
    ensures
        views(final(buf)@) == staged(views(old(buf)@), rcv_next, seg@),
        recv_buffer_ordered(rcv_next, views(final(buf)@)),
        added == !is_staged(views(old(buf)@), rcv_next, seg.sequence_num),
{
    let ghost start = views(buf@);
    let ghost p = numbered_before(rcv_next, seg.sequence_num);
    let sn: u32 = seg.sequence_num;
    let target: u32 = offset_from(rcv_next, sn);
    let mut index: usize = buf.len();
    proof {
        lemma_staged_ordered(start, rcv_next, seg@);
    }
    while index > 0
        invariant
            buf@ == old(buf)@,
            start == views(buf@),
            0 <= index <= buf@.len(),
            target == seq_offset(rcv_next, sn),
            sn == seg.sequence_num,
            p == numbered_before(rcv_next, seg.sequence_num),
            recv_buffer_ordered(rcv_next, start),
            forall|j: int| index <= j < start.len() ==> target < seq_offset(
                rcv_next,
                (#[trigger] start[j]).sequence_num,
            ),
        ensures
            index > 0 ==> target > seq_offset(rcv_next, start[index - 1].sequence_num),
        decreases index,
    {
        let here: u32 = buf[index - 1].sequence_num;
        proof {
            assert(start[index - 1].sequence_num == here);
        }
        if here == sn {
            proof {
                assert forall|j: int| 0 <= j < index - 1 implies p(#[trigger] start[j]) by {
                    assert(seq_offset(rcv_next, start[j].sequence_num) < seq_offset(
                        rcv_next,
                        start[index - 1].sequence_num,
                    ));
                }
                assert(!p(start[index - 1]));
                lemma_prefix_len_unique(start, p, (index - 1) as nat);
            }
            return false;
        }
        if target > offset_from(rcv_next, here) {
            break;
        }
        index = index - 1;
    }
    proof {
        assert forall|j: int| 0 <= j < index implies p(#[trigger] start[j]) by {
            if j < index - 1 {
                assert(seq_offset(rcv_next, start[j].sequence_num) < seq_offset(
                    rcv_next,
                    start[index - 1].sequence_num,
                ));
            }
        }
        if index < start.len() {
            assert(!p(start[index as int]));
            assert(start[index as int].sequence_num != sn);
        }
        lemma_prefix_len_unique(start, p, index as nat);
    }
    let ghost put = seg@;
    buf.insert(index, seg);
    proof {
        assert(views(buf@) =~= start.insert(index as int, put));
    }
    true
}

/// Moves the leading segments of the receive buffer that follow `rcv_next` without a
/// gap to the receive queue, as far as the window leaves room, and returns the next
/// number expected afterwards.
pub fn promote(
    buf: &mut VecDeque<Segment>,
    queue: &mut VecDeque<Segment>,
    rcv_next: u32,
    recv_wnd: usize,
) -> (next: u32)
    requires
        recv_buffer_ordered(rcv_next, views(old(buf)@)),
        recv_queue_contiguous(rcv_next, views(old(queue)@)),
    ensures
        ({
            let k = promotable(
                views(old(buf)@),
                rcv_next,
                room(old(queue)@.len(), recv_wnd),
            ) as int;
            &&& k <= old(buf)@.len()
            &&& views(final(queue)@) == views(old(queue)@) + views(old(buf)@).take(k)
            &&& views(final(buf)@) == views(old(buf)@).skip(k)
            &&& next == seq_add(rcv_next, k)
        }),
        recv_buffer_ordered(next, views(final(buf)@)),
        recv_queue_contiguous(next, views(final(queue)@)),
{
    let ghost staged0 = views(buf@);
    let ghost queue0 = views(queue@);
    let ghost room0 = room(queue@.len(), recv_wnd);
    let ghost mut moved: int = 0;
    let mut next: u32 = rcv_next;
    proof {
        assert(views(queue@) =~= queue0 + staged0.take(0));
        assert(views(buf@) =~= staged0.skip(0));
        lemma_promotable_bounded(staged0, rcv_next, room0);
    }
    loop
        invariant
            0 <= moved <= staged0.len(),
            buf@.len() == staged0.len() - moved,
            queue@.len() == queue0.len() + moved,
            views(queue@) == queue0 + staged0.take(moved),
            views(buf@) == staged0.skip(moved),
            next == seq_add(rcv_next, moved),
            moved + promotable(views(buf@), next, room(queue@.len(), recv_wnd)) == promotable(
                staged0,
                rcv_next,
                room0,
            ),
            recv_buffer_ordered(next, views(buf@)),
            recv_queue_contiguous(next, views(queue@)),
        ensures
            0 <= moved <= staged0.len(),
            views(queue@) == queue0 + staged0.take(moved),
            views(buf@) == staged0.skip(moved),
            next == seq_add(rcv_next, moved),
            moved == promotable(staged0, rcv_next, room0),
            recv_buffer_ordered(next, views(buf@)),
            recv_queue_contiguous(next, views(queue@)),
        decreases buf@.len(),
    {
        let ghost before = views(buf@);
        let ghost waiting = views(queue@);
        if buf.len() == 0 || queue.len() >= recv_wnd {
            break;
        }
        let here: u32 = buf[0].sequence_num;
        proof {
            assert(before[0] == buf@[0]@);
        }
        if here != next {
            break;
        }
        let seg = buf.pop_front().unwrap();
        proof {
            assert(seg@ == before[0]);
            assert(views(buf@) =~= before.drop_first());
        }
        queue.push_back(seg);
        let after: u32 = next.wrapping_add(1);
        proof {
            assert(views(queue@) =~= waiting.push(before[0]));
            assert(before[0] == staged0[moved]);
            assert(views(queue@) =~= queue0 + staged0.take(moved + 1));
            assert(views(buf@) =~= staged0.skip(moved + 1));
            assert(after == seq_add(next, 1));
            assert(after == seq_add(rcv_next, moved + 1));
            lemma_head_promoted(next, before, waiting);
            moved = moved + 1;
        }
        next = after;
    }
    next
}

} // verus!
