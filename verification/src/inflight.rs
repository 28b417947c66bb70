//! The send buffer: what acknowledgements do to the segments in flight.
use crate::runs::{lemma_prefix_len, lemma_prefix_len_unique, prefix_len};
use crate::segment::{views, Segment, SegmentView};
use crate::serial::{offset_from, seq_diff, seq_offset, time_diff};
use crate::state::send_window_ordered;
use std::collections::VecDeque;
use vstd::prelude::*;

verus! {

/// Whether a cumulative acknowledgement `una` covers a segment: the segment's number
/// lies before `una`.
pub open spec fn covered_by(una: u32) -> spec_fn(SegmentView) -> bool {
    |s: SegmentView| seq_diff(una, s.sequence_num) > 0
}

/// The segments still in flight after the peer has reported `una` as the next number
/// it expects: the leading segments that `una` covers are gone.
pub open spec fn cumulatively_acked(buf: Seq<SegmentView>, una: u32) -> Seq<SegmentView> {
    buf.skip(prefix_len(buf, covered_by(una)) as int)
}

/// The oldest unacknowledged number: that of the first segment in flight, or the next
/// number to assign where none is.
pub open spec fn oldest_unacked(buf: Seq<SegmentView>, next_sn: u32) -> u32 {
    if buf.len() > 0 {
        buf[0].sequence_num
    } else {
        next_sn
    }
}

/// Whether a segment carries another number than `sn`.
pub open spec fn other_than(sn: u32) -> spec_fn(SegmentView) -> bool {
    |s: SegmentView| s.sequence_num != sn
}

/// Whether `sn` names a number that is in flight: at or after `una` and before
/// `next_sn`.
pub open spec fn in_send_window(una: u32, next_sn: u32, sn: u32) -> bool {
    seq_offset(una, sn) < seq_offset(una, next_sn)
}

/// The segments still in flight after an acknowledgement of `sn`: the first segment
/// numbered `sn` is gone, provided `sn` is in flight at all.
pub open spec fn selectively_acked(buf: Seq<SegmentView>, una: u32, next_sn: u32, sn: u32)
    -> Seq<SegmentView> {
    let k = prefix_len(buf, other_than(sn));
    if in_send_window(una, next_sn, sn) && k < buf.len() {
        buf.remove(k as int)
    } else {
        buf
    }
}

/// A segment with one more acknowledgement of a later segment counted; the count
/// stays at its largest value once reached.
pub open spec fn skipped_once(seg: SegmentView) -> SegmentView {
    SegmentView {
        fastack: if seg.fastack < u32::MAX { (seg.fastack + 1) as u32 } else { u32::MAX },
        ..seg
    }
}

/// The segments in flight after `max_ack`, the latest number acknowledged in one
/// input, has been counted against every segment numbered before it.
pub open spec fn fast_acked(buf: Seq<SegmentView>, una: u32, next_sn: u32, max_ack: u32)
    -> Seq<SegmentView> {
    if in_send_window(una, next_sn, max_ack) {
        Seq::new(
            buf.len(),
            |i: int|
                if seq_offset(una, buf[i].sequence_num) < seq_offset(una, max_ack) {
                    skipped_once(buf[i])
                } else {
                    buf[i]
                },
        )
    } else {
        buf
    }
}

/// Dropping leading segments and moving `una` to the new head keeps the send window
/// in order.
pub proof fn lemma_skip_keeps_order(una: u32, next_sn: u32, buf: Seq<SegmentView>, k: int)
    requires
        send_window_ordered(una, next_sn, buf),
        0 <= k <= buf.len(),
    ensures
        send_window_ordered(oldest_unacked(buf.skip(k), next_sn), next_sn, buf.skip(k)),
{
    let rest = buf.skip(k);
    let base = oldest_unacked(rest, next_sn);
    assert forall|i: int| 0 <= i < rest.len() implies seq_offset(
        base,
        (#[trigger] rest[i]).sequence_num,
    ) < seq_offset(base, next_sn) by {
        assert(rest[i] == buf[i + k]);
        assert(rest[0] == buf[k]);
    }
    assert forall|i: int, j: int| 0 <= i < j < rest.len() implies seq_offset(
        base,
        (#[trigger] rest[i]).sequence_num,
    ) < seq_offset(base, (#[trigger] rest[j]).sequence_num) by {
        assert(rest[i] == buf[i + k]);
        assert(rest[j] == buf[j + k]);
        assert(rest[0] == buf[k]);
    }
}

/// Removing one segment and moving `una` to the new head keeps the send window in
/// order.
pub proof fn lemma_remove_keeps_order(una: u32, next_sn: u32, buf: Seq<SegmentView>, k: int)
    requires
        send_window_ordered(una, next_sn, buf),
        0 <= k < buf.len(),
    ensures
        send_window_ordered(oldest_unacked(buf.remove(k), next_sn), next_sn, buf.remove(k)),
{
    let rest = buf.remove(k);
    let base = oldest_unacked(rest, next_sn);
    if rest.len() > 0 {
        assert(rest[0] == if k == 0 { buf[1] } else { buf[0] });
    }
    assert forall|i: int| 0 <= i < rest.len() implies seq_offset(
        base,
        (#[trigger] rest[i]).sequence_num,
    ) < seq_offset(base, next_sn) by {
        assert(rest[i] == if i < k { buf[i] } else { buf[i + 1] });
    }
    assert forall|i: int, j: int| 0 <= i < j < rest.len() implies seq_offset(
        base,
        (#[trigger] rest[i]).sequence_num,
    ) < seq_offset(base, (#[trigger] rest[j]).sequence_num) by {
        assert(rest[i] == if i < k { buf[i] } else { buf[i + 1] });
        assert(rest[j] == if j < k { buf[j] } else { buf[j + 1] });
    }
}

/// Whether a send window is in order depends on the numbers of its segments alone.
pub proof fn lemma_same_numbers_same_order(
    una: u32,
    next_sn: u32,
    a: Seq<SegmentView>,
    b: Seq<SegmentView>,
)
    requires
        send_window_ordered(una, next_sn, a),
        a.len() == b.len(),
        forall|i: int| 0 <= i < b.len() ==> (#[trigger] b[i]).sequence_num == a[i].sequence_num,
    ensures
        send_window_ordered(una, next_sn, b),
{
    assert forall|i: int| 0 <= i < b.len() implies seq_offset(una, (#[trigger] b[i]).sequence_num)
        < seq_offset(una, next_sn) by {
        assert(seq_offset(una, a[i].sequence_num) < seq_offset(una, next_sn));
    }
    assert forall|i: int, j: int| 0 <= i < j < b.len() implies seq_offset(
        una,
        (#[trigger] b[i]).sequence_num,
    ) < seq_offset(una, (#[trigger] b[j]).sequence_num) by {
        assert(seq_offset(una, a[i].sequence_num) < seq_offset(una, a[j].sequence_num));
    }
    if b.len() > 0 {
        assert(b[0].sequence_num == a[0].sequence_num);
    }
}

/// The sequence numbers of the segments in flight, in order.
pub open spec fn numbers(buf: Seq<SegmentView>) -> Seq<u32> {
    Seq::new(buf.len(), |i: int| buf[i].sequence_num)
}

/// Which segments an acknowledgement takes out of flight depends on the numbers of
/// the segments alone: two send buffers that hold the same numbers hold the same
/// numbers after the same cumulative acknowledgement and after the same
/// acknowledgement of one number.
pub proof fn lemma_acks_go_by_numbers(
    a: Seq<SegmentView>,
    b: Seq<SegmentView>,
    una: u32,
    next_sn: u32,
    cumulative: u32,
    sn: u32,
)
    requires
        numbers(a) == numbers(b),
    ensures
        numbers(cumulatively_acked(a, cumulative)) == numbers(cumulatively_acked(b, cumulative)),
        oldest_unacked(cumulatively_acked(a, cumulative), next_sn) == oldest_unacked(
            cumulatively_acked(b, cumulative),
            next_sn,
        ),
        numbers(selectively_acked(a, una, next_sn, sn)) == numbers(
            selectively_acked(b, una, next_sn, sn),
        ),
        oldest_unacked(selectively_acked(a, una, next_sn, sn), next_sn) == oldest_unacked(
            selectively_acked(b, una, next_sn, sn),
            next_sn,
        ),
{
    assert(a.len() == numbers(a).len());
    assert(b.len() == numbers(b).len());
    assert forall|i: int| 0 <= i < a.len() implies (#[trigger] a[i]).sequence_num
        == b[i].sequence_num by {
        assert(numbers(a)[i] == a[i].sequence_num);
        assert(numbers(b)[i] == b[i].sequence_num);
    }
    let covered = covered_by(cumulative);
    let k = prefix_len(a, covered);
    lemma_prefix_len(a, covered);
    assert forall|i: int| 0 <= i < k implies covered(#[trigger] b[i]) by {
        assert(covered(a[i]));
    }
    lemma_prefix_len_unique(b, covered, k);
    let other = other_than(sn);
    let j = prefix_len(a, other);
    lemma_prefix_len(a, other);
    assert forall|i: int| 0 <= i < j implies other(#[trigger] b[i]) by {
        assert(other(a[i]));
    }
    lemma_prefix_len_unique(b, other, j);
    let ca = cumulatively_acked(a, cumulative);
    let cb = cumulatively_acked(b, cumulative);
    assert(numbers(ca) =~= numbers(cb)) by {
        assert forall|i: int| 0 <= i < ca.len() implies ca[i].sequence_num
            == cb[i].sequence_num by {
            assert(ca[i] == a[i + k]);
            assert(cb[i] == b[i + k]);
        }
    }
    if ca.len() > 0 {
        assert(ca[0] == a[k as int]);
        assert(cb[0] == b[k as int]);
    }
    let sa = selectively_acked(a, una, next_sn, sn);
    let sb = selectively_acked(b, una, next_sn, sn);
    assert(numbers(sa) =~= numbers(sb)) by {
        assert forall|i: int| 0 <= i < sa.len() implies sa[i].sequence_num
            == sb[i].sequence_num by {
            if sa != a {
                assert(sa[i] == if i < j { a[i] } else { a[i + 1] });
                assert(sb[i] == if i < j { b[i] } else { b[i + 1] });
            }
        }
    }
    if sa.len() > 0 {
        if sa != a {
            assert(sa[0] == if 0 < j { a[0] } else { a[1] });
            assert(sb[0] == if 0 < j { b[0] } else { b[1] });
        }
    }
}

/// Counting skips changes no number in flight.
pub proof fn lemma_skips_keep_numbers(buf: Seq<SegmentView>, una: u32, next_sn: u32, max_ack: u32)
    ensures
        numbers(fast_acked(buf, una, next_sn, max_ack)) == numbers(buf),
        oldest_unacked(fast_acked(buf, una, next_sn, max_ack), next_sn) == oldest_unacked(
            buf,
            next_sn,
        ),
{
    assert(numbers(fast_acked(buf, una, next_sn, max_ack)) =~= numbers(buf));
}

/// Drops the leading segments that the cumulative acknowledgement `una` covers.
pub fn drop_covered(buf: &mut VecDeque<Segment>, una: u32)
    ensures
        views(final(buf)@) == cumulatively_acked(views(old(buf)@), una),
        exists|k: int| 0 <= k <= old(buf)@.len() && final(buf)@ == #[trigger] old(buf)@.skip(k),
{
    let ghost start = buf@;
    let ghost mut dropped: int = 0;
    proof {
        assert(buf@ =~= start.skip(0));
    }
    loop
        invariant
            0 <= dropped <= start.len(),
            buf@ == start.skip(dropped),
            cumulatively_acked(views(buf@), una) == cumulatively_acked(views(start), una),
        ensures
            views(buf@) == cumulatively_acked(views(start), una),
            0 <= dropped <= start.len(),
            buf@ == start.skip(dropped),
        decreases buf@.len(),
    {
        let ghost before = views(buf@);
        if buf.len() == 0 {
            proof {
                assert(before.skip(0) =~= before);
            }
            break;
        }
        let head_sn: u32 = buf[0].sequence_num;
        proof {
            assert(before[0] == buf@[0]@);
        }
        if time_diff(una, head_sn) <= 0 {
            proof {
                assert(!covered_by(una)(before[0]));
                assert(before.skip(0) =~= before);
            }
            break;
        }
        let gone = buf.pop_front();
        proof {
            assert(covered_by(una)(before[0]));
            assert(views(buf@) =~= before.drop_first());
            assert(prefix_len(before, covered_by(una)) == 1 + prefix_len(
                before.drop_first(),
                covered_by(una),
            ));
            lemma_prefix_len(before.drop_first(), covered_by(una));
            assert(before.skip(prefix_len(before, covered_by(una)) as int) =~= before.drop_first().skip(
                prefix_len(before.drop_first(), covered_by(una)) as int,
            ));
            assert(buf@ =~= start.skip(dropped + 1));
            dropped = dropped + 1;
        }
    }
}

/// Removes the segment numbered `sn`, if `sn` is in flight and such a segment is
/// there.
pub fn remove_acked(buf: &mut VecDeque<Segment>, una: u32, next_sn: u32, sn: u32)
    requires
        send_window_ordered(una, next_sn, views(old(buf)@)),
    ensures
        views(final(buf)@) == selectively_acked(views(old(buf)@), una, next_sn, sn),
        final(buf)@ == old(buf)@ || exists|k: int|
            0 <= k < old(buf)@.len() && final(buf)@ == #[trigger] old(buf)@.remove(k),
{
    let ghost start = views(buf@);
    let target: u32 = offset_from(una, sn);
    if target >= offset_from(una, next_sn) {
        return;
    }
    let n: usize = buf.len();
    let mut i: usize = 0;
    while i < n
        invariant
            buf@ == old(buf)@,
            n == buf@.len(),
            0 <= i <= n,
            start == views(buf@),
            target == seq_offset(una, sn),
            send_window_ordered(una, next_sn, start),
            forall|j: int| 0 <= j < i ==> (#[trigger] start[j]).sequence_num != sn,
        decreases n - i,
    {
        let here: u32 = buf[i].sequence_num;
        if here == sn {
            let gone = buf.remove(i);
            proof {
                assert(start[i as int].sequence_num == sn);
                lemma_prefix_len_unique(start, other_than(sn), i as nat);
                assert(views(buf@) =~= start.remove(i as int));
            }
            return;
        }
        if target < offset_from(una, here) {
            proof {
                assert(start[i as int].sequence_num == here);
                assert forall|j: int| 0 <= j < n implies other_than(sn)(#[trigger] start[j]) by {
                    if j > i {
                        assert(seq_offset(una, start[i as int].sequence_num) < seq_offset(
                            una,
                            start[j].sequence_num,
                        ));
                    }
                }
                lemma_prefix_len_unique(start, other_than(sn), n as nat);
            }
            return;
        }
        proof {
            assert(start[i as int].sequence_num == here);
        }
        i = i + 1;
    }
    proof {
        lemma_prefix_len_unique(start, other_than(sn), n as nat);
    }
}

/// Counts `max_ack` against every segment in flight that is numbered before it.
pub fn count_skips(buf: &mut VecDeque<Segment>, una: u32, next_sn: u32, max_ack: u32)
    ensures
        views(final(buf)@) == fast_acked(views(old(buf)@), una, next_sn, max_ack),
{
    let ghost start = views(buf@);
    let target: u32 = offset_from(una, max_ack);
    if target >= offset_from(una, next_sn) {
        return;
    }
    let n: usize = buf.len();
    let mut i: usize = 0;
    proof {
        assert(views(buf@) =~= start.skip(0) + fast_acked(start, una, next_sn, max_ack).take(0));
    }
    while i < n
        invariant
            n == start.len(),
            0 <= i <= n,
            target == seq_offset(una, max_ack),
            in_send_window(una, next_sn, max_ack),
            buf@.len() == n,
            views(buf@) == start.skip(i as int) + fast_acked(start, una, next_sn, max_ack).take(
                i as int,
            ),
        decreases n - i,
    {
        let ghost before = views(buf@);
        let ghost old_head = buf@[0]@;
        let mut seg = buf.pop_front().unwrap();
        if offset_from(una, seg.sequence_num) < target {
            seg.fastack = if seg.fastack < u32::MAX { seg.fastack + 1 } else { u32::MAX };
        }
        let ghost mid = views(buf@);
        proof {
            assert(before[0] == start[i as int]);
            assert(before[0] == old_head);
            assert(seg@ == fast_acked(start, una, next_sn, max_ack)[i as int]);
            assert(mid =~= before.drop_first());
        }
        buf.push_back(seg);
        proof {
            assert(views(buf@) =~= mid.push(seg@));
            assert(views(buf@) =~= start.skip(i as int + 1) + fast_acked(
                start,
                una,
                next_sn,
                max_ack,
            ).take(i as int + 1));
        }
        i = i + 1;
    }
    proof {
        let done = fast_acked(start, una, next_sn, max_ack);
        assert(start.skip(n as int) + done.take(n as int) =~= done);
    }
}

} // verus!
