//! The receive queue: segments in order, ready to be put together into messages.
//!
//! A message is a run of segments that ends with the first segment whose fragment
//! number is 0.
use crate::runs::{lemma_prefix_len, lemma_prefix_len_unique, prefix_len};
use crate::segment::{views, Segment, SegmentView};
use std::collections::VecDeque;
use vstd::prelude::*;

verus! {

/// Whether more fragments of the same message follow a segment.
pub open spec fn more_follow() -> spec_fn(SegmentView) -> bool {
    |s: SegmentView| s.fragment_id != 0
}

/// Number of segments that make up the first message of `queue`: up to and including
/// the first segment with fragment number 0, or all of them where there is none.
pub open spec fn message_run(queue: Seq<SegmentView>) -> nat {
    let k = prefix_len(queue, more_follow());
    if k < queue.len() {
        k + 1
    } else {
        k
    }
}

/// The payloads of `segments`, one after the other.
pub open spec fn payload_of(segments: Seq<SegmentView>) -> Seq<u8>
    decreases segments.len(),
{
    if segments.len() == 0 {
        Seq::empty()
    } else {
        payload_of(segments.drop_last()) + segments.last().data
    }
}

/// The first message of `queue`.
pub open spec fn next_message(queue: Seq<SegmentView>) -> Seq<u8> {
    payload_of(queue.take(message_run(queue) as int))
}

/// Whether the queue holds as many segments as the fragment number of its first
/// segment announces.
pub open spec fn message_ready(queue: Seq<SegmentView>) -> bool {
    queue.len() > 0 && queue.len() > queue[0].fragment_id
}

/// One more segment adds its payload at the end.
pub proof fn lemma_payload_of_take(segments: Seq<SegmentView>, i: int)
    requires
        0 <= i < segments.len(),
    ensures
        payload_of(segments.take(i + 1)) == payload_of(segments.take(i)) + segments[i].data,
{
    assert(segments.take(i + 1).drop_last() =~= segments.take(i));
}

/// A longer run of segments holds at least as many bytes.
pub proof fn lemma_payload_grows(segments: Seq<SegmentView>, i: int, j: int)
    requires
        0 <= i <= j <= segments.len(),
    ensures
        payload_of(segments.take(i)).len() <= payload_of(segments.take(j)).len(),
    decreases j - i,
{
    if i < j {
        lemma_payload_grows(segments, i, j - 1);
        lemma_payload_of_take(segments, j - 1);
    }
}

/// The run of the first message lies within the queue and is not empty unless the
/// queue is.
pub proof fn lemma_message_run(queue: Seq<SegmentView>)
    ensures
        message_run(queue) <= queue.len(),
        queue.len() > 0 ==> message_run(queue) >= 1,
{
    lemma_prefix_len(queue, more_follow());
}

/// Size in bytes of the first message of `queue`, or `None` where it is more than a
/// `usize` can count.
pub fn message_size(queue: &VecDeque<Segment>) -> (size: Option<usize>)
    ensures
        match size {
            Some(n) => n == next_message(views(queue@)).len(),
            None => next_message(views(queue@)).len() > usize::MAX,
        },
{
    let ghost all = views(queue@);
    let n: usize = queue.len();
    let mut total: usize = 0;
    let mut i: usize = 0;
    proof {
        lemma_message_run(all);
    }
    while i < n
        invariant
            all == views(queue@),
            n == all.len(),
            0 <= i <= n,
            total == payload_of(all.take(i as int)).len(),
            forall|j: int| 0 <= j < i ==> more_follow()(#[trigger] all[j]),
        decreases n - i,
    {
        let seg = &queue[i];
        proof {
            assert(all[i as int] == seg@);
            lemma_payload_of_take(all, i as int);
        }
        let last: bool = seg.fragment_id == 0;
        proof {
            if last {
                lemma_prefix_len_unique(all, more_follow(), i as nat);
            } else if i + 1 == n {
                lemma_prefix_len_unique(all, more_follow(), n as nat);
            }
        }
        match total.checked_add(seg.data.len()) {
            Some(sum) => {
                total = sum;
            },
            None => {
                proof {
                    lemma_prefix_len(all, more_follow());
                    if !last && i + 1 < n {
                        assert(message_run(all) >= i + 1) by {
                            if prefix_len(all, more_follow()) < i + 1 {
                                let k = prefix_len(all, more_follow()) as int;
                                assert(more_follow()(all[k]));
                            }
                        }
                    }
                    lemma_payload_grows(all, i as int + 1, message_run(all) as int);
                }
                return None;
            },
        }
        if last {
            return Some(total);
        }
        i = i + 1;
    }
    proof {
        lemma_prefix_len_unique(all, more_follow(), n as nat);
    }
    Some(total)
}

/// Copies `src` into `dst` from position `at` on.
pub fn copy_into(dst: &mut [u8], at: usize, src: &[u8])
    requires
        at + src@.len() <= old(dst)@.len(),
    ensures
        final(dst)@ == old(dst)@.take(at as int) + src@ + old(dst)@.skip(at + src@.len()),
{
    let n: usize = src.len();
    let total: usize = dst.len();
    let mut k: usize = 0;
    while k < n
        invariant
            n == src@.len(),
            total == dst@.len(),
            total == old(dst)@.len(),
            at + n <= total,
            0 <= k <= n,
            dst@ == old(dst)@.take(at as int) + src@.take(k as int) + old(dst)@.skip(at + k),
        decreases n - k,
    {
        let ghost before = dst@;
        dst[at + k] = src[k];
        proof {
            assert(dst@ == before.update(at + k, src@[k as int]));
            assert(dst@ =~= old(dst)@.take(at as int) + src@.take(k as int + 1) + old(dst)@.skip(
                at + k + 1,
            ));
        }
        k = k + 1;
    }
    proof {
        assert(src@.take(n as int) =~= src@);
    }
}

/// Takes the first message off `queue` and writes it to the front of `buffer`;
/// returns its size.
pub fn take_message(queue: &mut VecDeque<Segment>, buffer: &mut [u8]) -> (size: usize)
    requires
        old(queue)@.len() > 0,
        next_message(views(old(queue)@)).len() <= old(buffer)@.len(),
    ensures
        size == next_message(views(old(queue)@)).len(),
        final(buffer)@ == next_message(views(old(queue)@)) + old(buffer)@.skip(size as int),
        views(final(queue)@) == views(old(queue)@).skip(message_run(views(old(queue)@)) as int),
        final(queue)@ == old(queue)@.skip(message_run(views(old(queue)@)) as int),
        message_run(views(old(queue)@)) >= 1,
{
    let ghost all = views(queue@);
    let ghost all_segs = queue@;
    let ghost run = message_run(all) as int;
    let ghost mut taken: int = 0;
    let mut pos: usize = 0;
    let capacity: usize = buffer.len();
    proof {
        lemma_message_run(all);
        lemma_prefix_len(all, more_follow());
        assert(queue@ =~= all_segs.skip(0));
        assert(buffer@ =~= payload_of(all.take(0)) + old(buffer)@.skip(0));
    }
    loop
        invariant_except_break
            forall|j: int| 0 <= j < taken ==> more_follow()(#[trigger] all[j]),
            taken == run ==> taken == all.len(),
        invariant
            all == views(all_segs),
            run == message_run(all),
            1 <= run <= all.len(),
            0 <= taken <= run,
            queue@ == all_segs.skip(taken),
            pos == payload_of(all.take(taken)).len(),
            buffer@.len() == old(buffer)@.len(),
            capacity == buffer@.len(),
            buffer@ == payload_of(all.take(taken)) + old(buffer)@.skip(pos as int),
            payload_of(all.take(run)).len() <= old(buffer)@.len(),
        ensures
            taken == run,
            queue@ == all_segs.skip(taken),
            pos == payload_of(all.take(taken)).len(),
            buffer@ == payload_of(all.take(taken)) + old(buffer)@.skip(pos as int),
        decreases all.len() - taken,
    {
        if queue.len() == 0 {
            proof {
                lemma_prefix_len_unique(all, more_follow(), all.len());
            }
            break;
        }
        let ghost before = buffer@;
        let seg = queue.pop_front().unwrap();
        proof {
            assert(seg@ == all[taken]);
            assert(queue@ =~= all_segs.skip(taken + 1));
            lemma_payload_of_take(all, taken);
            if seg.fragment_id == 0 {
                lemma_prefix_len_unique(all, more_follow(), taken as nat);
            } else {
                lemma_prefix_len(all, more_follow());
                if prefix_len(all, more_follow()) < taken + 1 {
                    let k = prefix_len(all, more_follow()) as int;
                    if k < taken {
                        assert(more_follow()(all[k]));
                    }
                }
            }
            lemma_payload_grows(all, taken + 1, run);
        }
        let data: &[u8] = seg.data.as_ref();
        proof {
            assert(pos + data@.len() == payload_of(all.take(taken + 1)).len());
        }
        copy_into(buffer, pos, data);
        proof {
            assert(buffer@ =~= payload_of(all.take(taken + 1)) + old(buffer)@.skip(
                pos + data@.len(),
            ));
            taken = taken + 1;
        }
        pos = pos + data.len();
        if seg.fragment_id == 0 {
            break;
        }
    }
    proof {
        assert(views(all_segs.skip(run)) =~= all.skip(run));
    }
    pos
}

} // verus!
