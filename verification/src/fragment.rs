//! The send queue: how a payload is cut into segments.
use crate::buffer::bytes_of;
use crate::errors::{ErrorKind, ProtocolError, ProtocolResult};
use crate::message::payload_of;
use crate::segment::{views, Segment, SegmentView};
use crate::state::{sendable, MAX_MSS};
use crate::PROTOCOL_OVERHEAD;
use bytes::BytesMut;
use std::collections::VecDeque;
use vstd::prelude::*;

verus! {

/// Most fragments that a message can have: one more than the largest fragment number.
pub const MAX_FRAGMENTS: usize = 256;

/// Number of segments that `len` bytes take at `mss` bytes each: `len / mss`, rounded
/// up.
pub open spec fn fragment_count(len: nat, mss: nat) -> nat {
    ((len + mss - 1) / mss as int) as nat
}

/// Fragment `i` of `count` of `payload`: bytes `i * mss` up to `(i + 1) * mss`, or to
/// the end where the payload ends before. Fragments are numbered downwards so that
/// the last one carries 0; in streaming mode every one carries 0.
pub open spec fn fragment(payload: Seq<u8>, mss: nat, count: nat, streaming: bool, i: int)
    -> SegmentView {
    let end = if (i + 1) * mss < payload.len() { (i + 1) * mss } else { payload.len() as int };
    SegmentView {
        fragment_id: if streaming { 0 } else { (count - 1 - i) as u8 },
        ..SegmentView::blank(payload.subrange(i * mss, end))
    }
}

/// The segments that `payload` is cut into.
pub open spec fn fragments(payload: Seq<u8>, mss: nat, streaming: bool) -> Seq<SegmentView> {
    let count = fragment_count(payload.len(), mss);
    Seq::new(count, |i: int| fragment(payload, mss, count, streaming, i))
}

/// In streaming mode, how many bytes of a payload of `len` bytes go into the last
/// segment of the queue: as many as it lacks to `mss`. Otherwise none.
pub open spec fn fill_len(queue: Seq<SegmentView>, len: nat, mss: nat, streaming: bool) -> nat {
    if streaming && queue.len() > 0 && queue.last().data.len() < mss {
        let lacking = (mss - queue.last().data.len()) as nat;
        if len < lacking { len } else { lacking }
    } else {
        0
    }
}

/// Why `payload` cannot be enqueued, if it cannot: it is empty, or what does not go
/// into the last segment needs as many fragments as the receive window has slots, or
/// more than the one-byte fragment number can count.
pub open spec fn enqueue_error(
    queue: Seq<SegmentView>,
    payload: Seq<u8>,
    mss: nat,
    streaming: bool,
    recv_wnd: usize,
) -> Option<ErrorKind> {
    let rest = (payload.len() - fill_len(queue, payload.len(), mss, streaming)) as nat;
    let count = fragment_count(rest, mss);
    if payload.len() == 0 {
        Some(ErrorKind::EmptyPayload)
    } else if rest > 0 && (count >= recv_wnd || (!streaming && count > MAX_FRAGMENTS)) {
        Some(ErrorKind::FragmentsGreaterThanWindowSize)
    } else {
        None
    }
}

/// The send queue after `payload` has been enqueued.
pub open spec fn enqueued(queue: Seq<SegmentView>, payload: Seq<u8>, mss: nat, streaming: bool)
    -> Seq<SegmentView> {
    let fill = fill_len(queue, payload.len(), mss, streaming) as int;
    let topped = if fill > 0 {
        queue.drop_last().push(
            SegmentView {
                fragment_id: 0,
                data: queue.last().data + payload.take(fill),
                ..queue.last()
            },
        )
    } else {
        queue
    };
    if fill == payload.len() {
        topped
    } else {
        topped + fragments(payload.skip(fill), mss, streaming)
    }
}

proof fn lemma_fragment_count(len: int, mss: int, q: int, r: int)
    by (nonlinear_arith)
    requires
        mss >= 1,
        len == q * mss + r,
        0 <= r < mss,
        q >= 0,
    ensures
        (len + mss - 1) / mss == (if r == 0 { q } else { q + 1 }),
{
}

proof fn lemma_fragment_bounds(len: int, mss: int, count: int, i: int)
    by (nonlinear_arith)
    requires
        mss >= 1,
        len >= 1,
        count == (len + mss - 1) / mss,
        0 <= i < count,
    ensures
        i * mss < len,
        (i + 1) * mss == i * mss + mss,
        i + 1 == count ==> (i + 1) * mss >= len,
        i + 1 < count ==> (i + 1) * mss < len,
{
}

/// The payloads of the first `j` fragments of a payload are its first `j * mss`
/// bytes, or all of it where it is shorter.
pub proof fn lemma_fragments_prefix(payload: Seq<u8>, mss: nat, streaming: bool, j: int)
    requires
        mss >= 1,
        payload.len() >= 1,
        0 <= j <= fragment_count(payload.len(), mss),
    ensures
        payload_of(fragments(payload, mss, streaming).take(j)) == payload.take(
            if j * mss < payload.len() {
                j * mss
            } else {
                payload.len() as int
            },
        ),
    decreases j,
{
    let all = fragments(payload, mss, streaming);
    let count = fragment_count(payload.len(), mss) as int;
    if j == 0 {
        assert(0 * mss == 0) by (nonlinear_arith);
        assert(payload.take(0) =~= Seq::<u8>::empty());
    } else {
        lemma_fragments_prefix(payload, mss, streaming, j - 1);
        lemma_fragment_bounds(payload.len() as int, mss as int, count, j - 1);
        crate::message::lemma_payload_of_take(all, j - 1);
        let from = (j - 1) * mss;
        let to = if j * mss < payload.len() { j * mss } else { payload.len() as int };
        assert(all[j - 1].data == payload.subrange(from, to));
        assert(payload.take(from) + payload.subrange(from, to) =~= payload.take(to));
    }
}

/// The fragments of a payload, put together again, are the payload: a receive queue
/// that holds them delivers the payload as one message. In streaming mode every
/// fragment is a message of its own.
pub proof fn lemma_fragments_reassemble(payload: Seq<u8>, mss: nat, streaming: bool)
    requires
        mss >= 1,
        payload.len() >= 1,
        streaming || fragment_count(payload.len(), mss) <= MAX_FRAGMENTS,
    ensures
        payload_of(fragments(payload, mss, streaming)) == payload,
        !streaming ==> crate::message::message_run(fragments(payload, mss, streaming))
            == fragment_count(payload.len(), mss),
        !streaming ==> crate::message::message_ready(fragments(payload, mss, streaming)),
        !streaming ==> crate::message::next_message(fragments(payload, mss, streaming)) == payload,
        streaming ==> crate::message::message_run(fragments(payload, mss, streaming)) == 1,
{
    let all = fragments(payload, mss, streaming);
    let count = fragment_count(payload.len(), mss) as int;
    assert(count >= 1) by (nonlinear_arith)
        requires
            count == (payload.len() + mss - 1) / mss as int,
            mss >= 1,
            payload.len() >= 1,
    ;
    lemma_fragment_bounds(payload.len() as int, mss as int, count, count - 1);
    lemma_fragments_prefix(payload, mss, streaming, count);
    assert(all.take(count) =~= all);
    assert(payload.take(payload.len() as int) =~= payload);
    if !streaming {
        assert forall|i: int| 0 <= i < count - 1 implies crate::message::more_follow()(
            #[trigger] all[i],
        ) by {
            assert(all[i].fragment_id == (count - 1 - i) as u8);
        }
        assert(!crate::message::more_follow()(all[count - 1]));
        crate::runs::lemma_prefix_len_unique(
            all,
            crate::message::more_follow(),
            (count - 1) as nat,
        );
        assert(all[0].fragment_id == (count - 1) as u8);
    } else {
        assert(!crate::message::more_follow()(all[0]));
        crate::runs::lemma_prefix_len_unique(all, crate::message::more_follow(), 0);
    }
}

/// Cuts `payload` into segments and appends them to the send queue; in streaming mode
/// the last segment of the queue is filled up first. Where the payload cannot be
/// enqueued the queue stays as it is.
pub fn enqueue(
    queue: &mut VecDeque<Segment>,
    payload: &[u8],
    mss: usize,
    streaming: bool,
    recv_wnd: usize,
) -> (r: ProtocolResult<()>)
    requires
        1 <= mss <= MAX_MSS,
        (mss + 2 * PROTOCOL_OVERHEAD) * 3 <= isize::MAX,
        forall|i: int| 0 <= i < old(queue)@.len() ==> sendable(#[trigger] views(old(queue)@)[i]),
    ensures
        match enqueue_error(views(old(queue)@), payload@, mss as nat, streaming, recv_wnd) {
            Some(kind) => r.is_err() && r->Err_0.spec_kind() == kind && final(queue)@ == old(
                queue,
            )@,
            None => r.is_ok() && views(final(queue)@) == enqueued(
                views(old(queue)@),
                payload@,
                mss as nat,
                streaming,
            ),
        },
        forall|i: int| 0 <= i < final(queue)@.len() ==> sendable(#[trigger] views(final(queue)@)[i]),
{
    let ghost queue0 = views(queue@);
    let len: usize = payload.len();
    if len == 0 {
        return Err(ProtocolError::EmptyPayload);
    }
    let mut fill: usize = 0;
    if streaming && queue.len() > 0 {
        let held: usize = queue[queue.len() - 1].data.len();
        proof {
            assert(queue0.last() == queue@[queue@.len() - 1]@);
        }
        if held < mss {
            let lacking: usize = mss - held;
            fill = if len < lacking { len } else { lacking };
        }
    }
    assert(fill == fill_len(queue0, payload@.len(), mss as nat, streaming));
    let rest: usize = len - fill;
    let quotient: usize = rest / mss;
    let remainder: usize = rest % mss;
    proof {
        assert(rest == quotient * mss + remainder && quotient * mss >= quotient)
            by (nonlinear_arith)
            requires
                quotient == rest / mss,
                remainder == rest % mss,
                mss >= 1,
        ;
    }
    let count: usize = if remainder == 0 { quotient } else { quotient + 1 };
    proof {
        lemma_fragment_count(rest as int, mss as int, quotient as int, remainder as int);
        assert(count == fragment_count(rest as nat, mss as nat));
    }
    if rest > 0 && (count >= recv_wnd || (!streaming && count > MAX_FRAGMENTS)) {
        return Err(ProtocolError::FragmentsGreaterThanWindowSize);
    }
    if fill > 0 {
        let mut last = queue.pop_back().unwrap();
        let ghost before = last@;
        proof {
            assert(before == queue0.last());
            assert(views(queue@) =~= queue0.drop_last());
        }
        let head = vstd::slice::slice_subrange(payload, 0, fill);
        last.data.extend_from_slice(head);
        last.fragment_id = 0;
        proof {
            assert(payload@.subrange(0, fill as int) =~= payload@.take(fill as int));
        }
        let ghost topped_last = last@;
        queue.push_back(last);
        proof {
            assert(views(queue@) =~= queue0.drop_last().push(topped_last));
            assert forall|i: int| 0 <= i < queue@.len() implies sendable(
                #[trigger] views(queue@)[i],
            ) by {
                if i < queue0.len() - 1 {
                    assert(views(queue@)[i] == queue0[i]);
                }
            }
        }
    }
    let ghost topped = views(queue@);
    if rest == 0 {
        return Ok(());
    }
    let tail = vstd::slice::slice_subrange(payload, fill, len);
    proof {
        assert(tail@ =~= payload@.skip(fill as int));
        assert(topped =~= topped + fragments(tail@, mss as nat, streaming).take(0));
    }
    let mut i: usize = 0;
    let mut offset: usize = 0;
    while i < count
        invariant
            1 <= mss <= MAX_MSS,
            (mss + 2 * PROTOCOL_OVERHEAD) * 3 <= isize::MAX,
            rest == tail@.len(),
            rest >= 1,
            count == fragment_count(rest as nat, mss as nat),
            count == (rest + mss - 1) / mss as int,
            streaming || count <= MAX_FRAGMENTS,
            0 <= i <= count,
            i < count ==> offset == i * mss && offset < rest,
            views(queue@) == topped + fragments(tail@, mss as nat, streaming).take(i as int),
            forall|j: int| 0 <= j < queue@.len() ==> sendable(#[trigger] views(queue@)[j]),
        decreases count - i,
    {
        let ghost before = views(queue@);
        proof {
            lemma_fragment_bounds(rest as int, mss as int, count as int, i as int);
        }
        let left: usize = rest - offset;
        let size: usize = if mss < left { mss } else { left };
        let piece = vstd::slice::slice_subrange(tail, offset, offset + size);
        let mut segment = Segment::new(BytesMut::from(piece));
        segment.fragment_id = if streaming { 0 } else { (count - i - 1) as u8 };
        let ghost added = segment@;
        proof {
            assert(added == fragment(tail@, mss as nat, count as nat, streaming, i as int));
            assert(sendable(added));
        }
        queue.push_back(segment);
        proof {
            let all = fragments(tail@, mss as nat, streaming);
            assert(views(queue@) =~= before.push(added));
            assert(all.take(i as int + 1) =~= all.take(i as int).push(added));
            assert(views(queue@) =~= topped + all.take(i as int + 1));
            assert forall|j: int| 0 <= j < queue@.len() implies sendable(
                #[trigger] views(queue@)[j],
            ) by {
                if j < before.len() {
                    assert(views(queue@)[j] == before[j]);
                }
            }
            if i + 1 < count {
                lemma_fragment_bounds(rest as int, mss as int, count as int, i as int + 1);
            }
        }
        offset = offset + size;
        i = i + 1;
    }
    proof {
        let all = fragments(tail@, mss as nat, streaming);
        assert(all.take(count as int) =~= all);
    }
    Ok(())
}

} // verus!
