//! What transfers achieve: an honest sender's file arrives whole, in whatever order
//! its chunks come.

use vstd::prelude::*;
use super::{
    after_chunk, flushed, is_chunk_step, is_reply, lemma_refill, lemma_refill_below,
    message_received, opens, refill, request_limit, started, ChunkStep, FlushEnd, ReceiverStep,
    ReceiverView, StepEnd, TransferError, TransferMessage, CHUNK_SIZE, WINDOW,
};
use crate::file_bytes::{
    blake3_hex, chunk_at, chunk_end, law_chunks_make_up_the_content, BytesView,
};
use crate::ids::{FileId, TransferId};
use crate::state::SyncMessage;

verus! {

/// Whether an offset begins a chunk.
pub open spec fn begins_chunk(offset: u64) -> bool {
    offset % 65536 == 0
}

/// What an honest sender of a content replies to a request.
pub open spec fn honest_reply(content: Seq<u8>, offset: u64) -> (Seq<u8>, bool) {
    (
        chunk_at(content, offset as int, CHUNK_SIZE as int),
        chunk_end(content.len() as int, offset as int, CHUNK_SIZE as int) == content.len(),
    )
}

/// Whether all replies that came early are honest.
pub open spec fn all_honest(content: Seq<u8>, pending: Map<u64, (Seq<u8>, bool)>) -> bool {
    forall|k: u64| #[trigger]
        pending.contains_key(k) ==> pending[k] == honest_reply(content, k)
}

/// Whether a receiver is under way to a content, with the requests in `open`
/// unanswered.
pub open spec fn under_way(r: ReceiverView, content: Seq<u8>, open: Set<u64>) -> bool {
    &&& content.len() + CHUNK_SIZE <= u64::MAX
    &&& r.expected_size == 0 || r.expected_size >= content.len()
    &&& r.written == content.take(r.written.len() as int)
    &&& r.written.len() < content.len() || (r.written.len() == 0 && content.len() == 0)
    &&& r.written.len() % 65536 == 0
    &&& r.pending.dom().finite()
    &&& all_honest(content, r.pending)
    &&& !r.pending.contains_key(r.written.len() as u64)
    &&& open.finite()
    &&& open.len() == r.in_flight
    &&& r.in_flight <= WINDOW
    &&& r.next_request > 0
    &&& begins_chunk(r.next_request)
    &&& forall|k: u64| #[trigger] open.contains(k) ==> begins_chunk(k) && k < r.next_request
    &&& forall|k: u64| #[trigger]
        begins_chunk(k) && k < r.next_request ==> open.contains(k) || k < r.written.len()
            || r.pending.contains_key(k)
    &&& r.in_flight == 0 ==> r.next_request >= content.len()
    &&& r.last_seen is Some ==> r.next_request >= content.len()
    &&& r.last_seen is None ==> forall|k: u64| #[trigger]
        begins_chunk(k) && k < r.next_request && !open.contains(k) ==> k + CHUNK_SIZE
            < content.len()
    &&& r.next_request <= request_bound(content)
}

/// No request is made from this offset on.
pub open spec fn request_bound(content: Seq<u8>) -> int {
    content.len() + (WINDOW + 1) * CHUNK_SIZE
}

/// A bound on the replies that a transfer under way may still wait for.
pub open spec fn replies_left(r: ReceiverView, content: Seq<u8>) -> int {
    2 * ((request_bound(content) - r.next_request) / CHUNK_SIZE as int) + r.in_flight
}

/// The requests below an offset reach at most a window beyond the content, where all
/// that reach beyond it are open.
proof fn lemma_request_bound(content: Seq<u8>, next: u64, open: Set<u64>)
    requires
        content.len() + CHUNK_SIZE <= u64::MAX,
        open.finite(),
        open.len() <= WINDOW,
        begins_chunk(next),
        forall|k: u64| #[trigger]
            begins_chunk(k) && k < next && !open.contains(k) ==> k + CHUNK_SIZE < content.len(),
    ensures
        next <= request_bound(content),
{
    if next > request_bound(content) {
        let e = ((content.len() as int + 65535) / 65536) * 65536;
        assert(content.len() <= e < content.len() + 65536);
        assert(e % 65536 == 0);
        let beyond = Seq::new(9, |i: int| (e + i * 65536) as u64);
        assert forall|i: int| 0 <= i < 9 implies open.contains(#[trigger] beyond[i]) by {
            assert(beyond[i] == e + i * 65536);
            assert(begins_chunk(beyond[i]));
            assert(beyond[i] < next);
        }
        assert(beyond.no_duplicates());
        beyond.unique_seq_to_set();
        vstd::seq_lib::seq_to_set_is_finite(beyond);
        assert(beyond.to_set().subset_of(open)) by {
            assert forall|k: u64| #[trigger] beyond.to_set().contains(k) implies open.contains(
                k,
            ) by {
                assert(beyond.contains(k));
            }
        }
        vstd::set_lib::lemma_len_subset(beyond.to_set(), open);
    }
}

/// A receiver under way never stalls: it has a request in flight.
pub proof fn law_never_stalls(r: ReceiverView, content: Seq<u8>, open: Set<u64>)
    requires
        under_way(r, content, open),
    ensures
        r.in_flight > 0,
        exists|k: u64| open.contains(k),
{
    if r.in_flight == 0 {
        let w = r.written.len() as u64;
        assert(open =~= Set::empty());
        assert(begins_chunk(w));
        assert(w < r.next_request);
    }
    assert(open.len() > 0);
    if forall|k: u64| !open.contains(k) {
        assert(open =~= Set::empty());
    }
}

proof fn lemma_flush(written: Seq<u8>, pending: Map<u64, (Seq<u8>, bool)>, content: Seq<u8>)
    requires
        content.len() + CHUNK_SIZE <= u64::MAX,
        written == content.take(written.len() as int),
        written.len() < content.len() || (written.len() == 0 && content.len() == 0),
        written.len() % 65536 == 0,
        pending.dom().finite(),
        all_honest(content, pending),
    ensures
        ({
            let (after, rest, end) = flushed(written, pending);
            &&& rest.dom().finite()
            &&& all_honest(content, rest)
            &&& match end {
                FlushEnd::TooLong => false,
                FlushEnd::Final => after == content,
                FlushEnd::Gap => {
                    &&& after == content.take(after.len() as int)
                    &&& after.len() < content.len() || (after.len() == 0 && content.len() == 0)
                    &&& after.len() % 65536 == 0
                    &&& after.len() >= written.len()
                    &&& !rest.contains_key(after.len() as u64)
                    &&& forall|k: u64| #[trigger]
                        pending.contains_key(k) ==> rest.contains_key(k) || k < after.len()
                },
            }
        }),
    decreases pending.dom().len(),
{
    let offset = written.len() as u64;
    if pending.contains_key(offset) {
        let (bytes, last) = pending[offset];
        let rest = pending.remove(offset);
        assert(pending[offset] == honest_reply(content, offset));
        law_chunks_make_up_the_content(content, offset as int, CHUNK_SIZE as int);
        assert(rest.dom() =~= pending.dom().remove(offset));
        assert forall|k: u64| #[trigger] rest.contains_key(k) implies rest[k] == honest_reply(
            content,
            k,
        ) by {
            assert(pending.contains_key(k));
        }
        let end = chunk_end(content.len() as int, offset as int, CHUNK_SIZE as int);
        assert(written + bytes == content.take(end));
        if last {
            assert(content.take(content.len() as int) =~= content);
        } else {
            assert(end == offset + CHUNK_SIZE);
            lemma_flush(written + bytes, rest, content);
            let (after, left, how) = flushed(written + bytes, rest);
            if how is Gap {
                assert forall|k: u64| #[trigger] pending.contains_key(k) implies left.contains_key(
                    k,
                ) || k < after.len() by {
                    if k != offset {
                        assert(rest.contains_key(k));
                    }
                }
            }
        }
    }
}

/// What a refill requests and leaves.
proof fn lemma_refill_covers(next: u64, in_flight: u64, limit: u64)
    requires
        in_flight <= WINDOW,
        begins_chunk(next),
    ensures
        ({
            let offsets = refill(next, in_flight, limit);
            let after = next + offsets.len() * CHUNK_SIZE;
            &&& after <= u64::MAX
            &&& after % 65536 == 0
            &&& in_flight + offsets.len() <= WINDOW
            &&& offsets.no_duplicates()
            &&& forall|k: u64| #[trigger]
                offsets.contains(k) <==> begins_chunk(k) && next <= k < after
            &&& in_flight + offsets.len() == WINDOW || after >= limit || after + CHUNK_SIZE
                > u64::MAX
        }),
    decreases WINDOW - in_flight,
{
    let offsets = refill(next, in_flight, limit);
    if in_flight < WINDOW && next < limit && next + CHUNK_SIZE <= u64::MAX {
        let then = (next + CHUNK_SIZE) as u64;
        let rest = refill(then, (in_flight + 1) as u64, limit);
        lemma_refill_covers(then, (in_flight + 1) as u64, limit);
        let after = next + offsets.len() * CHUNK_SIZE;
        assert(offsets =~= seq![next] + rest);
        assert(then + rest.len() * CHUNK_SIZE == after) by (nonlinear_arith)
            requires
                then == next + CHUNK_SIZE,
                offsets.len() == 1 + rest.len(),
                after == next + offsets.len() * CHUNK_SIZE,
        ;
        assert forall|k: u64| #[trigger] offsets.contains(k) <==> begins_chunk(k) && next <= k
            < after by {
            if offsets.contains(k) {
                let i = choose|i: int| 0 <= i < offsets.len() && offsets[i] == k;
                if i > 0 {
                    assert(rest[i - 1] == k);
                    assert(rest.contains(k));
                }
            }
            if begins_chunk(k) && next <= k < after {
                if k == next {
                    assert(offsets[0] == k);
                } else {
                    assert(then <= k);
                    assert(rest.contains(k));
                    let i = choose|i: int| 0 <= i < rest.len() && rest[i] == k;
                    assert(offsets[i + 1] == k);
                }
            }
        }
        assert(!rest.contains(next));
        assert forall|i: int, j: int|
            0 <= i < offsets.len() && 0 <= j < offsets.len() && i != j implies offsets[i]
            != offsets[j] by {
            if i == 0 {
                assert(rest[j - 1] == offsets[j]);
                assert(rest.contains(offsets[j]));
            } else if j == 0 {
                assert(rest[i - 1] == offsets[i]);
                assert(rest.contains(offsets[i]));
            } else {
                assert(rest[i - 1] != rest[j - 1]);
            }
        }
    } else {
        assert(offsets =~= Seq::empty());
    }
}

/// A transfer that was just started is under way to the content of an honest sender.
pub proof fn law_start_is_under_way(
    content: Seq<u8>,
    content_hash: Seq<char>,
    expected_size: u64,
)
    requires
        content.len() + CHUNK_SIZE <= u64::MAX,
        expected_size == 0 || expected_size >= content.len(),
    ensures
        under_way(
            started(content_hash, expected_size),
            content,
            refill(0, 0, request_limit(expected_size, false)).to_set(),
        ),
{
    let r = started(content_hash, expected_size);
    let limit = request_limit(expected_size, false);
    let offsets = refill(0, 0, limit);
    let open = offsets.to_set();
    lemma_refill_covers(0, 0, limit);
    offsets.unique_seq_to_set();
    vstd::seq_lib::seq_to_set_is_finite(offsets);
    assert(begins_chunk(0));
    assert(offsets.len() > 0);
    assert(content.take(0) =~= Seq::<u8>::empty());
    assert forall|k: u64| #[trigger] open.contains(k) implies begins_chunk(k) && k
        < r.next_request by {
        assert(offsets.contains(k));
    }
    assert forall|k: u64| #[trigger] begins_chunk(k) && k < r.next_request implies open.contains(
        k,
    ) by {
        assert(offsets.contains(k));
    }
}

/// An honest reply to any of the requests in flight keeps a transfer under way or
/// finishes it, and what it has written when it finishes is the sender's content.
pub proof fn law_honest_reply_makes_progress(
    r: ReceiverView,
    content: Seq<u8>,
    open: Set<u64>,
    offset: u64,
)
    requires
        under_way(r, content, open),
        open.contains(offset),
    ensures
        ({
            let (bytes, last) = honest_reply(content, offset);
            let (after, offsets, end) = after_chunk(r, offset, bytes, last);
            match end {
                StepEnd::Waiting => {
                    &&& under_way(after, content, open.remove(offset) + offsets.to_set())
                    &&& after.written.len() >= r.written.len()
                    &&& replies_left(after, content) < replies_left(r, content)
                },
                StepEnd::Finished { .. } => after.written == content,
                StepEnd::Incomplete => false,
                StepEnd::TooLong => false,
            }
        }),
{
    let (bytes, last) = honest_reply(content, offset);
    let start = r.pending.insert(offset, (bytes, last));
    assert(start.dom() =~= r.pending.dom().insert(offset));
    assert forall|k: u64| #[trigger] start.contains_key(k) implies start[k] == honest_reply(
        content,
        k,
    ) by {
        if k != offset {
            assert(r.pending.contains_key(k));
        }
    }
    lemma_flush(r.written, start, content);
    let (written, pending, how) = flushed(r.written, start);
    let (after, offsets, end) = after_chunk(r, offset, bytes, last);
    let in_flight = (r.in_flight - 1) as u64;
    let left = open.remove(offset);
    assert(open.len() > 0);
    assert(r.in_flight > 0);
    assert(left.len() == in_flight);
    if how is Gap {
        assert forall|k: u64| #[trigger] begins_chunk(k) && k < r.next_request implies left.contains(
            k,
        ) || k < written.len() || pending.contains_key(k) by {
            if k == offset {
                assert(start.contains_key(k));
            } else if r.pending.contains_key(k) {
                assert(start.contains_key(k));
            } else {
                assert(open.contains(k) || k < r.written.len());
            }
        }
        let w = written.len() as u64;
        assert(begins_chunk(w));
        let last_seen = if last {
            Some(offset)
        } else {
            r.last_seen
        };
        if last {
            assert(offset + CHUNK_SIZE >= content.len());
            assert(r.next_request >= offset + CHUNK_SIZE) by {
                assert(begins_chunk(offset) && begins_chunk(r.next_request) && offset
                    < r.next_request);
            }
        }
        if last_seen is Some {
            assert(r.next_request >= content.len());
            if in_flight == 0 {
                assert(left =~= Set::empty());
                assert(w < r.next_request);
                assert(false);
            }
            assert(offsets =~= Seq::<u64>::empty());
            assert(left + offsets.to_set() =~= left);
            assert(end is Waiting);
            assert(under_way(after, content, left));
        } else {
            let more = r.more || !last;
            assert(more);
            let limit = request_limit(r.expected_size, more);
            lemma_refill_covers(r.next_request, in_flight, limit);
            let fresh = offsets.to_set();
            offsets.unique_seq_to_set();
            vstd::seq_lib::seq_to_set_is_finite(offsets);
            let now_open = left + fresh;
            assert(left.disjoint(fresh)) by {
                assert forall|k: u64| !(left.contains(k) && fresh.contains(k)) by {
                    if left.contains(k) && fresh.contains(k) {
                        assert(open.contains(k));
                        assert(offsets.contains(k));
                    }
                }
            }
            vstd::set_lib::lemma_set_disjoint_lens(left, fresh);
            assert(now_open.len() == after.in_flight);
            assert forall|k: u64| #[trigger] now_open.contains(k) implies begins_chunk(k) && k
                < after.next_request by {
                if left.contains(k) {
                    assert(open.contains(k));
                } else {
                    assert(offsets.contains(k));
                }
            }
            assert forall|k: u64| #[trigger] begins_chunk(k) && k
                < after.next_request implies now_open.contains(k) || k < written.len()
                || pending.contains_key(k) by {
                if k < r.next_request {
                    assert(left.contains(k) || k < written.len() || pending.contains_key(k));
                } else {
                    assert(offsets.contains(k));
                }
            }
            assert(offset + CHUNK_SIZE < content.len());
            assert forall|k: u64| #[trigger]
                begins_chunk(k) && k < after.next_request && !now_open.contains(k) implies k
                + CHUNK_SIZE < content.len() by {
                if k < r.next_request {
                    assert(!left.contains(k));
                    assert(k == offset || !open.contains(k));
                } else {
                    assert(offsets.contains(k));
                }
            }
            lemma_request_bound(content, after.next_request, now_open);
            assert(under_way(after, content, now_open));
        }
    }
}

/// Whether each of the offsets in turn is one that the receiver waits for, as long as
/// the transfer goes on. Honest replies arrive in this order.
pub open spec fn answers_requests(
    r: ReceiverView,
    content: Seq<u8>,
    open: Set<u64>,
    order: Seq<u64>,
) -> bool
    decreases order.len(),
{
    order.len() == 0 || {
        let (bytes, last) = honest_reply(content, order[0]);
        let (after, offsets, end) = after_chunk(r, order[0], bytes, last);
        &&& open.contains(order[0])
        &&& end is Waiting ==> answers_requests(
            after,
            content,
            open.remove(order[0]) + offsets.to_set(),
            order.skip(1),
        )
    }
}

/// What the receiver has written when the transfer finishes, if it finishes within
/// these replies.
pub open spec fn delivered(r: ReceiverView, content: Seq<u8>, order: Seq<u64>) -> Option<Seq<u8>>
    decreases order.len(),
{
    if order.len() == 0 {
        None
    } else {
        let (bytes, last) = honest_reply(content, order[0]);
        let (after, offsets, end) = after_chunk(r, order[0], bytes, last);
        match end {
            StepEnd::Waiting => delivered(after, content, order.skip(1)),
            StepEnd::Finished { .. } => Some(after.written),
            _ => None,
        }
    }
}

proof fn lemma_delivered(r: ReceiverView, content: Seq<u8>, open: Set<u64>, order: Seq<u64>)
    requires
        under_way(r, content, open),
        answers_requests(r, content, open, order),
        order.len() > replies_left(r, content),
    ensures
        delivered(r, content, order) == Some(content),
    decreases order.len(),
{
    assert(replies_left(r, content) >= 0);
    law_honest_reply_makes_progress(r, content, open, order[0]);
    let (bytes, last) = honest_reply(content, order[0]);
    let (after, offsets, end) = after_chunk(r, order[0], bytes, last);
    if end is Waiting {
        lemma_delivered(
            after,
            content,
            open.remove(order[0]) + offsets.to_set(),
            order.skip(1),
        );
    }
}

/// A transfer from an honest sender completes: in whatever order the replies to its
/// requests come, it finishes after a number of replies that the size bounds, and what
/// was written is the sender's content.
pub proof fn law_honest_transfer_completes(
    content: Seq<u8>,
    content_hash: Seq<char>,
    expected_size: u64,
    order: Seq<u64>,
)
    requires
        content.len() + CHUNK_SIZE <= u64::MAX,
        expected_size == 0 || expected_size >= content.len(),
        answers_requests(
            started(content_hash, expected_size),
            content,
            refill(0, 0, request_limit(expected_size, false)).to_set(),
            order,
        ),
        order.len() > 2 * (content.len() / CHUNK_SIZE as nat) + 3 * WINDOW + 2,
    ensures
        delivered(started(content_hash, expected_size), content, order) == Some(content),
{
    let r = started(content_hash, expected_size);
    let limit = request_limit(expected_size, false);
    let open = refill(0, 0, limit).to_set();
    lemma_refill_covers(0, 0, limit);
    law_start_is_under_way(content, content_hash, expected_size);
    assert(replies_left(r, content) <= 2 * (content.len() / CHUNK_SIZE as nat) + 3 * WINDOW + 2);
    lemma_delivered(r, content, open, order);
}

/// A content is accepted just where its digest is the expected one, and a finished transfer of
/// another is refused with both digests. Nothing changes what is expected.
pub proof fn law_only_the_expected_content_is_accepted(
    before: ReceiverView,
    after: ReceiverView,
    message: TransferMessage,
    step: ReceiverStep,
)
    requires
        message_received(before, after, message, step),
    ensures
        after.content_hash == before.content_hash,
        after.expected_size == before.expected_size,
        after.written == before.written + step.write@,
        step.outcome matches Some(Ok(())) ==> message is Chunk && blake3_hex(
            before.written + step.write@,
        ) == before.content_hash,
        step.outcome matches Some(Err(TransferError::HashMismatch { expected, actual }))
            ==> expected@ == before.content_hash && actual@ == blake3_hex(
            before.written + step.write@,
        ) && expected@ != actual@,
        message matches TransferMessage::Abort { reason } ==> step.outcome
            == Some::<Result<(), TransferError>>(Err(TransferError::Aborted(reason)))
            && step.send@.len() == 0 && after == before,
        message is Start || message is ChunkRequest ==> step.outcome is None && step.send@.len()
            == 0 && after == before,
{
    if !(message is Chunk) {
        assert(before.written + step.write@ =~= before.written);
    }
}

proof fn lemma_flushed_extends(written: Seq<u8>, pending: Map<u64, (Seq<u8>, bool)>)
    requires
        pending.dom().finite(),
    ensures
        written.is_prefix_of(flushed(written, pending).0),
    decreases pending.dom().len(),
{
    let offset = written.len() as u64;
    if pending.contains_key(offset) {
        let (bytes, last) = pending[offset];
        let rest = pending.remove(offset);
        if written.len() + bytes.len() <= u64::MAX && !last {
            assert(rest.dom() =~= pending.dom().remove(offset));
            lemma_flushed_extends(written + bytes, rest);
            assert(written.is_prefix_of(written + bytes));
            let all = flushed(written + bytes, rest).0;
            assert((written + bytes).is_prefix_of(all));
            assert(all.take(written.len() as int) =~= written) by {
                assert(all.take((written + bytes).len() as int) == written + bytes);
            }
        }
    }
}

/// The next chunk in order is written where it belongs, and finishes the transfer if it is
/// the last. A chunk that comes early is kept, and nothing is written before its turn.
pub proof fn law_chunks_are_written_in_order(
    before: ReceiverView,
    after: ReceiverView,
    offset: u64,
    bytes: Vec<u8>,
    last: bool,
    step: ReceiverStep,
)
    requires
        message_received(before, after, TransferMessage::Chunk { offset, bytes, last }, step),
        before.pending.dom().finite(),
        !before.pending.contains_key(before.written.len() as u64),
        before.written.len() + bytes@.len() <= u64::MAX,
    ensures
        offset == before.written.len() ==> bytes@.is_prefix_of(step.write@),
        offset == before.written.len() && last ==> step.write@ == bytes@ && step.outcome is Some,
        offset != before.written.len() ==> step.write@.len() == 0 && after.pending
            == before.pending.insert(offset, (bytes@, last)),
{
    let start = before.pending.insert(offset, (bytes@, last));
    let written = before.written;
    let at = written.len() as u64;
    assert(start.dom() =~= before.pending.dom().insert(offset));
    if offset == written.len() {
        assert(start.remove(offset).dom() =~= start.dom().remove(offset));
        let (all, rest, end) = flushed(written, start);
        if last {
            assert(all == written + bytes@);
            assert(step.write@ =~= bytes@) by {
                assert(written + step.write@ == written + bytes@);
                assert(step.write@ =~= (written + step.write@).skip(written.len() as int));
                assert(bytes@ =~= (written + bytes@).skip(written.len() as int));
            }
        } else {
            lemma_flushed_extends(written + bytes@, start.remove(offset));
            assert((written + bytes@).is_prefix_of(all));
            assert(all == written + step.write@);
            assert(bytes@.is_prefix_of(step.write@)) by {
                assert(bytes@ =~= step.write@.take(bytes@.len() as int)) by {
                    assert(all.take((written + bytes@).len() as int) == written + bytes@);
                    assert forall|i: int| 0 <= i < bytes@.len() implies bytes@[i]
                        == #[trigger] step.write@[i] by {
                        assert((written + bytes@)[written.len() + i] == bytes@[i]);
                        assert(all[written.len() + i] == step.write@[i]);
                        assert(all.take((written + bytes@).len() as int)[written.len() + i]
                            == all[written.len() + i]);
                    }
                }
            }
        }
    } else if written.len() <= u64::MAX {
        assert(at == written.len());
        assert(!start.contains_key(at));
        assert(written + step.write@ == written);
        assert((written + step.write@).len() == written.len());
    }
}

/// A transfer opens with the very version that is wanted, and with as many requests as the
/// window and the size allow, one for each chunk from the first on.
pub proof fn law_a_transfer_opens_with_what_is_wanted(
    file_id: FileId,
    content_hash: String,
    expected_size: u64,
    receiver: ReceiverView,
    messages: Seq<TransferMessage>,
)
    requires
        opens(file_id, content_hash, expected_size, receiver, messages),
    ensures
        ({
            let size: int = if expected_size == 0 {
                1
            } else {
                expected_size as int
            };
            let n = messages.len() - 1;
            &&& messages[0] == (TransferMessage::Start { file_id, content_hash })
            &&& 1 <= n <= 8
            &&& receiver.in_flight == n
            &&& receiver.next_request == n * 65536
            &&& receiver.content_hash == content_hash@
            &&& receiver.written.len() == 0
            &&& forall|i: int|
                1 <= i <= n ==> #[trigger] messages[i] == (TransferMessage::ChunkRequest {
                    offset: ((i - 1) * 65536) as u64,
                }) && (i - 1) * 65536 < size
            &&& n < 8 ==> n * 65536 >= size || n * 65536 + 65536 > u64::MAX
        }),
{
    let limit = request_limit(expected_size, false);
    let offsets = refill(0, 0, limit);
    lemma_refill(0, 0, limit);
    lemma_refill_below(0, 0, limit);
    lemma_refill_fills(0, 0, limit);
    let asked = messages.skip(1);
    assert forall|i: int| 1 <= i <= messages.len() - 1 implies #[trigger] messages[i] == (
    TransferMessage::ChunkRequest { offset: ((i - 1) * 65536) as u64 }) && (i - 1) * 65536
        < limit by {
        assert(messages[i] == asked[i - 1]);
        assert(offsets[i - 1] == (i - 1) * CHUNK_SIZE);
    }
}

proof fn lemma_refill_fills(next: u64, in_flight: u64, limit: u64)
    requires
        in_flight <= WINDOW,
    ensures
        ({
            let n = refill(next, in_flight, limit).len();
            in_flight + n < WINDOW ==> next + n * CHUNK_SIZE >= limit || next + n * CHUNK_SIZE
                + CHUNK_SIZE > u64::MAX
        }),
        next < limit && in_flight < WINDOW && next + CHUNK_SIZE <= u64::MAX ==> refill(
            next,
            in_flight,
            limit,
        ).len() > 0,
    decreases WINDOW - in_flight,
{
    if in_flight < WINDOW && next < limit && next + CHUNK_SIZE <= u64::MAX {
        lemma_refill_fills((next + CHUNK_SIZE) as u64, (in_flight + 1) as u64, limit);
        lemma_refill((next + CHUNK_SIZE) as u64, (in_flight + 1) as u64, limit);
    }
}

/// A receiver that waits for more keeps its window full: it asks for the chunks that come
/// next, one after the other, as long as fewer than eight requests wait for their reply and
/// the end is not reached, and for nothing once a last chunk was seen.
pub proof fn law_the_window_is_kept_full(
    before: ReceiverView,
    after: ReceiverView,
    offset: u64,
    bytes: Vec<u8>,
    last: bool,
    step: ReceiverStep,
)
    requires
        message_received(before, after, TransferMessage::Chunk { offset, bytes, last }, step),
        0 < before.in_flight <= 8,
        step.outcome is None,
    ensures
        ({
            let n = step.send@.len();
            let unbounded = before.expected_size == 0 && (before.more || !last);
            &&& forall|i: int|
                0 <= i < n ==> #[trigger] step.send@[i] == (TransferMessage::ChunkRequest {
                    offset: (before.next_request + i * 65536) as u64,
                }) && (before.expected_size > 0 ==> before.next_request + i * 65536
                    < before.expected_size)
            &&& after.in_flight == before.in_flight - 1 + n
            &&& after.in_flight <= 8
            &&& last || before.last_seen is Some ==> n == 0
            &&& !last && before.last_seen is None && after.in_flight < 8 ==> {
                ||| after.next_request + 65536 > u64::MAX
                ||| !unbounded && after.next_request >= before.expected_size
            }
        }),
{
    let in_flight = (before.in_flight - 1) as u64;
    let more = before.more || !last;
    let limit = request_limit(before.expected_size, more);
    let offsets = refill(before.next_request, in_flight, limit);
    lemma_refill(before.next_request, in_flight, limit);
    lemma_refill_below(before.next_request, in_flight, limit);
    lemma_refill_fills(before.next_request, in_flight, limit);
    if !last && before.last_seen is None {
        assert forall|i: int| 0 <= i < step.send@.len() implies #[trigger] step.send@[i] == (
        TransferMessage::ChunkRequest { offset: (before.next_request + i * 65536) as u64 }) && (
        before.expected_size > 0 ==> before.next_request + i * 65536 < before.expected_size) by {
            assert(offsets[i] == before.next_request + i * CHUNK_SIZE);
        }
    }
}

/// The sender of a content answers a request for an offset with the bytes that stand there, as
/// many as a chunk holds, and says whether the content ends with them.
pub proof fn law_the_sender_answers_what_was_asked(
    content: Seq<u8>,
    offset: u64,
    step: ChunkStep,
    message: TransferMessage,
    ends: bool,
)
    requires
        content.len() <= u64::MAX,
        is_chunk_step(BytesView::InMemory(content), offset, CHUNK_SIZE, step),
        step is Ready,
        is_reply(offset, Ok((step->bytes, step->last)), message, ends),
    ensures
        !ends,
        message matches TransferMessage::Chunk { offset: at, bytes, last } && at == offset && (
        forall|i: int|
            0 <= i < bytes@.len() ==> #[trigger] bytes@[i] == content[offset + i]) && (
        offset as int + 65536 <= content.len() ==> bytes@.len() == 65536) && (offset as int + 65536
            > content.len() && offset <= content.len() ==> bytes@.len() == content.len() - offset)
            && (offset > content.len() ==> bytes@.len() == 0) && last == (offset + 65536
            >= content.len()),
{
}

/// Bytes on disk are read from where they lie, at just the offset that was asked for. What
/// cannot be read ends the transfer, and the receiver learns of it.
pub proof fn law_unreadable_bytes_end_the_transfer(
    source: BytesView,
    offset: u64,
    step: ChunkStep,
    error: String,
    message: TransferMessage,
    ends: bool,
    before: ReceiverView,
    after: ReceiverView,
    received: ReceiverStep,
)
    requires
        is_chunk_step(source, offset, CHUNK_SIZE, step),
        !(source is InMemory),
        is_reply(offset, Err::<(Vec<u8>, bool), String>(error), message, ends),
        message_received(before, after, message, received),
    ensures
        step matches ChunkStep::ReadFile { path, offset: at, max_len } && at == offset && max_len
            == 65536 && match source {
            BytesView::FileToCopy(p) => path@ == p,
            BytesView::FileToMove(p) => path@ == p,
            BytesView::InMemory(_) => false,
        },
        ends,
        received.outcome matches Some(Err(TransferError::Aborted(_))),
{
}

/// On the wire a message keeps everything that it says, under its transfer.
pub proof fn law_the_wire_keeps_messages(message: TransferMessage, transfer_id: TransferId)
    ensures
        match (message, message.wire(transfer_id)) {
            (
                TransferMessage::Start { file_id, content_hash },
                SyncMessage::TransferStart { transfer_id: t, file_id: f, content_hash: h },
            ) => t == transfer_id && f == file_id && h@ == content_hash@,
            (
                TransferMessage::ChunkRequest { offset },
                SyncMessage::TransferChunkRequest { transfer_id: t, offset: o },
            ) => t == transfer_id && o == offset,
            (
                TransferMessage::Chunk { offset, bytes, last },
                SyncMessage::TransferChunk { transfer_id: t, offset: o, bytes: b, last: l },
            ) => t == transfer_id && o == offset && b@ == bytes@ && l == last,
            (
                TransferMessage::Abort { reason },
                SyncMessage::TransferAbort { transfer_id: t, reason: why },
            ) => t == transfer_id && why@ == reason@,
            _ => false,
        },
{
}

/// A receiver that has the whole content stops the sender where requests still wait for their
/// reply, and else says nothing; one that gives up says nothing either.
pub proof fn law_a_finished_receiver_stops_the_sender(
    before: ReceiverView,
    after: ReceiverView,
    message: TransferMessage,
    step: ReceiverStep,
)
    requires
        message_received(before, after, message, step),
        step.outcome is Some,
    ensures
        step.outcome matches Some(Err(TransferError::Aborted(_))) ==> step.send@.len() == 0,
        !(step.outcome matches Some(Err(TransferError::Aborted(_)))) ==> {
            &&& before.in_flight > 1 ==> step.send@.len() == 1 && step.send@[0] is Abort
            &&& before.in_flight <= 1 ==> step.send@.len() == 0
        },
{
}

/// The messages of transfers are told apart from all others on the wire.
pub proof fn law_transfer_messages_are_told_apart(
    message: TransferMessage,
    transfer_id: TransferId,
    other: SyncMessage,
)
    ensures
        TransferMessage::is_transfer(message.wire(transfer_id)),
        TransferMessage::is_transfer(other) <==> match other {
            SyncMessage::TransferStart { .. } => true,
            SyncMessage::TransferChunkRequest { .. } => true,
            SyncMessage::TransferChunk { .. } => true,
            SyncMessage::TransferAbort { .. } => true,
            _ => false,
        },
{
}

/// A receiver gives up where the sender has sent its last chunk, no request waits for its
/// reply and a chunk in front is still missing.
pub proof fn law_a_missing_chunk_fails_the_transfer(
    before: ReceiverView,
    after: ReceiverView,
    offset: u64,
    bytes: Vec<u8>,
    last: bool,
    step: ReceiverStep,
    end: u64,
)
    requires
        message_received(before, after, TransferMessage::Chunk { offset, bytes, last }, step),
        before.in_flight <= 1,
        last ==> end == offset,
        !last ==> before.last_seen == Some(end),
        (before.written + step.write@).len() <= end,
        flushed(before.written, before.pending.insert(offset, (bytes@, last))).2 is Gap,
    ensures
        step.outcome matches Some(Err(TransferError::Aborted(_))),
{
}

} // verus!
