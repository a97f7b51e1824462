//! Pull-based transfer of a file over one peer link.
//!
//! The receiver drives: it opens the transfer, keeps a window of chunk requests in
//! flight, puts the replies in order, and checks the digest of the whole. The sender
//! only answers. Both are machines that take a message and say what to do.

use vstd::prelude::*;
use crate::file_bytes::{
    blake3_hex, chunk_at, chunk_end, finish_hasher, hashed, new_hasher, update_hasher, BytesView,
    FileBytes,
};
use crate::ids::{FileId, TransferId};
use crate::state::SyncMessage;
use crate::table::Table;
use crate::text::{joined, same_text};

pub mod laws;

verus! {

/// Bytes per chunk.
pub const CHUNK_SIZE: usize = 65536;

/// How many chunk requests a receiver keeps in flight.
pub const WINDOW: u64 = 8;

/// A message of one transfer. The transfer itself is named by the channel.
#[derive(Debug, PartialEq, Eq)]
pub enum TransferMessage {
    /// Receiver to sender: open the transfer.
    Start { file_id: FileId, content_hash: String },
    /// Receiver to sender: send the chunk at `offset`.
    ChunkRequest { offset: u64 },
    /// Sender to receiver: the bytes at `offset`; `last` marks the final chunk.
    Chunk { offset: u64, bytes: Vec<u8>, last: bool },
    /// Either way: give up.
    Abort { reason: String },
}

impl TransferMessage {
    /// The wire form under a transfer.
    pub open spec fn wire(self, transfer_id: TransferId) -> SyncMessage {
        match self {
            TransferMessage::Start { file_id, content_hash } => SyncMessage::TransferStart {
                transfer_id,
                file_id,
                content_hash,
            },
            TransferMessage::ChunkRequest { offset } => SyncMessage::TransferChunkRequest {
                transfer_id,
                offset,
            },
            TransferMessage::Chunk { offset, bytes, last } => SyncMessage::TransferChunk {
                transfer_id,
                offset,
                bytes,
                last,
            },
            TransferMessage::Abort { reason } => SyncMessage::TransferAbort {
                transfer_id,
                reason,
            },
        }
    }

    /// The wire form under `transfer_id`.
    pub fn into_sync(self, transfer_id: TransferId) -> (r: SyncMessage)
        ensures
            r == self.wire(transfer_id),
    {
        match self {
            TransferMessage::Start { file_id, content_hash } => SyncMessage::TransferStart {
                transfer_id,
                file_id,
                content_hash,
            },
            TransferMessage::ChunkRequest { offset } => SyncMessage::TransferChunkRequest {
                transfer_id,
                offset,
            },
            TransferMessage::Chunk { offset, bytes, last } => SyncMessage::TransferChunk {
                transfer_id,
                offset,
                bytes,
                last,
            },
            TransferMessage::Abort { reason } => SyncMessage::TransferAbort {
                transfer_id,
                reason,
            },
        }
    }

    /// Whether a message of the wire belongs to a transfer.
    pub open spec fn is_transfer(sync: SyncMessage) -> bool {
        sync is TransferStart || sync is TransferChunkRequest || sync is TransferChunk
            || sync is TransferAbort
    }

    /// The transfer that a message of the wire belongs to, and the message in it.
    pub fn from_sync(sync: SyncMessage) -> (r: Option<(TransferId, TransferMessage)>)
        ensures
            match r {
                Some((transfer_id, message)) => message.wire(transfer_id) == sync,
                None => !TransferMessage::is_transfer(sync),
            },
    {
        match sync {
            SyncMessage::TransferStart { transfer_id, file_id, content_hash } => Some(
                (transfer_id, TransferMessage::Start { file_id, content_hash }),
            ),
            SyncMessage::TransferChunkRequest { transfer_id, offset } => Some(
                (transfer_id, TransferMessage::ChunkRequest { offset }),
            ),
            SyncMessage::TransferChunk { transfer_id, offset, bytes, last } => Some(
                (transfer_id, TransferMessage::Chunk { offset, bytes, last }),
            ),
            SyncMessage::TransferAbort { transfer_id, reason } => Some(
                (transfer_id, TransferMessage::Abort { reason }),
            ),
            _ => None,
        }
    }
}

/// No two messages of transfers have the same wire form: what one side writes, the
/// other side reads back.
pub proof fn law_wire_form_is_unambiguous(
    a: TransferMessage,
    x: TransferId,
    b: TransferMessage,
    y: TransferId,
)
    requires
        a.wire(x) == b.wire(y),
    ensures
        a == b,
        x == y,
{
}

/// Why a transfer failed.
#[derive(Debug, PartialEq, Eq)]
pub enum TransferError {
    /// The peer gave up, or the link went down.
    Aborted(String),
    /// The content does not have the expected digest.
    HashMismatch { expected: String, actual: String },
    /// The content could not be written.
    Io(String),
    /// The link closed too early.
    ChannelClosed,
}

impl TransferError {
    /// The error in words.
    pub open spec fn text(self) -> Seq<char> {
        match self {
            TransferError::Aborted(reason) => "transfer aborted: "@ + reason@,
            TransferError::HashMismatch { expected, actual } => "content hash mismatch: expected "@
                + expected@ + ", got "@ + actual@,
            TransferError::Io(error) => "transfer I/O error: "@ + error@,
            TransferError::ChannelClosed => "transfer channel closed early"@,
        }
    }

    /// The error in words.
    pub fn to_string(&self) -> (r: String)
        ensures
            r@ == self.text(),
    {
        match self {
            TransferError::Aborted(reason) => joined("transfer aborted: ", reason.as_str()),
            TransferError::HashMismatch { expected, actual } => {
                let start = joined("content hash mismatch: expected ", expected.as_str());
                let middle = joined(start.as_str(), ", got ");
                joined(middle.as_str(), actual.as_str())
            },
            TransferError::Io(error) => joined("transfer I/O error: ", error.as_str()),
            TransferError::ChannelClosed => "transfer channel closed early".to_owned(),
        }
    }

    /// What the peer is told when a receiver gives up.
    pub fn farewell(&self) -> (r: TransferMessage)
        ensures
            r matches TransferMessage::Abort { reason } && reason@ == self.text(),
    {
        TransferMessage::Abort { reason: self.to_string() }
    }
}

/// The outcome of a receiver's transfer.
#[derive(Debug, PartialEq, Eq)]
pub enum ReceiveOutcome {
    /// The content arrived and has the expected digest.
    Complete(FileBytes),
    /// The transfer failed.
    Failed(TransferError),
}

/// The mathematical value of a receiver.
#[verifier::ext_equal]
pub struct ReceiverView {
    /// The expected digest.
    pub content_hash: Seq<char>,
    /// The expected size, or 0 where it is not known.
    pub expected_size: u64,
    /// The offset that is requested next.
    pub next_request: u64,
    /// How many requests wait for their reply.
    pub in_flight: u64,
    /// The content put in order so far.
    pub written: Seq<u8>,
    /// The replies that came early, by offset.
    pub pending: Map<u64, (Seq<u8>, bool)>,
    /// The offset of a final chunk, once one was seen.
    pub last_seen: Option<u64>,
    /// Whether a chunk arrived that is not final.
    pub more: bool,
}

/// The offset before which requests may be made. An unknown size is first taken for
/// an empty file, which takes one request; once a chunk arrives that is not final,
/// there is no limit but that of offsets.
pub open spec fn request_limit(expected_size: u64, more: bool) -> u64 {
    if expected_size != 0 {
        expected_size
    } else if more {
        u64::MAX
    } else {
        1
    }
}

/// The offsets to request: as many as the window holds, one chunk apart, below
/// `limit`.
pub open spec fn refill(next: u64, in_flight: u64, limit: u64) -> Seq<u64>
    decreases WINDOW - in_flight,
{
    if in_flight < WINDOW && next < limit && next + CHUNK_SIZE <= u64::MAX {
        seq![next] + refill((next + CHUNK_SIZE) as u64, (in_flight + 1) as u64, limit)
    } else {
        Seq::empty()
    }
}

/// A receiver that was just started.
pub open spec fn started(content_hash: Seq<char>, expected_size: u64) -> ReceiverView {
    let offsets = refill(0, 0, request_limit(expected_size, false));
    ReceiverView {
        content_hash,
        expected_size,
        next_request: (offsets.len() * CHUNK_SIZE) as u64,
        in_flight: offsets.len() as u64,
        written: Seq::empty(),
        pending: Map::empty(),
        last_seen: None,
        more: false,
    }
}

/// How putting replies in order ends.
pub enum FlushEnd {
    /// The next chunk is missing.
    Gap,
    /// The final chunk was reached.
    Final,
    /// The content is longer than offsets can say.
    TooLong,
}

/// Puts replies in order behind `written`: the content then, the replies left over,
/// and how it ended.
pub open spec fn flushed(written: Seq<u8>, pending: Map<u64, (Seq<u8>, bool)>) -> (
    Seq<u8>,
    Map<u64, (Seq<u8>, bool)>,
    FlushEnd,
)
    decreases pending.dom().len(),
    when pending.dom().finite()
{
    let offset = written.len() as u64;
    if !pending.contains_key(offset) {
        (written, pending, FlushEnd::Gap)
    } else {
        let (bytes, last) = pending[offset];
        let rest = pending.remove(offset);
        if written.len() + bytes.len() > u64::MAX {
            (written, rest, FlushEnd::TooLong)
        } else if last {
            (written + bytes, rest, FlushEnd::Final)
        } else {
            flushed(written + bytes, rest)
        }
    }
}

/// What a receiver is told by a message that arrived.
pub enum StepEnd {
    /// Wait for the next message.
    Waiting,
    /// The final chunk was reached; tell the sender to stop where `abort` says so.
    Finished { abort: bool },
    /// The sender ended, and a chunk is missing.
    Incomplete,
    /// The content is longer than offsets can say.
    TooLong,
}

/// A receiver after a chunk arrived, the offsets it requests, and how it goes on.
pub open spec fn after_chunk(r: ReceiverView, offset: u64, bytes: Seq<u8>, last: bool) -> (
    ReceiverView,
    Seq<u64>,
    StepEnd,
) {
    let in_flight = if r.in_flight > 0 {
        (r.in_flight - 1) as u64
    } else {
        0
    };
    let last_seen = if last {
        Some(offset)
    } else {
        r.last_seen
    };
    let more = r.more || !last;
    let (written, pending, end) = flushed(r.written, r.pending.insert(offset, (bytes, last)));
    let next = ReceiverView { in_flight, last_seen, more, written, pending, ..r };
    match end {
        FlushEnd::TooLong => (next, Seq::empty(), StepEnd::TooLong),
        FlushEnd::Final => (next, Seq::empty(), StepEnd::Finished { abort: in_flight > 0 }),
        FlushEnd::Gap => match last_seen {
            None => {
                let offsets = refill(
                    r.next_request,
                    in_flight,
                    request_limit(r.expected_size, more),
                );
                (
                    ReceiverView {
                        next_request: (r.next_request + offsets.len() * CHUNK_SIZE) as u64,
                        in_flight: (in_flight + offsets.len()) as u64,
                        ..next
                    },
                    offsets,
                    StepEnd::Waiting,
                )
            },
            Some(last_offset) => if in_flight == 0 && written.len() <= last_offset {
                (next, Seq::empty(), StepEnd::Incomplete)
            } else {
                (next, Seq::empty(), StepEnd::Waiting)
            },
        },
    }
}

/// A receiver of one transfer.
pub struct Receiver {
    content_hash: String,
    expected_size: u64,
    next_request: u64,
    in_flight: u64,
    write_offset: u64,
    pending: Table<u64, (Vec<u8>, bool)>,
    last_seen: Option<u64>,
    more: bool,
    hasher: blake3::Hasher,
}

/// What a receiver does about a message.
#[derive(Debug, PartialEq, Eq)]
pub struct ReceiverStep {
    /// Bytes to append to the file.
    pub write: Vec<u8>,
    /// Messages to the sender.
    pub send: Vec<TransferMessage>,
    /// The outcome, once there is one. The content is then all that was written.
    pub outcome: Option<Result<(), TransferError>>,
}

/// Whether messages request chunks at some offsets.
pub open spec fn requests_at(messages: Seq<TransferMessage>, offsets: Seq<u64>) -> bool {
    messages =~= offsets.map_values(|offset: u64| TransferMessage::ChunkRequest { offset })
}

spec fn pending_view(pending: Map<u64, (Vec<u8>, bool)>) -> Map<u64, (Seq<u8>, bool)> {
    pending.map_values(|chunk: (Vec<u8>, bool)| (chunk.0@, chunk.1))
}

/// Whether a receiver step says what `after_chunk` says.
pub open spec fn is_step(
    before: ReceiverView,
    after: ReceiverView,
    offsets: Seq<u64>,
    end: StepEnd,
    step: ReceiverStep,
) -> bool {
    &&& after.written == before.written + step.write@
    &&& match end {
        StepEnd::Waiting => requests_at(step.send@, offsets) && step.outcome is None,
        StepEnd::Finished { abort } => {
            &&& if abort {
                step.send@.len() == 1 && (step.send@[0] matches TransferMessage::Abort { reason }
                    && reason@ == "transfer complete"@)
            } else {
                step.send@.len() == 0
            }
            &&& match step.outcome {
                Some(Ok(())) => blake3_hex(after.written) == before.content_hash,
                Some(Err(TransferError::HashMismatch { expected, actual })) => {
                    &&& expected@ == before.content_hash
                    &&& actual@ == blake3_hex(after.written)
                    &&& expected@ != actual@
                },
                _ => false,
            }
        },
        StepEnd::Incomplete => {
            &&& step.send@.len() == 0
            &&& step.outcome matches Some(Err(TransferError::Aborted(reason))) && reason@
                == "sender ended before all requested chunks arrived"@
        },
        StepEnd::TooLong => {
            &&& step.send@.len() == 0
            &&& step.outcome matches Some(Err(TransferError::Aborted(reason))) && reason@
                == "transfer exceeds the range of offsets"@
        },
    }
}

/// Whether a receiver and its first messages open a transfer of one version of a file.
pub open spec fn opens(
    file_id: FileId,
    content_hash: String,
    expected_size: u64,
    receiver: ReceiverView,
    messages: Seq<TransferMessage>,
) -> bool {
    let offsets = refill(0, 0, request_limit(expected_size, false));
    &&& receiver == started(content_hash@, expected_size)
    &&& messages.len() == 1 + offsets.len()
    &&& messages[0] == (TransferMessage::Start { file_id, content_hash })
    &&& requests_at(messages.skip(1), offsets)
}

/// Whether a message of the sender is taken in as it should be.
pub open spec fn message_received(
    before: ReceiverView,
    after: ReceiverView,
    message: TransferMessage,
    step: ReceiverStep,
) -> bool {
    match message {
        TransferMessage::Chunk { offset, bytes, last } => {
            let (next, offsets, end) = after_chunk(before, offset, bytes@, last);
            after == next && is_step(before, next, offsets, end, step)
        },
        TransferMessage::Abort { reason } => {
            &&& after == before
            &&& step.write@.len() == 0
            &&& step.send@.len() == 0
            &&& step.outcome == Some::<Result<(), TransferError>>(
                Err(TransferError::Aborted(reason)),
            )
        },
        _ => {
            &&& after == before
            &&& step.write@.len() == 0
            &&& step.send@.len() == 0
            &&& step.outcome is None
        },
    }
}

impl Receiver {
    #[verifier::type_invariant]
    spec fn inv(self) -> bool {
        &&& self.write_offset == hashed(self.hasher).len()
        &&& self.in_flight <= WINDOW
    }

    pub closed spec fn view(&self) -> ReceiverView {
        ReceiverView {
            content_hash: self.content_hash@,
            expected_size: self.expected_size,
            next_request: self.next_request,
            in_flight: self.in_flight,
            written: hashed(self.hasher),
            pending: pending_view(self.pending@),
            last_seen: self.last_seen,
            more: self.more,
        }
    }

    /// Opens a transfer: the receiver, and the messages that open it and fill the
    /// request window. `expected_size` is 0 where the size is not known.
    pub fn start(file_id: FileId, content_hash: String, expected_size: u64) -> (r: (
        Receiver,
        Vec<TransferMessage>,
    ))
        ensures
            ({
                let offsets = refill(0, 0, request_limit(expected_size, false));
                &&& r.0@ == started(content_hash@, expected_size)
                &&& r.1@.len() == 1 + offsets.len()
                &&& r.1@[0] == (TransferMessage::Start { file_id, content_hash })
                &&& requests_at(r.1@.skip(1), offsets)
            }),
            opens(file_id, content_hash, expected_size, r.0@, r.1@),
    {
        let mut messages: Vec<TransferMessage> = Vec::new();
        messages.push(TransferMessage::Start { file_id, content_hash: content_hash.clone() });
        let limit: u64 = if expected_size != 0 {
            expected_size
        } else {
            1
        };
        let ghost offsets = refill(0, 0, limit);
        let (next_request, in_flight) = request_more(0, 0, limit, &mut messages);
        assert(messages@.skip(1) =~= offsets.map_values(
            |offset: u64| TransferMessage::ChunkRequest { offset },
        ));
        proof {
            lemma_refill(0, 0, limit);
        }
        let pending: Table<u64, (Vec<u8>, bool)> = Table::new();
        assert(pending_view(pending@) =~= Map::<u64, (Seq<u8>, bool)>::empty());
        let receiver = Receiver {
            content_hash,
            expected_size,
            next_request,
            in_flight,
            write_offset: 0,
            pending,
            last_seen: None,
            more: false,
            hasher: new_hasher(),
        };
        (receiver, messages)
    }

    /// Takes in a message of the sender.
    pub fn receive(self, message: TransferMessage) -> (r: (Receiver, ReceiverStep))
        ensures
            match message {
                TransferMessage::Chunk { offset, bytes, last } => {
                    let (after, offsets, end) = after_chunk(self@, offset, bytes@, last);
                    r.0@ == after && is_step(self@, after, offsets, end, r.1)
                },
                TransferMessage::Abort { reason } => {
                    &&& r.0@ == self@
                    &&& r.1.write@.len() == 0
                    &&& r.1.send@.len() == 0
                    &&& r.1.outcome == Some::<Result<(), TransferError>>(
                        Err(TransferError::Aborted(reason)),
                    )
                },
                _ => {
                    &&& r.0@ == self@
                    &&& r.1.write@.len() == 0
                    &&& r.1.send@.len() == 0
                    &&& r.1.outcome is None
                },
            },
            message_received(self@, r.0@, message, r.1),
    {
        match message {
            TransferMessage::Chunk { offset, bytes, last } => self.receive_chunk(
                offset,
                bytes,
                last,
            ),
            TransferMessage::Abort { reason } => (
                self,
                ReceiverStep {
                    write: Vec::new(),
                    send: Vec::new(),
                    outcome: Some(Err(TransferError::Aborted(reason))),
                },
            ),
            _ => (
                self,
                ReceiverStep { write: Vec::new(), send: Vec::new(), outcome: None },
            ),
        }
    }

    fn receive_chunk(self, offset: u64, bytes: Vec<u8>, last: bool) -> (r: (
        Receiver,
        ReceiverStep,
    ))
        ensures
            ({
                let (after, offsets, end) = after_chunk(self@, offset, bytes@, last);
                r.0@ == after && is_step(self@, after, offsets, end, r.1)
            }),
    {
        proof {
            use_type_invariant(&self);
        }
        let ghost before = self@;
        let Receiver {
            content_hash,
            expected_size,
            mut next_request,
            mut in_flight,
            mut write_offset,
            mut pending,
            mut last_seen,
            mut more,
            mut hasher,
        } = self;
        if in_flight > 0 {
            in_flight = in_flight - 1;
        }
        if last {
            last_seen = Some(offset);
        } else {
            more = true;
        }
        let ghost arrived = (bytes@, last);
        let ghost start = before.pending.insert(offset, arrived);
        pending.insert(offset, (bytes, last));
        assert(pending_view(pending@) =~= start);
        let mut write: Vec<u8> = Vec::new();
        let mut done = false;
        let mut too_long = false;
        proof {
            lemma_finite(pending.rows());
            assert(before.written + write@ =~= before.written);
        }
        loop
            invariant_except_break
                !done && !too_long,
                write_offset == hashed(hasher).len(),
                hashed(hasher) == before.written + write@,
                pending_view(pending@).dom().finite(),
                flushed(before.written, start) == flushed(
                    hashed(hasher),
                    pending_view(pending@),
                ),
            ensures
                write_offset == hashed(hasher).len(),
                hashed(hasher) == before.written + write@,
                flushed(before.written, start) == (
                    hashed(hasher),
                    pending_view(pending@),
                    if done {
                        FlushEnd::Final
                    } else if too_long {
                        FlushEnd::TooLong
                    } else {
                        FlushEnd::Gap
                    },
                ),
                !(done && too_long),
            decreases pending_view(pending@).dom().len(),
        {
            let ghost view = pending_view(pending@);
            match pending.remove(write_offset) {
                Some((chunk, chunk_last)) => {
                    proof {
                        assert(view.contains_key(write_offset));
                        assert(pending_view(pending@) =~= view.remove(write_offset));
                        assert(pending_view(pending@).dom() =~= view.dom().remove(write_offset));
                    }
                    if chunk.len() as u64 > u64::MAX - write_offset {
                        too_long = true;
                        break ;
                    }
                    update_hasher(&mut hasher, chunk.as_slice());
                    write_offset = write_offset + chunk.len() as u64;
                    let ghost so_far = write@;
                    let ghost piece = chunk@;
                    let mut chunk = chunk;
                    write.append(&mut chunk);
                    proof {
                        assert(before.written + write@ =~= before.written + so_far + piece);
                    }
                    if chunk_last {
                        done = true;
                        break ;
                    }
                },
                None => {
                    assert(pending_view(pending@) =~= view);
                    break ;
                },
            }
        }
        let mut send: Vec<TransferMessage> = Vec::new();
        let outcome: Option<Result<(), TransferError>>;
        if too_long {
            outcome = Some(
                Err(TransferError::Aborted("transfer exceeds the range of offsets".to_owned())),
            );
        } else if done {
            if in_flight > 0 {
                send.push(TransferMessage::Abort { reason: "transfer complete".to_owned() });
            }
            let actual = finish_hasher(&hasher);
            if same_text(actual.as_str(), content_hash.as_str()) {
                outcome = Some(Ok(()));
            } else {
                outcome = Some(
                    Err(TransferError::HashMismatch { expected: content_hash.clone(), actual }),
                );
            }
        } else {
            match last_seen {
                None => {
                    let limit: u64 = if expected_size != 0 {
                        expected_size
                    } else if more {
                        u64::MAX
                    } else {
                        1
                    };
                    proof {
                        lemma_refill(next_request, in_flight, limit);
                    }
                    let (next, flying) = request_more(next_request, in_flight, limit, &mut send);
                    next_request = next;
                    in_flight = flying;
                    outcome = None;
                },
                Some(last_offset) => {
                    if in_flight == 0 && write_offset <= last_offset {
                        outcome = Some(
                            Err(
                                TransferError::Aborted(
                                    "sender ended before all requested chunks arrived".to_owned(),
                                ),
                            ),
                        );
                    } else {
                        outcome = None;
                    }
                },
            }
        }
        let receiver = Receiver {
            content_hash,
            expected_size,
            next_request,
            in_flight,
            write_offset,
            pending,
            last_seen,
            more,
            hasher,
        };
        (receiver, ReceiverStep { write, send, outcome })
    }
}

proof fn lemma_finite(rows: Seq<(u64, (Vec<u8>, bool))>)
    ensures
        pending_view(crate::table::map_of(rows)).dom().finite(),
{
    let keys = rows.map_values(|row: (u64, (Vec<u8>, bool))| row.0).to_set();
    vstd::seq_lib::seq_to_set_is_finite(
        rows.map_values(|row: (u64, (Vec<u8>, bool))| row.0),
    );
    let dom = pending_view(crate::table::map_of(rows)).dom();
    assert forall|k: u64| dom.contains(k) implies keys.contains(k) by {
        assert(crate::table::has_key(rows, k));
        let i = choose|i: int| 0 <= i < rows.len() && (#[trigger] rows[i]).0 == k;
        assert(rows.map_values(|row: (u64, (Vec<u8>, bool))| row.0)[i] == k);
    }
    assert(dom.subset_of(keys));
    vstd::set_lib::lemma_set_subset_finite(keys, dom);
}

/// How many offsets a refill requests, and that it stays in the window and in range.
proof fn lemma_refill(next: u64, in_flight: u64, limit: u64)
    requires
        in_flight <= WINDOW,
    ensures
        in_flight + refill(next, in_flight, limit).len() <= WINDOW,
        next + refill(next, in_flight, limit).len() * CHUNK_SIZE <= u64::MAX,
    decreases WINDOW - in_flight,
{
    if in_flight < WINDOW && next < limit && next + CHUNK_SIZE <= u64::MAX {
        lemma_refill((next + CHUNK_SIZE) as u64, (in_flight + 1) as u64, limit);
    }
}

/// Appends the requests that a refill makes, and returns the next offset and the
/// number of requests in flight then.
fn request_more(next: u64, in_flight: u64, limit: u64, messages: &mut Vec<TransferMessage>) -> (r: (
    u64,
    u64,
))
    requires
        in_flight <= WINDOW,
    ensures
        final(messages)@ == old(messages)@ + refill(next, in_flight, limit).map_values(
            |offset: u64| TransferMessage::ChunkRequest { offset },
        ),
        r.0 == next + refill(next, in_flight, limit).len() * CHUNK_SIZE,
        r.1 == in_flight + refill(next, in_flight, limit).len(),
{
    let ghost all = refill(next, in_flight, limit);
    let ghost given = messages@;
    let mut offset: u64 = next;
    let mut flying: u64 = in_flight;
    let ghost mut made: int = 0;
    proof {
        assert(all.skip(0) =~= all);
        assert(given + all.take(0).map_values(
            |offset: u64| TransferMessage::ChunkRequest { offset },
        ) =~= given);
    }
    while flying < WINDOW && offset < limit && offset <= u64::MAX - CHUNK_SIZE as u64
        invariant
            0 <= made <= all.len(),
            flying == in_flight + made,
            flying <= WINDOW,
            offset == next + made * CHUNK_SIZE,
            refill(offset, flying, limit) == all.skip(made),
            messages@ == given + all.take(made).map_values(
                |offset: u64| TransferMessage::ChunkRequest { offset },
            ),
        decreases WINDOW - flying,
    {
        proof {
            let rest = all.skip(made);
            assert(rest[0] == offset);
            assert(rest.skip(1) =~= all.skip(made + 1));
            assert(rest.skip(1) =~= refill(
                (offset + CHUNK_SIZE) as u64,
                (flying + 1) as u64,
                limit,
            ));
            assert(all.take(made + 1) =~= all.take(made).push(offset));
            assert(given + all.take(made + 1).map_values(
                |offset: u64| TransferMessage::ChunkRequest { offset },
            ) =~= (given + all.take(made).map_values(
                |offset: u64| TransferMessage::ChunkRequest { offset },
            )).push(TransferMessage::ChunkRequest { offset }));
        }
        messages.push(TransferMessage::ChunkRequest { offset });
        offset = offset + CHUNK_SIZE as u64;
        flying = flying + 1;
        proof {
            made = made + 1;
        }
    }
    proof {
        assert(all.skip(made).len() == 0);
        assert(all.take(made) =~= all);
    }
    (offset, flying)
}

/// How a chunk is to be obtained.
#[derive(Debug, PartialEq, Eq)]
pub enum ChunkStep {
    /// The chunk, and whether it is the final one.
    Ready { bytes: Vec<u8>, last: bool },
    /// Read it from a file.
    ReadFile { path: String, offset: u64, max_len: usize },
    /// Ask the client that provides the file.
    AskProvider { offset: u64 },
}

/// Something that chunks are read from.
pub trait ChunkSource {
    /// How the chunk of at most `max_len` bytes at `offset` is obtained.
    fn read_chunk_at(&self, offset: u64, max_len: usize) -> ChunkStep;
}

/// Whether a chunk of a file's bytes is obtained as it should be.
pub open spec fn is_chunk_step(
    source: BytesView,
    offset: u64,
    max_len: usize,
    step: ChunkStep,
) -> bool {
    match source {
        BytesView::InMemory(content) => step matches ChunkStep::Ready { bytes, last } && bytes@
            == chunk_at(content, offset as int, max_len as int) && last == (chunk_end(
            content.len() as int,
            offset as int,
            max_len as int,
        ) == content.len()),
        BytesView::FileToCopy(path) => step matches ChunkStep::ReadFile {
            path: p,
            offset: o,
            max_len: m,
        } && p@ == path && o == offset && m == max_len,
        BytesView::FileToMove(path) => step matches ChunkStep::ReadFile {
            path: p,
            offset: o,
            max_len: m,
        } && p@ == path && o == offset && m == max_len,
    }
}

impl ChunkSource for FileBytes {
    fn read_chunk_at(&self, offset: u64, max_len: usize) -> (r: ChunkStep)
        ensures
            match self@ {
                BytesView::InMemory(content) => r matches ChunkStep::Ready { bytes, last } && bytes@
                    == chunk_at(content, offset as int, max_len as int) && last == (chunk_end(
                    content.len() as int,
                    offset as int,
                    max_len as int,
                ) == content.len()),
                BytesView::FileToCopy(path) => r matches ChunkStep::ReadFile {
                    path: p,
                    offset: o,
                    max_len: m,
                } && p@ == path && o == offset && m == max_len,
                BytesView::FileToMove(path) => r matches ChunkStep::ReadFile {
                    path: p,
                    offset: o,
                    max_len: m,
                } && p@ == path && o == offset && m == max_len,
            },
            is_chunk_step(self@, offset, max_len, r),
    {
        match self {
            FileBytes::InMemory(_) => match self.memory_chunk_at(offset, max_len) {
                Some((bytes, last)) => ChunkStep::Ready { bytes, last },
                None => ChunkStep::AskProvider { offset },
            },
            FileBytes::FileToCopy(path) => ChunkStep::ReadFile {
                path: path.clone(),
                offset,
                max_len,
            },
            FileBytes::FileToMove(path) => ChunkStep::ReadFile {
                path: path.clone(),
                offset,
                max_len,
            },
        }
    }
}

/// A file that a client serves on demand, over the control connection with a number.
#[derive(Debug, Clone, Copy, PartialEq, Eq, Structural)]
pub struct ProviderSource {
    pub connection: u64,
}

impl ProviderSource {
    pub fn new(connection: u64) -> (r: Self)
        ensures
            r.connection == connection,
    {
        ProviderSource { connection }
    }
}

impl ChunkSource for ProviderSource {
    fn read_chunk_at(&self, offset: u64, max_len: usize) -> (r: ChunkStep)
        ensures
            r == (ChunkStep::AskProvider { offset }),
    {
        ChunkStep::AskProvider { offset }
    }
}

/// What a sender does about a message of the receiver.
#[derive(Debug, PartialEq, Eq)]
pub enum SenderStep {
    /// Nothing.
    Wait,
    /// Obtain the chunk at `offset`, for [`answer_chunk`].
    Obtain { offset: u64, step: ChunkStep },
    /// End.
    Stop,
}

/// Takes in a message of the receiver.
pub fn serve<S: ChunkSource>(source: &S, message: &TransferMessage) -> (r: SenderStep)
    ensures
        match *message {
            TransferMessage::ChunkRequest { offset } => r matches SenderStep::Obtain {
                offset: o,
                step,
            } && o == offset && call_ensures(S::read_chunk_at, (source, offset, CHUNK_SIZE), step),
            TransferMessage::Abort { .. } => r is Stop,
            _ => r is Wait,
        },
{
    match message {
        TransferMessage::ChunkRequest { offset } => SenderStep::Obtain {
            offset: *offset,
            step: source.read_chunk_at(*offset, CHUNK_SIZE),
        },
        TransferMessage::Abort { .. } => SenderStep::Stop,
        _ => SenderStep::Wait,
    }
}

/// Whether a message is the reply to a chunk request, and the sender goes on or ends.
pub open spec fn is_reply(
    offset: u64,
    chunk: Result<(Vec<u8>, bool), String>,
    message: TransferMessage,
    ends: bool,
) -> bool {
    match chunk {
        Ok((bytes, last)) => message == (TransferMessage::Chunk { offset, bytes, last }) && !ends,
        Err(error) => ends && (message matches TransferMessage::Abort { reason } && reason@
            == "sender read error: "@ + error@),
    }
}

/// The reply to a chunk request, and whether the sender ends, once the chunk was
/// obtained or could not be.
pub fn answer_chunk(offset: u64, chunk: Result<(Vec<u8>, bool), String>) -> (r: (
    TransferMessage,
    bool,
))
    ensures
        match chunk {
            Ok((bytes, last)) => r == (TransferMessage::Chunk { offset, bytes, last }, false),
            Err(error) => r.1 && (r.0 matches TransferMessage::Abort { reason } && reason@
                == "sender read error: "@ + error@),
        },
        is_reply(offset, chunk, r.0, r.1),
{
    match chunk {
        Ok((bytes, last)) => (TransferMessage::Chunk { offset, bytes, last }, false),
        Err(error) => (
            TransferMessage::Abort { reason: joined("sender read error: ", error.as_str()) },
            true,
        ),
    }
}

/// Where the size is known, no chunk at or behind the end of the file is requested.
pub proof fn law_no_request_past_the_end(next: u64, in_flight: u64, size: u64, more: bool)
    requires
        size > 0,
        in_flight <= WINDOW,
    ensures
        forall|i: int|
            0 <= i < refill(next, in_flight, request_limit(size, more)).len() ==> #[trigger] refill(
                next,
                in_flight,
                request_limit(size, more),
            )[i] < size,
{
    lemma_refill_below(next, in_flight, request_limit(size, more));
}

/// An empty file, or one of unknown size, is opened with one request, at offset 0.
pub proof fn law_unknown_size_opens_with_one_request()
    ensures
        refill(0, 0, request_limit(0, false)) == seq![0u64],
{
    reveal_with_fuel(refill, 3);
    assert(refill(0, 0, 1) =~= seq![0u64]);
}

proof fn lemma_refill_below(next: u64, in_flight: u64, limit: u64)
    requires
        in_flight <= WINDOW,
    ensures
        forall|i: int|
            0 <= i < refill(next, in_flight, limit).len() ==> #[trigger] refill(
                next,
                in_flight,
                limit,
            )[i] < limit && refill(next, in_flight, limit)[i] == next + i * CHUNK_SIZE,
    decreases WINDOW - in_flight,
{
    if in_flight < WINDOW && next < limit && next + CHUNK_SIZE <= u64::MAX {
        let rest = refill((next + CHUNK_SIZE) as u64, (in_flight + 1) as u64, limit);
        lemma_refill_below((next + CHUNK_SIZE) as u64, (in_flight + 1) as u64, limit);
        let all = refill(next, in_flight, limit);
        assert forall|i: int| 0 <= i < all.len() implies #[trigger] all[i] < limit && all[i] == next
            + i * CHUNK_SIZE by {
            if i > 0 {
                assert(all[i] == rest[i - 1]);
            }
        }
    }
}

} // verus!
