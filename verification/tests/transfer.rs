//! The chunked transfer of a file.

use tagnetd::file_bytes::FileBytes;
use tagnetd::ids::{FileId, TransferId};
use tagnetd::state::SyncMessage;
use tagnetd::transfer::{
    answer_chunk, serve, ChunkSource, ChunkStep, ProviderSource, Receiver, SenderStep,
    TransferError, TransferMessage, CHUNK_SIZE, WINDOW,
};

fn hash_of(bytes: &[u8]) -> String {
    blake3::hash(bytes).to_hex().to_string()
}

/// What the sender answers to a message, if anything.
fn reply(source: &FileBytes, message: &TransferMessage) -> Option<TransferMessage> {
    match serve(source, message) {
        SenderStep::Obtain { offset, step } => match step {
            ChunkStep::Ready { bytes, last } => Some(answer_chunk(offset, Ok((bytes, last))).0),
            _ => Some(answer_chunk(offset, Err("no such file".to_owned())).0),
        },
        _ => None,
    }
}

/// Runs a transfer to its end. Gives the offsets that were asked for too.
fn run(
    source: FileBytes,
    content_hash: String,
    expected_size: u64,
) -> (Result<Vec<u8>, TransferError>, Vec<u64>) {
    let (mut receiver, mut to_sender) =
        Receiver::start(FileId::new(), content_hash, expected_size);
    let mut written = Vec::new();
    let mut asked = Vec::new();
    while !to_sender.is_empty() {
        let message = to_sender.remove(0);
        if let TransferMessage::ChunkRequest { offset } = &message {
            asked.push(*offset);
        }
        if let Some(answer) = reply(&source, &message) {
            let (next, step) = receiver.receive(answer);
            receiver = next;
            written.extend(step.write);
            to_sender.extend(step.send);
            match step.outcome {
                Some(Ok(())) => return (Ok(written), asked),
                Some(Err(error)) => return (Err(error), asked),
                None => {}
            }
        }
    }
    panic!("the transfer stalled");
}

fn roundtrip(bytes: Vec<u8>) -> Result<Vec<u8>, TransferError> {
    let hash = hash_of(&bytes);
    let size = bytes.len() as u64;
    run(FileBytes::InMemory(bytes), hash, size).0
}

#[test]
fn roundtrip_small_in_memory() {
    let bytes = b"hello transfer".to_vec();
    let received = roundtrip(bytes.clone()).unwrap();
    assert_eq!(received, bytes);
}

#[test]
fn roundtrip_empty() {
    let received = roundtrip(Vec::new()).unwrap();
    assert!(received.is_empty());
}

#[test]
fn roundtrip_multi_chunk_file() {
    // Several chunks plus a partial one, exercising windowing + reassembly.
    let bytes: Vec<u8> = (0..(CHUNK_SIZE * 5 + 123)).map(|i| i as u8).collect();
    let received = roundtrip(bytes.clone()).unwrap();
    assert_eq!(received, bytes);
}

#[test]
fn roundtrip_beyond_the_window() {
    let bytes: Vec<u8> = (0..(CHUNK_SIZE * 20 + 1)).map(|i| (i / 7) as u8).collect();
    let received = roundtrip(bytes.clone()).unwrap();
    assert_eq!(received, bytes);
}

#[test]
fn hash_mismatch_is_rejected() {
    // Receiver expects a hash that does not match the source bytes.
    let wrong_hash = hash_of(b"different");
    let (received, _) = run(
        FileBytes::InMemory(b"real bytes".to_vec()),
        wrong_hash.clone(),
        b"real bytes".len() as u64,
    );
    match received {
        Err(TransferError::HashMismatch { expected, actual }) => {
            assert_eq!(expected, wrong_hash);
            assert_eq!(actual, hash_of(b"real bytes"));
        }
        other => panic!("expected a mismatch, got {other:?}"),
    }
}

#[test]
fn sender_abort_propagates() {
    // The sender's first read fails. The size is unknown (the source is missing), so
    // offset 0 is still asked for and the abort received.
    let (received, asked) = run(
        FileBytes::FileToCopy("/does-not-exist".to_owned()),
        hash_of(b"whatever"),
        0,
    );
    assert!(matches!(received, Err(TransferError::Aborted(_))));
    assert_eq!(asked, vec![0]);
}

/// With a known size, the receiver must never request a chunk at or beyond EOF.
#[test]
fn known_size_never_requests_past_eof() {
    // A size that is NOT a multiple of CHUNK_SIZE, so the final chunk is partial.
    let bytes: Vec<u8> = (0..(CHUNK_SIZE * 3 + 7)).map(|i| i as u8).collect();
    let size = bytes.len() as u64;
    let (received, requested) = run(FileBytes::InMemory(bytes.clone()), hash_of(&bytes), size);
    assert_eq!(received.unwrap(), bytes);
    assert!(requested.iter().all(|offset| *offset < size));

    // Exactly ceil(size / CHUNK_SIZE) distinct offsets, none past EOF.
    let expected_requests = size.div_ceil(CHUNK_SIZE as u64);
    let mut unique = requested.clone();
    unique.sort_unstable();
    unique.dedup();
    assert_eq!(unique.len() as u64, expected_requests);
}

/// A zero-length file still completes: exactly one request at offset 0 yields the empty
/// final chunk.
#[test]
fn known_zero_size_requests_only_offset_zero() {
    let (received, asked) = run(FileBytes::InMemory(Vec::new()), hash_of(b""), 0);
    assert!(received.unwrap().is_empty());
    assert_eq!(asked, vec![0]);
}

/// A size of 0 stands for an unknown one: a longer file arrives all the same.
#[test]
fn unknown_size_is_pulled_to_its_end() {
    let bytes: Vec<u8> = (0..(CHUNK_SIZE * 3 + 7)).map(|i| i as u8).collect();
    let (received, _) = run(FileBytes::InMemory(bytes.clone()), hash_of(&bytes), 0);
    assert_eq!(received.unwrap(), bytes);
}

/// Chunks may arrive in any order: they are written in the right one.
#[test]
fn chunks_may_arrive_out_of_order() {
    let bytes: Vec<u8> = (0..(CHUNK_SIZE * 2)).map(|i| (i % 251) as u8).collect();
    let (receiver, opening) =
        Receiver::start(FileId { value: 1 }, hash_of(&bytes), bytes.len() as u64);
    let requests = opening
        .iter()
        .filter(|m| matches!(m, TransferMessage::ChunkRequest { .. }))
        .count();
    assert_eq!(requests, 2);
    let (receiver, second) = receiver.receive(TransferMessage::Chunk {
        offset: CHUNK_SIZE as u64,
        bytes: bytes[CHUNK_SIZE..].to_vec(),
        last: true,
    });
    assert!(second.write.is_empty());
    assert!(second.outcome.is_none());
    let (_, first) = receiver.receive(TransferMessage::Chunk {
        offset: 0,
        bytes: bytes[..CHUNK_SIZE].to_vec(),
        last: false,
    });
    assert_eq!(first.write, bytes);
    assert!(matches!(first.outcome, Some(Ok(()))));
}

#[test]
fn no_more_requests_than_the_window_are_open() {
    let size = (CHUNK_SIZE as u64) * 100;
    let (_, opening) = Receiver::start(FileId { value: 1 }, hash_of(b""), size);
    let requests = opening
        .iter()
        .filter(|m| matches!(m, TransferMessage::ChunkRequest { .. }))
        .count() as u64;
    assert_eq!(requests, WINDOW);
}

#[test]
fn an_abort_ends_the_sender() {
    let source = FileBytes::InMemory(vec![1]);
    assert!(matches!(
        serve(&source, &TransferMessage::Abort { reason: "done".to_owned() }),
        SenderStep::Stop
    ));
    let (message, ends) = answer_chunk(3, Err("unreadable".to_owned()));
    assert_eq!(
        message,
        TransferMessage::Abort { reason: "sender read error: unreadable".to_owned() }
    );
    assert!(ends);
    let (message, ends) = answer_chunk(3, Ok((vec![9], false)));
    assert_eq!(message, TransferMessage::Chunk { offset: 3, bytes: vec![9], last: false });
    assert!(!ends);
}

#[test]
fn a_provider_is_asked_for_its_chunks() {
    let source = ProviderSource::new(4);
    assert!(matches!(source.read_chunk_at(77, 10), ChunkStep::AskProvider { offset: 77 }));
    let file = FileBytes::FileToCopy("/f".to_owned());
    assert!(matches!(
        file.read_chunk_at(5, 10),
        ChunkStep::ReadFile { path, offset: 5, max_len: 10 } if path == "/f"
    ));
}

/// Every transfer message survives the wire, with its transfer.
#[test]
fn messages_survive_the_wire() {
    let transfer_id = TransferId { value: 12 };
    let start = TransferMessage::Start {
        file_id: FileId { value: 1 },
        content_hash: "h".to_owned(),
    };
    assert_eq!(
        TransferMessage::from_sync(start.into_sync(transfer_id)),
        Some((
            transfer_id,
            TransferMessage::Start {
                file_id: FileId { value: 1 },
                content_hash: "h".to_owned(),
            }
        ))
    );
    let chunk = TransferMessage::Chunk { offset: 4, bytes: vec![1, 2], last: true };
    assert_eq!(
        TransferMessage::from_sync(chunk.into_sync(transfer_id)),
        Some((transfer_id, TransferMessage::Chunk { offset: 4, bytes: vec![1, 2], last: true }))
    );
    let request = TransferMessage::ChunkRequest { offset: 4 };
    assert_eq!(
        TransferMessage::from_sync(request.into_sync(transfer_id)),
        Some((transfer_id, TransferMessage::ChunkRequest { offset: 4 }))
    );
    let abort = TransferMessage::Abort { reason: "r".to_owned() };
    assert_eq!(
        TransferMessage::from_sync(abort.into_sync(transfer_id)),
        Some((transfer_id, TransferMessage::Abort { reason: "r".to_owned() }))
    );
    assert_eq!(
        TransferMessage::from_sync(SyncMessage::Manifest { entries: Vec::new() }),
        None
    );
}

#[test]
fn transfer_errors_have_words() {
    assert_eq!(TransferError::Aborted("x".to_owned()).to_string(), "transfer aborted: x");
    assert_eq!(
        TransferError::HashMismatch { expected: "a".to_owned(), actual: "b".to_owned() }
            .to_string(),
        "content hash mismatch: expected a, got b"
    );
    assert_eq!(TransferError::Io("full".to_owned()).to_string(), "transfer I/O error: full");
    assert_eq!(TransferError::ChannelClosed.to_string(), "transfer channel closed early");
    assert_eq!(
        TransferError::ChannelClosed.farewell(),
        TransferMessage::Abort { reason: "transfer channel closed early".to_owned() }
    );
}
