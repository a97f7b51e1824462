//! The session with a peer.

use tagnetd::bus::{DaemonMessage, FetchError, Ingest, MaterializePlacement, PeerCommand};
use tagnetd::configuration::{Configuration, Peer, RuntimeConfiguration};
use tagnetd::database::FileDatabase;
use tagnetd::fetch::{FetchAction, FoundThen, PendingFetches};
use tagnetd::file_bytes::FileBytes;
use tagnetd::ids::{FileId, RequestId, TagId, TransferId};
use tagnetd::peer_session::{
    answer_request, clear_outbound_if_owned, install_session, opening_frames, opening_sweep,
    CompletionStep, PeerSession, ReceiverPurpose, ServeStep, SessionSlot, SessionStep,
};
use tagnetd::state::{Change, ChangeOrigin, Frame, LogicalPath, ManifestEntry, SyncMessage};
use tagnetd::transfer::{ReceiveOutcome, TransferError, TransferMessage};

const F: FileId = FileId { value: 1 };
const T: TagId = TagId { value: 2 };
const X: TransferId = TransferId { value: 3 };
const R: RequestId = RequestId { value: 4 };

fn runtime() -> RuntimeConfiguration {
    let configuration = Configuration {
        sync_directories: Vec::new(),
        listen_port: None,
        peers: ["a", "b"]
            .iter()
            .map(|key| Peer {
                address: None,
                name: key.to_string(),
                public_key: key.to_string(),
            })
            .collect(),
        tags: Vec::new(),
    };
    let mut runtime = RuntimeConfiguration::new(&configuration);
    assert_eq!(install_session(&mut runtime, "a", 10, 11, false), SessionSlot::Owner);
    runtime
}

/// Of two sessions with a peer the first owns the place, until it closes.
#[test]
fn a_place_has_one_owner() {
    let mut runtime = runtime();
    assert_eq!(install_session(&mut runtime, "a", 20, 21, false), SessionSlot::InboundOnly);
    assert_eq!(runtime.peer_outbound("a"), Some(10));
    assert_eq!(install_session(&mut runtime, "a", 20, 21, true), SessionSlot::Owner);
    assert_eq!(runtime.peer_outbound("a"), Some(20));
    assert_eq!(runtime.peer_commands("a"), Some(21));
    assert_eq!(install_session(&mut runtime, "x", 1, 2, false), SessionSlot::Unknown);
    // One that was replaced leaves its successor alone.
    clear_outbound_if_owned(&mut runtime, "a", true, 10);
    assert_eq!(runtime.peer_outbound("a"), Some(20));
    clear_outbound_if_owned(&mut runtime, "a", false, 20);
    assert_eq!(runtime.peer_outbound("a"), Some(20));
    clear_outbound_if_owned(&mut runtime, "a", true, 20);
    assert_eq!(runtime.peer_outbound("a"), None);
}

#[test]
fn a_session_opens_with_manifests() {
    let mut database = FileDatabase::new();
    database.add_file(F, &LogicalPath::new("f")).unwrap();
    database.record_version_at(F, "h", "local", 9).unwrap();
    let frames = opening_frames(&database);
    assert_eq!(frames.len(), 2);
    assert_eq!(
        frames[1],
        Frame::Sync(SyncMessage::Manifest {
            entries: vec![ManifestEntry {
                file_id: F,
                history: vec![(1, "h".to_owned())],
                latest_observed_at: 9,
                logical_path: LogicalPath::new("f"),
            }],
        })
    );
    // The tags come first, so that files are placed by them.
    assert!(matches!(frames[0], Frame::Sync(SyncMessage::TagManifest { .. })));
}

#[test]
fn commands_become_pulls() {
    let session = PeerSession::new("a");
    let pull = session.on_command(PeerCommand::StartReceive {
        file_id: F,
        content_hash: "h".to_owned(),
        placement: MaterializePlacement::Change,
    });
    assert_eq!(pull.file_id, F);
    assert_eq!(pull.content_hash, "h");
    assert_eq!(pull.expected_size, 0);
    assert!(matches!(
        pull.purpose,
        ReceiverPurpose::Materialize { origin: ChangeOrigin::Peer { public_key }, .. }
            if public_key == "a"
    ));
}

fn step(database: &FileDatabase, fetches: &mut PendingFetches, frame: Frame) -> SessionStep {
    PeerSession::new("a").on_frame(frame, &runtime(), database, fetches)
}

#[test]
fn changes_go_onto_the_bus() {
    let change = Change::FileDeleted { file_id: F, deleted_at: 1 };
    let r = step(
        &FileDatabase::new(),
        &mut PendingFetches::new(),
        Frame::Change(change.clone()),
    );
    assert!(matches!(
        r,
        SessionStep::Enqueue(DaemonMessage::Change(
            Ingest::Meta(c),
            ChangeOrigin::Peer { public_key },
        )) if c == change && public_key == "a"
    ));
}

/// The record of what a manifest announces is left to the change pipeline.
#[test]
fn a_manifest_leads_to_pulls() {
    let known = FileId { value: 8 };
    let mut database = FileDatabase::new();
    database.add_file(known, &LogicalPath::new("here")).unwrap();
    database.record_version_at(known, "old", "local", 1).unwrap();
    let entry = |file_id: FileId, hashes: &[&str], path: &str| ManifestEntry {
        file_id,
        history: hashes.iter().zip(1..).map(|(hash, n)| (n, hash.to_string())).collect(),
        latest_observed_at: 5,
        logical_path: LogicalPath::new(path),
    };
    let r = step(
        &database,
        &mut PendingFetches::new(),
        Frame::Sync(SyncMessage::Manifest {
            entries: vec![entry(F, &["h"], "f"), entry(known, &["old", "new"], "there")],
        }),
    );
    match r {
        SessionStep::Reconcile { catalog, pulls } => {
            assert!(matches!(
                &catalog[0],
                DaemonMessage::CatalogFile {
                    file_id: F,
                    logical_path,
                    content_hash,
                    origin: ChangeOrigin::Peer { public_key },
                } if logical_path.as_str() == "f" && content_hash == "h" && public_key == "a"
            ));
            assert!(matches!(
                &catalog[1],
                DaemonMessage::CatalogFile { file_id, logical_path, content_hash, .. }
                    if *file_id == known
                        && logical_path.as_str() == "here"
                        && content_hash == "new"
            ));
            assert_eq!(catalog.len(), 2);
            assert_eq!(pulls.len(), 2);
            assert_eq!(pulls[0].content_hash, "h");
            assert!(matches!(
                pulls[0].purpose,
                ReceiverPurpose::Materialize { placement: MaterializePlacement::Create { .. }, .. }
            ));
            assert_eq!(pulls[1].content_hash, "new");
            assert!(matches!(
                pulls[1].purpose,
                ReceiverPurpose::Materialize { placement: MaterializePlacement::Change, .. }
            ));
        }
        other => panic!("unexpected step {other:?}"),
    }
}

#[test]
fn a_session_opens_with_a_sweep() {
    let mut database = FileDatabase::new();
    for value in [5, 3] {
        let file_id = FileId { value };
        database.add_file(file_id, &LogicalPath::new("f")).unwrap();
        database.record_version_at(file_id, "h", "local", 9).unwrap();
    }
    let sweep = opening_sweep(&database);
    assert!(matches!(
        sweep.as_slice(),
        [
            DaemonMessage::ReconcilePlacement { file_id: FileId { value: 3 } },
            DaemonMessage::ReconcilePlacement { file_id: FileId { value: 5 } },
        ]
    ));
}

#[test]
fn questions_about_tags_are_answered() {
    let mut database = FileDatabase::new();
    let ask = || Frame::Sync(SyncMessage::TagRequest { tag_id: T });
    assert!(matches!(
        step(&database, &mut PendingFetches::new(), ask()),
        SessionStep::Send(Frame::Sync(SyncMessage::TagNotFound { tag_id: T }))
    ));
    database.add_tag(T, "t", "red", 1).unwrap();
    assert!(matches!(
        step(&database, &mut PendingFetches::new(), ask()),
        SessionStep::Send(Frame::Change(Change::TagAdded { tag_id: T, .. }))
    ));
}

#[test]
fn transfers_are_served_from_here_or_from_a_provider() {
    let mut session = PeerSession::new("a");
    let mut fetches = PendingFetches::new();
    let content = || FileBytes::FileToCopy("/f".to_owned());
    assert!(matches!(
        session.serve_transfer(&mut fetches, X, F, "h", Some((content(), "h".to_owned()))),
        ServeStep::Content(found) if found == content()
    ));
    assert!(matches!(
        session.serve_transfer(&mut fetches, X, F, "h", None),
        ServeStep::Refuse(Frame::Sync(SyncMessage::TransferAbort { transfer_id: X, .. }))
    ));
    fetches.register_provider(F, "h".to_owned(), 77);
    assert!(matches!(
        session.serve_transfer(&mut fetches, X, F, "h", None),
        ServeStep::Provider(77)
    ));
    fetches.unregister_provider(F, "h");
    fetches.cache_relay_file(F, "h".to_owned(), content());
    assert!(matches!(
        session.serve_transfer(&mut fetches, X, F, "h", None),
        ServeStep::Content(_)
    ));
}

#[test]
fn chunks_reach_their_transfer() {
    let mut session = PeerSession::new("a");
    session.opened(X);
    let r = session.on_frame(
        Frame::Sync(SyncMessage::TransferChunkRequest { transfer_id: X, offset: 5 }),
        &runtime(),
        &FileDatabase::new(),
        &mut PendingFetches::new(),
    );
    assert!(matches!(
        r,
        SessionStep::Deliver { transfer_id: X, message: TransferMessage::ChunkRequest { offset: 5 } }
    ));
    session.closed(X);
    let r = session.on_frame(
        Frame::Sync(SyncMessage::TransferChunkRequest { transfer_id: X, offset: 5 }),
        &runtime(),
        &FileDatabase::new(),
        &mut PendingFetches::new(),
    );
    assert!(matches!(r, SessionStep::Nothing));
}

#[test]
fn a_completed_pull_is_materialised() {
    let mut session = PeerSession::new("a");
    let mut fetches = PendingFetches::new();
    let purpose = || ReceiverPurpose::Materialize {
        file_id: F,
        content_hash: "h".to_owned(),
        origin: ChangeOrigin::Peer { public_key: "a".to_owned() },
        placement: MaterializePlacement::Change,
    };
    let content = FileBytes::FileToMove("/tmp/x".to_owned());
    let r = session.on_completed(
        X,
        purpose(),
        ReceiveOutcome::Complete(content),
        &runtime(),
        &mut fetches,
    );
    assert!(matches!(
        r,
        CompletionStep::Enqueue(DaemonMessage::Materialize {
            file_id: F,
            content: FileBytes::FileToMove(_),
            ..
        })
    ));
    let r = session.on_completed(
        X,
        purpose(),
        ReceiveOutcome::Failed(TransferError::ChannelClosed),
        &runtime(),
        &mut fetches,
    );
    assert!(matches!(r, CompletionStep::Nothing));
}

#[test]
fn a_completed_fetch_is_delivered_or_relayed() {
    let mut session = PeerSession::new("b");
    let mut fetches = PendingFetches::new();
    let local = || ReceiverPurpose::Fetch { then: FoundThen::DeliverLocal(5) };
    let r = session.on_completed(
        X,
        local(),
        ReceiveOutcome::Complete(FileBytes::InMemory(vec![1])),
        &runtime(),
        &mut fetches,
    );
    assert!(matches!(r, CompletionStep::Answer { waiter: 5, result: Ok(_) }));
    let r = session.on_completed(
        X,
        local(),
        ReceiveOutcome::Failed(TransferError::ChannelClosed),
        &runtime(),
        &mut fetches,
    );
    assert!(matches!(
        r,
        CompletionStep::Answer { waiter: 5, result: Err(FetchError::NotAvailable) }
    ));
    let relay = ReceiverPurpose::Fetch {
        then: FoundThen::RelayUp {
            parent_peer: "a".to_owned(),
            request_id: R,
            file_id: F,
            content_hash: "h".to_owned(),
            size: 1,
        },
    };
    let r = session.on_completed(
        X,
        relay,
        ReceiveOutcome::Complete(FileBytes::InMemory(vec![1])),
        &runtime(),
        &mut fetches,
    );
    assert!(matches!(
        r,
        CompletionStep::Tell { public_key, message: SyncMessage::FetchFound { size: 1, .. } }
            if public_key == "a"
    ));
    // What is relayed can be pulled from here.
    assert!(fetches.take_fetch_cached(F, "h").is_some());
}

#[test]
fn a_fetch_request_is_answered_from_what_is_held() {
    let mut fetches = PendingFetches::new();
    let ask = |fetches: &mut PendingFetches, found: Option<(u64, String)>| {
        answer_request(fetches, &runtime(), "a", R, F, "h".to_owned(), found)
    };
    let held = ask(&mut fetches, Some((9, "h".to_owned())));
    assert!(matches!(
        held.as_slice(),
        [FetchAction::Send { message: SyncMessage::FetchFound { size: 9, .. }, .. }]
    ));
    // Other content does not count, and there is nobody else to ask.
    let missing = ask(&mut fetches, Some((9, "other".to_owned())));
    assert!(matches!(
        missing.as_slice(),
        [FetchAction::Send { message: SyncMessage::FetchMissing { .. }, .. }]
    ));
}
