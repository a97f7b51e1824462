//! On-demand fetches over the tree of peers.

use tagnetd::bus::FetchError;
use tagnetd::configuration::{Configuration, Peer, RuntimeConfiguration};
use tagnetd::fetch::{FetchAction, FoundAction, FoundThen, PendingFetches};
use tagnetd::file_bytes::FileBytes;
use tagnetd::ids::{FileId, RequestId};
use tagnetd::state::SyncMessage;

fn engine() -> PendingFetches {
    PendingFetches::new()
}

/// A runtime in which the first `connected` of the named peers have a session.
fn runtime(names: &[&str], connected: usize) -> RuntimeConfiguration {
    let configuration = Configuration {
        sync_directories: Vec::new(),
        listen_port: None,
        peers: names
            .iter()
            .map(|name| Peer {
                address: None,
                name: name.to_string(),
                public_key: name.to_string(),
            })
            .collect(),
        tags: Vec::new(),
    };
    let mut runtime = RuntimeConfiguration::new(&configuration);
    for (i, (_, peer)) in runtime.peers.iter_mut().enumerate() {
        if i < connected {
            peer.outbound = Some(i as u64);
        }
    }
    runtime
}

#[test]
fn fetch_cache_take_evicts() {
    let mut engine = engine();
    let file_id = FileId::new();
    engine.cache_relay_file(file_id, "hash".to_owned(), FileBytes::InMemory(b"x".to_vec()));

    // First take returns the file; second take finds nothing (evicted).
    assert!(engine.take_fetch_cached(file_id, "hash").is_some());
    assert!(engine.take_fetch_cached(file_id, "hash").is_none());
}

#[test]
fn fetch_cache_take_requires_matching_hash() {
    let mut engine = engine();
    let file_id = FileId::new();
    engine.cache_relay_file(file_id, "right".to_owned(), FileBytes::InMemory(b"x".to_vec()));
    assert!(engine.take_fetch_cached(file_id, "wrong").is_none());
    // The mismatched take does not evict the real entry.
    assert!(engine.take_fetch_cached(file_id, "right").is_some());
}

#[test]
fn found_for_unknown_request_is_none() {
    let mut engine = engine();
    let action = engine.handle_incoming_found(
        "peer",
        RequestId::new(),
        FileId::new(),
        "hash".to_owned(),
        0,
    );
    assert!(action.is_none());
}

#[test]
fn providers_are_found_by_file_and_hash() {
    let mut engine = engine();
    let file_id = FileId { value: 1 };
    engine.register_provider(file_id, "a".to_owned(), 5);
    engine.register_provider(file_id, "b".to_owned(), 6);
    assert_eq!(engine.provider_for(file_id, "a"), Some(5));
    assert_eq!(engine.provider_for(file_id, "b"), Some(6));
    assert_eq!(engine.provider_for(FileId { value: 2 }, "a"), None);
    engine.unregister_provider(file_id, "a");
    assert_eq!(engine.provider_for(file_id, "a"), None);
    assert_eq!(engine.provider_for(file_id, "b"), Some(6));
}

#[test]
fn a_fetch_without_peers_fails_at_once() {
    let mut engine = engine();
    let actions = engine.start_local_fetch(
        &runtime(&["a"], 0),
        RequestId { value: 1 },
        FileId { value: 2 },
        "h".to_owned(),
        9,
    );
    assert!(matches!(
        actions.as_slice(),
        [FetchAction::Fail { waiter: 9, error: FetchError::NotAvailable }]
    ));
}

#[test]
fn a_fetch_asks_every_connected_peer_and_arms_a_timeout() {
    let mut engine = engine();
    let request_id = RequestId { value: 1 };
    let file_id = FileId { value: 2 };
    let actions = engine.start_local_fetch(
        &runtime(&["a", "b", "c"], 2),
        request_id,
        file_id,
        "h".to_owned(),
        9,
    );
    let asked: Vec<String> = actions
        .iter()
        .filter_map(|action| match action {
            FetchAction::Send {
                public_key,
                message: SyncMessage::FetchRequest { request_id: r, file_id: f, expected_hash },
            } if *r == request_id && *f == file_id && expected_hash == "h" => {
                Some(public_key.clone())
            }
            _ => None,
        })
        .collect();
    assert_eq!(asked, vec!["a".to_owned(), "b".to_owned()]);
    assert!(actions.iter().any(
        |action| matches!(action, FetchAction::ArmTimeout { request_id: r } if *r == request_id)
    ));

    // Word of another content does not resolve the fetch.
    assert!(engine
        .handle_incoming_found("a", request_id, file_id, "other".to_owned(), 42)
        .is_none());

    // The first peer that has it is pulled from, for the local waiter.
    let found = engine.handle_incoming_found("b", request_id, file_id, "h".to_owned(), 42);
    match found {
        Some(FoundAction::Receive { from_peer, expected_size, then, .. }) => {
            assert_eq!(from_peer, "b");
            assert_eq!(expected_size, 42);
            assert!(matches!(then, FoundThen::DeliverLocal(9)));
        }
        None => panic!("the request is open"),
    }
    // A second one comes too late.
    assert!(engine
        .handle_incoming_found("a", request_id, file_id, "h".to_owned(), 42)
        .is_none());
}

#[test]
fn missing_is_reported_once_every_peer_said_so() {
    let mut engine = engine();
    let peers = runtime(&["a", "b"], 2);
    let request_id = RequestId { value: 1 };
    let _ = engine.start_local_fetch(&peers, request_id, FileId { value: 2 }, "h".to_owned(), 9);
    assert!(engine.handle_incoming_missing(&peers, "a", request_id).is_empty());
    let last = engine.handle_incoming_missing(&peers, "b", request_id);
    assert!(matches!(
        last.as_slice(),
        [FetchAction::Fail { waiter: 9, error: FetchError::NotAvailable }]
    ));
    // Nothing is left to time out.
    assert!(engine.hop_timed_out(&peers, request_id).is_empty());
}

#[test]
fn a_request_is_relayed_to_the_others_and_answered_upward() {
    let mut engine = engine();
    let peers = runtime(&["up", "down"], 2);
    let request_id = RequestId { value: 1 };
    let file_id = FileId { value: 2 };

    // This side holds the file: it says so and asks nobody.
    let held = engine.handle_incoming_request(
        &peers,
        "up",
        request_id,
        file_id,
        "h".to_owned(),
        Some(7),
    );
    assert!(matches!(
        held.as_slice(),
        [FetchAction::Send {
            public_key,
            message: SyncMessage::FetchFound { size: 7, .. },
        }] if public_key == "up"
    ));

    // It does not: everyone but the asker is asked.
    let relayed = engine.handle_incoming_request(
        &peers,
        "up",
        request_id,
        file_id,
        "h".to_owned(),
        None,
    );
    assert!(relayed.iter().all(|action| match action {
        FetchAction::Send { public_key, .. } => public_key == "down",
        _ => true,
    }));
    let found = engine.handle_incoming_found("down", request_id, file_id, "h".to_owned(), 3);
    assert!(matches!(
        found,
        Some(FoundAction::Receive { then: FoundThen::RelayUp { parent_peer, size: 3, .. }, .. })
            if parent_peer == "up"
    ));
}

#[test]
fn fetch_errors_have_words() {
    assert_eq!(
        FetchError::NotAvailable.to_string(),
        "file not available from any connected peer"
    );
    assert_eq!(FetchError::TimedOut.to_string(), "fetch timed out");
    assert_eq!(FetchError::ShuttingDown.to_string(), "runtime is shutting down");
}
