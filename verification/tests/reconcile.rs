//! Reconciliation of manifests with a peer.

use tagnetd::bus::{DaemonMessage, MaterializePlacement};
use tagnetd::configuration::{Configuration, RuntimeConfiguration};
use tagnetd::database::{FileDatabase, SubtagRule};
use tagnetd::ids::{FileId, TagId};
use tagnetd::pipeline::handle_changes;
use tagnetd::reconcile::{
    build_local_manifest, build_local_tag_manifest, build_tag_request_response, decide_request,
    reconcile_peer_manifest, reconcile_peer_tag_manifest, relationship_to_change,
    ReconcileDecision, RequestReason,
};
use tagnetd::state::{
    Change, ChangeOrigin, Frame, LogicalPath, ManifestEntry, RelationshipKind, RelationshipManifestEntry,
    SyncMessage, TagManifestEntry,
};

fn memory_db() -> FileDatabase {
    FileDatabase::new()
}

/// A file the peer has and this side has never seen is wanted as a new file at the
/// peer's path.
#[test]
fn unknown_file_is_requested_as_create() {
    let database = memory_db();
    let file_id = FileId::new();
    let logical_path = LogicalPath::new("subdir/new.txt");
    let entry = ManifestEntry {
        file_id,
        history: vec![(1, "aaaa".to_owned()), (2, "bbbb".to_owned())],
        latest_observed_at: 100,
        logical_path: logical_path.clone(),
    };

    let wanted = reconcile_peer_manifest(&vec![entry], &database);
    assert_eq!(wanted.len(), 1);
    assert_eq!(wanted[0].file_id, file_id);
    assert_eq!(wanted[0].content_hash, "bbbb");
    match &wanted[0].placement {
        MaterializePlacement::Create { logical_path: got_logical_path, tags } => {
            assert_eq!(got_logical_path, &logical_path);
            assert!(tags.is_empty());
        }
        other => panic!("expected Create placement, got {other:?}"),
    }
}

/// A file whose latest hash is held already is not wanted.
#[test]
fn equal_latest_is_not_wanted() {
    let mut database = memory_db();
    let file_id = FileId::new();
    database.add_file(file_id, &LogicalPath::new("f.txt")).unwrap();
    database.record_version(file_id, "bbbb", "local").unwrap();

    let entry = ManifestEntry {
        file_id,
        history: vec![(1, "bbbb".to_owned())],
        latest_observed_at: 100,
        logical_path: LogicalPath::new("f.txt"),
    };

    let wanted = reconcile_peer_manifest(&vec![entry], &database);
    assert!(wanted.is_empty());
}

/// A file that this side is strictly behind on is wanted at the peer's newer hash.
#[test]
fn behind_is_wanted_as_change() {
    let mut database = memory_db();
    let file_id = FileId::new();
    database.add_file(file_id, &LogicalPath::new("f.txt")).unwrap();
    database.record_version(file_id, "v1", "local").unwrap();

    let entry = ManifestEntry {
        file_id,
        history: vec![(1, "v1".to_owned()), (2, "v2".to_owned())],
        latest_observed_at: 100,
        logical_path: LogicalPath::new("f.txt"),
    };

    let wanted = reconcile_peer_manifest(&vec![entry], &database);
    assert_eq!(wanted.len(), 1);
    assert_eq!(wanted[0].file_id, file_id);
    assert_eq!(wanted[0].content_hash, "v2");
    assert!(
        matches!(wanted[0].placement, MaterializePlacement::Change),
        "known file placement must be Change, got {:?}",
        wanted[0].placement
    );
}

/// Of two sides whose histories parted, at most the one with the older version pulls.
#[test]
fn one_side_of_a_divergence_pulls() {
    let file_id = FileId::new();
    let mut ours = memory_db();
    ours.add_file(file_id, &LogicalPath::new("f")).unwrap();
    ours.record_version_at(file_id, "base", "local", 1).unwrap();
    ours.record_version_at(file_id, "ours", "local", 10).unwrap();
    let mut theirs = memory_db();
    theirs.add_file(file_id, &LogicalPath::new("f")).unwrap();
    theirs.record_version_at(file_id, "base", "local", 1).unwrap();
    theirs.record_version_at(file_id, "theirs", "local", 20).unwrap();

    let our_entries = build_local_manifest(&ours).unwrap();
    let their_entries = build_local_manifest(&theirs).unwrap();
    assert_eq!(our_entries.len(), 1);
    assert_eq!(our_entries[0].latest_observed_at, 10);
    assert_eq!(
        our_entries[0].history,
        vec![(1, "base".to_owned()), (2, "ours".to_owned())]
    );

    assert!(matches!(
        decide_request(&ours, &their_entries[0]).unwrap(),
        ReconcileDecision::Divergent { ours_observed_at: 10, request: true }
    ));
    assert!(matches!(
        decide_request(&theirs, &our_entries[0]).unwrap(),
        ReconcileDecision::Divergent { ours_observed_at: 20, request: false }
    ));
}

#[test]
fn decisions_name_their_reason() {
    let file_id = FileId::new();
    let mut database = memory_db();
    let entry = ManifestEntry {
        file_id,
        history: vec![(1, "v1".to_owned()), (2, "v2".to_owned())],
        latest_observed_at: 100,
        logical_path: LogicalPath::new("f"),
    };
    assert!(matches!(
        decide_request(&database, &entry).unwrap(),
        ReconcileDecision::Request(RequestReason::UnknownFile)
    ));
    database.add_file(file_id, &LogicalPath::new("f")).unwrap();
    database.record_version(file_id, "v1", "local").unwrap();
    assert!(matches!(
        decide_request(&database, &entry).unwrap(),
        ReconcileDecision::Request(RequestReason::WeAreBehind)
    ));
    database.record_version(file_id, "v2", "local").unwrap();
    assert!(matches!(
        decide_request(&database, &entry).unwrap(),
        ReconcileDecision::Nothing
    ));
    // Ahead of the peer: nothing to pull either.
    database.record_version(file_id, "v3", "local").unwrap();
    assert!(matches!(
        decide_request(&database, &entry).unwrap(),
        ReconcileDecision::Nothing
    ));
}

#[test]
fn newer_definitions_are_requested_and_newer_relationships_applied() {
    let known = TagId { value: 1 };
    let unknown = TagId { value: 2 };
    let file_id = FileId { value: 7 };
    let mut database = memory_db();
    database.add_tag(known, "known", "red", 100).unwrap();
    database.add_file(file_id, &LogicalPath::new("f")).unwrap();
    database.tag_file(known, file_id, 50).unwrap();

    let stale = RelationshipManifestEntry {
        tag_id: known,
        target_id: file_id.to_string(),
        kind: RelationshipKind::File,
        modified_at: 40,
        deleted: true,
    };
    let newer = RelationshipManifestEntry {
        tag_id: known,
        target_id: file_id.to_string(),
        kind: RelationshipKind::File,
        modified_at: 60,
        deleted: true,
    };
    let step = reconcile_peer_tag_manifest(
        &vec![
            TagManifestEntry { tag_id: known, modified_at: 100 },
            TagManifestEntry { tag_id: unknown, modified_at: 5 },
        ],
        &vec![stale, newer],
        &database,
    );
    assert_eq!(step.requests, vec![unknown]);
    assert_eq!(
        step.changes,
        vec![Change::FileUntagged { file_id, tag_id: known, modified_at: 60 }]
    );
}

#[test]
fn a_definition_is_answered_or_reported_missing() {
    let tag_id = TagId { value: 3 };
    let mut database = memory_db();
    assert_eq!(
        build_tag_request_response(tag_id, &database),
        Frame::Sync(SyncMessage::TagNotFound { tag_id })
    );
    database.add_tag(tag_id, "work", "blue", 9).unwrap();
    assert_eq!(
        build_tag_request_response(tag_id, &database),
        Frame::Change(Change::TagAdded {
            tag_id,
            tag_name: "work".to_owned(),
            color: "blue".to_owned(),
            metadata: None,
            modified_at: 9,
        })
    );
}

#[test]
fn relationships_become_changes() {
    let tag_id = TagId { value: 1 };
    let child = TagId { value: 2 };
    let entry = RelationshipManifestEntry {
        tag_id,
        target_id: child.to_string(),
        kind: RelationshipKind::Tag,
        modified_at: 3,
        deleted: false,
    };
    assert_eq!(
        relationship_to_change(&entry),
        Some(Change::TagTagged { taggee_id: child, tag_id, metadata: None, modified_at: 3 })
    );
    let broken = RelationshipManifestEntry {
        tag_id,
        target_id: "no identifier".to_owned(),
        kind: RelationshipKind::Tag,
        modified_at: 3,
        deleted: false,
    };
    assert_eq!(relationship_to_change(&broken), None);
}

/// A manifest of relationships, tombstones among them, brings a peer to the same state.
#[test]
fn tag_manifests_bring_a_peer_up_to_date() {
    let tag_id = TagId { value: 1 };
    let file_id = FileId { value: 2 };
    let other = FileId { value: 3 };
    let mut ours = memory_db();
    ours.add_tag(tag_id, "t", "red", 1).unwrap();
    ours.tag_file(tag_id, file_id, 10).unwrap();
    ours.tag_file(tag_id, other, 10).unwrap();
    ours.untag_file(tag_id, other, 20).unwrap();
    let (definitions, relationships) = build_local_tag_manifest(&ours).unwrap();
    assert_eq!(definitions.len(), 1);
    assert_eq!(relationships.len(), 2);

    let mut theirs = memory_db();
    theirs.tag_file(tag_id, other, 15).unwrap();
    for entry in &relationships {
        theirs.apply_relationship(entry).unwrap();
    }
    assert_eq!(theirs.file_ids_for_tag(tag_id, SubtagRule::Exclude).unwrap(), vec![file_id]);
}

/// Two devices that exchange tag manifests define the same tags, and agree on which
/// relationships hold.
#[test]
fn exchanged_tag_manifests_make_devices_agree() {
    let (a, b, c) = (TagId { value: 1 }, TagId { value: 2 }, TagId { value: 3 });
    let (f, g) = (FileId { value: 4 }, FileId { value: 5 });
    let mut ours = memory_db();
    ours.add_tag(a, "a", "red", 1).unwrap();
    ours.add_tag(b, "b-ours", "red", 5).unwrap();
    ours.tag_file(a, f, 1).unwrap();
    ours.tag_file(b, g, 1).unwrap();
    ours.untag_file(b, g, 9).unwrap();
    ours.tag_tag(a, b, 2).unwrap();
    let mut theirs = memory_db();
    theirs.add_tag(b, "b-theirs", "blue", 3).unwrap();
    theirs.add_tag(c, "c", "blue", 1).unwrap();
    theirs.tag_file(c, f, 1).unwrap();
    theirs.tag_tag(a, b, 1).unwrap();
    theirs.untag_tag(a, b, 4).unwrap();
    let before = (
        build_local_tag_manifest(&ours).unwrap(),
        build_local_tag_manifest(&theirs).unwrap(),
    );
    let take = |into: &mut FileDatabase,
                from: &FileDatabase,
                manifest: &(Vec<TagManifestEntry>, Vec<RelationshipManifestEntry>)| {
        let called_for = reconcile_peer_tag_manifest(&manifest.0, &manifest.1, into);
        let answers = called_for.requests.iter().map(|tag_id| {
            match build_tag_request_response(*tag_id, from) {
                Frame::Change(change) => change,
                other => panic!("unexpected frame {other:?}"),
            }
        });
        let changes: Vec<Change> = answers.chain(called_for.changes.clone()).collect();
        let configuration = Configuration {
            sync_directories: Vec::new(),
            listen_port: None,
            peers: Vec::new(),
            tags: Vec::new(),
        };
        let runtime = RuntimeConfiguration::new(&configuration);
        for change in changes {
            let origin = ChangeOrigin::Peer { public_key: "peer".to_owned() };
            let message = DaemonMessage::change(change, origin);
            handle_changes(&configuration, &runtime, into, message, 0);
        }
    };
    let mut ours_after = ours;
    let theirs_before = {
        let mut copy = memory_db();
        copy.add_tag(b, "b-theirs", "blue", 3).unwrap();
        copy.add_tag(c, "c", "blue", 1).unwrap();
        copy
    };
    take(&mut ours_after, &theirs_before, &before.1);
    take(&mut theirs, &ours_after, &before.0);

    let live = |database: &FileDatabase| -> Vec<(TagId, String)> {
        database
            .relationship_manifest_entries()
            .unwrap()
            .into_iter()
            .filter(|entry| !entry.deleted)
            .map(|entry| (entry.tag_id, entry.target_id))
            .collect()
    };
    assert_eq!(ours_after.get_all_tags(), theirs.get_all_tags());
    assert_eq!(ours_after.tag_from_id(b).unwrap().name, "b-ours");
    assert_eq!(live(&ours_after), live(&theirs));
    assert_eq!(live(&theirs), vec![(a, f.to_string()), (c, f.to_string())]);
}
