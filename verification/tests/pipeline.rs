//! The change pipeline.

use tagnetd::bus::{
    ContentChange, DaemonMessage, Ingest, MaterializePlacement, PeerCommand,
};
use tagnetd::configuration::{
    Configuration, Peer, RuntimeConfiguration, SyncDirectory, SyncType,
};
use tagnetd::database::{FileDatabase, SubtagRule};
use tagnetd::directory_manager::SyncDirectoryCommand;
use tagnetd::file_bytes::FileBytes;
use tagnetd::fetch::PendingFetches;
use tagnetd::ids::{FileId, TagId, TransferId};
use tagnetd::peer_session::{opening_sweep, CompletionStep, PeerSession, SessionStep};
use tagnetd::persistence::Touched;
use tagnetd::pipeline::{
    answer_fetch, answer_seek, handle_changes, sought_arrived, Action, FetchStep,
};
use tagnetd::state::{Change, ChangeOrigin, Frame, LogicalPath, ManifestEntry, SyncMessage};
use tagnetd::transfer::ReceiveOutcome;

const F: FileId = FileId { value: 0xf };
const T: TagId = TagId { value: 0x7 };

/// A universal directory, one for the tag and one for another tag; two peers, both
/// connected.
fn world() -> (Configuration, RuntimeConfiguration) {
    let peer = |key: &str| Peer {
        address: None,
        name: key.to_owned(),
        public_key: key.to_owned(),
    };
    let configuration = Configuration {
        sync_directories: vec![
            SyncDirectory {
                path: "/all".to_owned(),
                sync_type: SyncType::Universal { keep_deleted_files: false },
            },
            SyncDirectory {
                path: "/tag".to_owned(),
                sync_type: SyncType::TagBased { tags: vec![T] },
            },
            SyncDirectory {
                path: "/other".to_owned(),
                sync_type: SyncType::TagBased { tags: vec![TagId { value: 0x8 }] },
            },
        ],
        listen_port: None,
        peers: vec![peer("a"), peer("b")],
        tags: Vec::new(),
    };
    let mut runtime = RuntimeConfiguration::new(&configuration);
    for (_, peer) in runtime.peers.iter_mut() {
        peer.outbound = Some(1);
        peer.commands = Some(2);
    }
    (configuration, runtime)
}

fn local(path: &str) -> ChangeOrigin {
    ChangeOrigin::Local { directory_path: path.to_owned() }
}

fn peer(key: &str) -> ChangeOrigin {
    ChangeOrigin::Peer { public_key: key.to_owned() }
}

fn added(content: FileBytes, tags: Vec<TagId>) -> Ingest {
    Ingest::Content(ContentChange::FileAdded {
        file_id: F,
        logical_path: LogicalPath::new("a.txt"),
        content,
        content_hash: "h".to_owned(),
        tags,
    })
}

/// What actions amount to, in short words.
fn words(actions: &[Action]) -> Vec<String> {
    actions
        .iter()
        .map(|action| match action {
            Action::Command(SyncDirectoryCommand::CreateFile {
                physical_path,
                content,
                sync_directory_path,
                ..
            }) => format!(
                "create {sync_directory_path}/{} from {content:?}",
                physical_path.as_str()
            ),
            Action::Command(SyncDirectoryCommand::ChangeFile { sync_directory_path, .. }) => {
                format!("change in {sync_directory_path}")
            }
            Action::Command(SyncDirectoryCommand::MoveFile {
                physical_path,
                sync_directory_path,
                ..
            }) => format!("move to {sync_directory_path}/{}", physical_path.as_str()),
            Action::Command(SyncDirectoryCommand::RemoveFile { sync_directory_path, .. }) => {
                format!("remove from {sync_directory_path}")
            }
            Action::Command(SyncDirectoryCommand::ReconcileTagPlacement { file_tags, .. }) => {
                format!("place by {} tags", file_tags.len())
            }
            Action::Command(other) => format!("{other:?}"),
            Action::Send { public_key, .. } => format!("send to {public_key}"),
            Action::Instruct { public_key, command: PeerCommand::StartReceive { content_hash, .. } } => {
                format!("pull {content_hash} from {public_key}")
            }
            Action::RemoveSource { path } => format!("remove source {path}"),
            Action::Publish(_) => "publish".to_owned(),
            Action::ReadLocal { respond_to, .. } => format!("read for {respond_to}"),
            Action::Seek { expected_hash, tags, .. } => {
                format!("seek {expected_hash} by {} tags", tags.len())
            }
        })
        .collect()
}

fn run(database: &mut FileDatabase, message: DaemonMessage) -> Vec<String> {
    let (configuration, runtime) = world();
    words(&handle_changes(&configuration, &runtime, database, message, 1000))
}

/// A database that holds the file with one version.
fn holding(hash: &str) -> FileDatabase {
    let mut database = FileDatabase::new();
    database.add_file(F, &LogicalPath::new("a.txt")).unwrap();
    database.record_version_at(F, hash, "local", 1).unwrap();
    database
}

#[test]
fn a_new_local_file_is_placed_and_announced() {
    let mut database = FileDatabase::new();
    let content = FileBytes::FileToCopy("/tag/a.txt".to_owned());
    let actions = run(
        &mut database,
        DaemonMessage::Change(added(content, vec![T]), local("/tag")),
    );
    // Not back into the directory that it came from.
    assert_eq!(
        actions,
        vec![
            format!("create /all/{} from FileToCopy(\"/tag/a.txt\")", F.to_string()),
            "send to a".to_owned(),
            "send to b".to_owned(),
            "publish".to_owned(),
        ]
    );
    let version = database.latest_version(F).unwrap().unwrap();
    assert_eq!(version.content_hash, "h");
    assert_eq!(version.observed_at, 1000);
    assert_eq!(version.origin, "local");
    // Tags are not applied here.
    assert!(database.tag_ids_for_file(F, SubtagRule::Exclude).unwrap().is_empty());
}

/// A content that is to be moved is moved once, or copied everywhere and removed.
#[test]
fn a_move_is_honoured_once() {
    let source = || FileBytes::FileToMove("/all/x".to_owned());
    let actions = run(
        &mut FileDatabase::new(),
        DaemonMessage::Change(added(source(), Vec::new()), local("/all")),
    );
    assert_eq!(
        actions[0],
        format!("create /all/{} from FileToMove(\"/all/x\")", F.to_string())
    );
    let actions = run(
        &mut FileDatabase::new(),
        DaemonMessage::Change(added(source(), vec![T]), local("/all")),
    );
    assert_eq!(
        &actions[..3],
        &[
            format!("create /all/{} from FileToCopy(\"/all/x\")", F.to_string()),
            "create /tag/a.txt from FileToCopy(\"/all/x\")".to_owned(),
            "remove source /all/x".to_owned(),
        ]
    );
}

#[test]
fn a_known_file_is_left_alone_or_changed() {
    let mut database = holding("h");
    let same = DaemonMessage::Change(
        added(FileBytes::InMemory(Vec::new()), Vec::new()),
        local("/x"),
    );
    assert!(run(&mut database, same).is_empty());
    let mut database = holding("old");
    let newer = DaemonMessage::Change(
        added(FileBytes::InMemory(Vec::new()), Vec::new()),
        local("/x"),
    );
    assert_eq!(
        run(&mut database, newer),
        vec!["change in /all", "send to a", "send to b", "publish"]
    );
    assert_eq!(database.version_history(F).unwrap().len(), 2);
}

/// An announcement is passed on only once the bytes are here.
#[test]
fn announcements_are_pulled_before_they_are_passed_on() {
    let mut database = FileDatabase::new();
    let announcement = || {
        DaemonMessage::change(
            Change::FileMetadataAdded {
                file_id: F,
                logical_path: LogicalPath::new("a.txt"),
                content_hash: "h".to_owned(),
                tags: vec![T],
            },
            peer("a"),
        )
    };
    assert_eq!(run(&mut database, announcement()), vec!["pull h from a", "publish"]);
    assert!(database.file_exists(F).unwrap());
    assert!(database.latest_version(F).unwrap().is_none());

    let arrived = DaemonMessage::Materialize {
        file_id: F,
        content: FileBytes::FileToMove("/tmp/x".to_owned()),
        content_hash: "h".to_owned(),
        origin: peer("a"),
        placement: MaterializePlacement::Create {
            logical_path: LogicalPath::new("a.txt"),
            tags: Vec::new(),
        },
    };
    let actions = run(&mut database, arrived);
    assert_eq!(
        actions,
        vec![
            format!("create /all/{} from FileToMove(\"/tmp/x\")", F.to_string()),
            "send to b".to_owned(),
            "publish".to_owned(),
        ]
    );
    assert_eq!(database.latest_version(F).unwrap().unwrap().origin, "a");
    // Known by now: passed on as it is.
    assert_eq!(run(&mut database, announcement()), vec!["send to b"]);
    let changed = DaemonMessage::change(
        Change::FileMetadataChanged { file_id: F, content_hash: "h".to_owned() },
        peer("b"),
    );
    assert_eq!(run(&mut database, changed), vec!["send to a", "publish"]);
}

#[test]
fn moves_and_deletions_reach_the_directories() {
    let mut database = holding("h");
    database.tag_file(T, F, 1).unwrap();
    let moved = DaemonMessage::change(
        Change::FileMoved { file_id: F, logical_path: LogicalPath::new("b/c") },
        local("/all"),
    );
    assert_eq!(
        run(&mut database, moved),
        vec!["move to /tag/b/c", "send to a", "send to b", "publish"]
    );
    assert_eq!(database.logical_path_for_file_id(F).unwrap().as_str(), "b/c");
    let deleted =
        DaemonMessage::change(Change::FileDeleted { file_id: F, deleted_at: 5 }, peer("a"));
    assert_eq!(
        run(&mut database, deleted),
        vec!["remove from /all", "remove from /tag", "send to b", "publish"]
    );
    assert!(!database.file_exists(F).unwrap());
}

#[test]
fn a_vault_keeps_deleted_files() {
    let (mut configuration, runtime) = world();
    configuration.sync_directories[0].sync_type =
        SyncType::Universal { keep_deleted_files: true };
    let mut database = holding("h");
    let actions = handle_changes(
        &configuration,
        &runtime,
        &mut database,
        DaemonMessage::change(Change::FileDeleted { file_id: F, deleted_at: 5 }, peer("a")),
        0,
    );
    assert_eq!(words(&actions), vec!["send to b", "publish"]);
}

#[test]
fn tagging_looks_anew_at_where_a_file_belongs() {
    let mut database = holding("h");
    let tagged = || {
        DaemonMessage::change(
            Change::FileTagged { file_id: F, tag_id: T, metadata: None, modified_at: 10 },
            local(""),
        )
    };
    assert_eq!(
        run(&mut database, tagged()),
        vec!["place by 1 tags", "send to a", "send to b", "publish"]
    );
    let untagged = DaemonMessage::change(
        Change::FileUntagged { file_id: F, tag_id: T, modified_at: 20 },
        peer("b"),
    );
    assert_eq!(
        run(&mut database, untagged),
        vec!["place by 0 tags", "send to a", "publish"]
    );
    // A stale one changes nothing in the database.
    let _ = run(&mut database, tagged());
    assert!(database.tag_ids_for_file(F, SubtagRule::Exclude).unwrap().is_empty());
    assert_eq!(
        run(&mut database, DaemonMessage::ReconcilePlacement { file_id: F }),
        vec!["place by 0 tags", "seek h by 0 tags"]
    );
    assert!(run(
        &mut database,
        DaemonMessage::ReconcilePlacement { file_id: FileId { value: 99 } }
    )
    .is_empty());
}

#[test]
fn tags_change_by_the_last_writer() {
    let mut database = FileDatabase::new();
    let add = DaemonMessage::change(
        Change::TagAdded {
            tag_id: T,
            tag_name: "t".to_owned(),
            color: "red".to_owned(),
            metadata: None,
            modified_at: 10,
        },
        local(""),
    );
    assert_eq!(run(&mut database, add), vec!["send to a", "send to b", "publish"]);
    let rename = |name: &str, modified_at: i64| {
        DaemonMessage::change(
            Change::TagRenamed { tag_id: T, tag_name: name.to_owned(), modified_at },
            peer("a"),
        )
    };
    let _ = run(&mut database, rename("new", 20));
    let _ = run(&mut database, rename("stale", 15));
    let _ = run(
        &mut database,
        DaemonMessage::change(
            Change::TagRecolored { tag_id: T, color: "blue".to_owned(), modified_at: 30 },
            peer("a"),
        ),
    );
    assert_eq!(
        database.tag_definition(T).unwrap(),
        Some(("new".to_owned(), "blue".to_owned(), 30))
    );
    // Metadata is not stored and not passed on.
    let metadata = DaemonMessage::change(
        Change::TagChanged { tag_id: T, metadata: None, modified_at: 40 },
        peer("a"),
    );
    assert_eq!(run(&mut database, metadata), vec!["publish"]);
    let removed =
        DaemonMessage::change(Change::TagRemoved { tag_id: T, modified_at: 50 }, peer("a"));
    assert_eq!(run(&mut database, removed), vec!["send to b", "publish"]);
    assert!(!database.tag_exists(T).unwrap());
}

#[test]
fn provided_files_are_announced_without_placement() {
    let mut database = FileDatabase::new();
    let upload = || DaemonMessage::AnnounceProvided {
        file_id: F,
        logical_path: Some(LogicalPath::new("up")),
        content_hash: "h".to_owned(),
        size: 3,
        tags: Vec::new(),
    };
    assert_eq!(run(&mut database, upload()), vec!["send to a", "send to b", "publish"]);
    assert_eq!(database.latest_version(F).unwrap().unwrap().content_hash, "h");
    // The same upload again is refused.
    assert!(run(&mut database, upload()).is_empty());
    let edit = DaemonMessage::AnnounceProvided {
        file_id: F,
        logical_path: None,
        content_hash: "h2".to_owned(),
        size: 3,
        tags: Vec::new(),
    };
    assert_eq!(run(&mut database, edit), vec!["send to a", "send to b", "publish"]);
    assert_eq!(database.latest_version(F).unwrap().unwrap().content_hash, "h2");
}

/// What a peer's manifest announced goes on record and is announced at once, and only once.
#[test]
fn catalogued_files_are_recorded_once() {
    let mut database = FileDatabase::new();
    let catalog = |content_hash: &str| DaemonMessage::CatalogFile {
        file_id: F,
        logical_path: LogicalPath::new("c"),
        content_hash: content_hash.to_owned(),
        origin: peer("a"),
    };
    let (configuration, runtime) = world();
    let actions = handle_changes(&configuration, &runtime, &mut database, catalog("h"), 7);
    let announcement = Change::FileMetadataAdded {
        file_id: F,
        logical_path: LogicalPath::new("c"),
        content_hash: "h".to_owned(),
        tags: Vec::new(),
    };
    assert!(matches!(
        actions.as_slice(),
        [Action::Send { public_key, change }, Action::Publish(told)]
            if public_key == "b" && *change == announcement && *told == announcement
    ));
    assert_eq!(database.logical_path_for_file_id(F).unwrap().as_str(), "c");
    assert_eq!(database.latest_version(F).unwrap().unwrap().origin, "a");

    // The bytes are placed; nothing is recorded, sent or published again.
    let arrived = |placement: MaterializePlacement| DaemonMessage::Materialize {
        file_id: F,
        content: FileBytes::FileToMove("/tmp/x".to_owned()),
        content_hash: "h".to_owned(),
        origin: peer("a"),
        placement,
    };
    let create = MaterializePlacement::Create {
        logical_path: LogicalPath::new("c"),
        tags: Vec::new(),
    };
    assert_eq!(
        run(&mut database, arrived(create)),
        vec![format!("create /all/{} from FileToMove(\"/tmp/x\")", F.to_string())]
    );
    assert_eq!(
        run(&mut database, arrived(MaterializePlacement::Change)),
        vec!["change in /all"]
    );
    assert_eq!(database.version_history(F).unwrap(), vec![(1, "h".to_owned())]);

    // A later version of a known file.
    let actions = handle_changes(&configuration, &runtime, &mut database, catalog("h2"), 8);
    assert!(matches!(
        actions.as_slice(),
        [
            Action::Send { public_key, change: Change::FileMetadataChanged { file_id: F, .. } },
            Action::Publish(Change::FileMetadataChanged { file_id: F, content_hash }),
        ] if public_key == "b" && content_hash == "h2"
    ));
    assert_eq!(
        database.version_history(F).unwrap(),
        vec![(1, "h".to_owned()), (2, "h2".to_owned())]
    );
}

/// From an entry of a peer's manifest to the announcement of the file to the other peer.
#[test]
fn a_file_of_a_manifest_is_announced_to_the_other_peers() {
    let (configuration, runtime) = world();
    let mut database = FileDatabase::new();
    let frame = Frame::Sync(SyncMessage::Manifest {
        entries: vec![ManifestEntry {
            file_id: F,
            history: vec![(1, "h".to_owned())],
            latest_observed_at: 5,
            logical_path: LogicalPath::new("c"),
        }],
    });
    let mut session = PeerSession::new("a");
    let step = session.on_frame(frame, &runtime, &database, &mut PendingFetches::new());
    let (mut catalog, mut pulls) = match step {
        SessionStep::Reconcile { catalog, pulls } => (catalog, pulls),
        other => panic!("unexpected step {other:?}"),
    };
    assert_eq!((catalog.len(), pulls.len()), (1, 1));
    assert_eq!(run(&mut database, catalog.remove(0)), vec!["send to b", "publish"]);
    let completed = session.on_completed(
        TransferId { value: 1 },
        pulls.remove(0).purpose,
        ReceiveOutcome::Complete(FileBytes::FileToMove("/tmp/x".to_owned())),
        &runtime,
        &mut PendingFetches::new(),
    );
    let arrived = match completed {
        CompletionStep::Enqueue(message) => message,
        other => panic!("unexpected step {other:?}"),
    };
    let actions = handle_changes(&configuration, &runtime, &mut database, arrived, 9);
    assert_eq!(
        words(&actions),
        vec![format!("create /all/{} from FileToMove(\"/tmp/x\")", F.to_string())]
    );
    assert_eq!(database.version_history(F).unwrap(), vec![(1, "h".to_owned())]);
}

/// A version whose bytes did not come is sought at the next session, though an older one
/// is held.
#[test]
fn a_failed_pull_is_made_good_at_the_next_session() {
    let mut database = holding("v1");
    let entry = || {
        Frame::Sync(SyncMessage::Manifest {
            entries: vec![ManifestEntry {
                file_id: F,
                history: vec![(1, "v1".to_owned()), (2, "v2".to_owned())],
                latest_observed_at: 5,
                logical_path: LogicalPath::new("a.txt"),
            }],
        })
    };
    let (_, runtime) = world();
    let mut session = PeerSession::new("a");
    match session.on_frame(entry(), &runtime, &database, &mut PendingFetches::new()) {
        SessionStep::Reconcile { catalog, .. } => {
            for message in catalog {
                let _ = run(&mut database, message);
            }
        }
        other => panic!("unexpected step {other:?}"),
    }
    // The pull fails. The manifest asks for nothing then, but the sweep does.
    assert!(matches!(
        session.on_frame(entry(), &runtime, &database, &mut PendingFetches::new()),
        SessionStep::Reconcile { pulls, .. } if pulls.is_empty()
    ));
    let mut sweep = opening_sweep(&database);
    assert_eq!(sweep.len(), 1);
    assert_eq!(
        run(&mut database, sweep.remove(0)),
        vec!["place by 0 tags", "seek v2 by 0 tags"]
    );
    assert!(answer_seek("v2", &Some("v1".to_owned())));
}

/// What a message changes is what it says that it touches.
#[test]
fn messages_say_what_they_touch() {
    let touched = |message: DaemonMessage| {
        let touched = Touched::by_message(&message);
        (touched.files, touched.tags)
    };
    let change = |change: Change| DaemonMessage::change(change, peer("a"));
    assert_eq!(
        touched(change(Change::FileDeleted { file_id: F, deleted_at: 1 })),
        (vec![F], Vec::new())
    );
    assert_eq!(
        touched(change(Change::FileUntagged { file_id: F, tag_id: T, modified_at: 1 })),
        (Vec::new(), vec![T])
    );
    assert_eq!(
        touched(change(Change::TagRemoved { tag_id: T, modified_at: 1 })),
        (Vec::new(), vec![T])
    );
    assert_eq!(
        touched(DaemonMessage::ReconcilePlacement { file_id: F }),
        (Vec::new(), Vec::new())
    );
    let content = FileBytes::InMemory(Vec::new());
    assert_eq!(
        touched(DaemonMessage::Change(added(content, vec![T]), local("/x"))),
        (vec![F], Vec::new())
    );
}

/// A subscriber learns of a new local file by its announcement.
#[test]
fn applied_content_is_published() {
    let (configuration, runtime) = world();
    let mut database = FileDatabase::new();
    let content = FileBytes::InMemory(vec![1]);
    let message = DaemonMessage::Change(added(content, vec![T]), local("/tag"));
    let actions = handle_changes(&configuration, &runtime, &mut database, message, 1);
    assert!(matches!(
        actions.last(),
        Some(Action::Publish(Change::FileMetadataAdded { file_id: F, tags, .. }))
            if *tags == vec![T]
    ));
    let edit = DaemonMessage::Change(
        Ingest::Content(ContentChange::FileChanged {
            file_id: F,
            content: FileBytes::InMemory(vec![2]),
            content_hash: "h2".to_owned(),
        }),
        local("/tag"),
    );
    let actions = handle_changes(&configuration, &runtime, &mut database, edit, 2);
    assert!(matches!(
        actions.last(),
        Some(Action::Publish(Change::FileMetadataChanged { file_id: F, content_hash }))
            if content_hash == "h2"
    ));
}

/// A deletion older than what it deletes removes nothing.
#[test]
fn stale_deletions_are_ignored() {
    let mut database = holding("h");
    let deleted = |deleted_at: i64| {
        DaemonMessage::change(Change::FileDeleted { file_id: F, deleted_at }, peer("a"))
    };
    assert_eq!(run(&mut database, deleted(0)), vec!["send to b"]);
    assert!(database.file_exists(F).unwrap());
    // The version is of time 1: a deletion of that time holds.
    assert_eq!(
        run(&mut database, deleted(1)),
        vec!["remove from /all", "send to b", "publish"]
    );
    assert!(!database.file_exists(F).unwrap());

    database.add_tag(T, "t", "red", 10).unwrap();
    let removed = |modified_at: i64| {
        DaemonMessage::change(Change::TagRemoved { tag_id: T, modified_at }, peer("a"))
    };
    assert_eq!(run(&mut database, removed(9)), vec!["send to b"]);
    assert!(database.tag_exists(T).unwrap());
    assert_eq!(run(&mut database, removed(10)), vec!["send to b", "publish"]);
    assert!(!database.tag_exists(T).unwrap());
}

/// Bytes that a directory wants and none holds are asked of the peers, and placed.
#[test]
fn wanted_bytes_are_sought() {
    let mut database = holding("h");
    database.tag_file(T, F, 1).unwrap();
    let look = || DaemonMessage::ReconcilePlacement { file_id: F };
    assert_eq!(run(&mut database, look()), vec!["place by 1 tags", "seek h by 1 tags"]);
    assert!(answer_seek("h", &None));
    assert!(!answer_seek("h", &Some("h".to_owned())));
    // What is held is an older version.
    assert!(answer_seek("h", &Some("old".to_owned())));

    let arrived = |database: &FileDatabase, hash: &str, held: bool| {
        sought_arrived(
            database,
            F,
            hash.to_owned(),
            LogicalPath::new("a.txt"),
            vec![T],
            held,
            FileBytes::FileToMove("/tmp/x".to_owned()),
        )
    };
    // By now the version may be another.
    assert!(arrived(&database, "old", false).is_none());
    let message = arrived(&database, "h", true).unwrap();
    assert_eq!(
        run(&mut database, message),
        vec!["change in /all", "change in /tag", "remove source /tmp/x"]
    );
    let message = arrived(&database, "h", false).unwrap();
    assert_eq!(
        run(&mut database, message),
        vec![
            format!("create /all/{} from FileToCopy(\"/tmp/x\")", F.to_string()),
            "create /tag/a.txt from FileToCopy(\"/tmp/x\")".to_owned(),
            "remove source /tmp/x".to_owned(),
        ]
    );
    assert_eq!(database.version_history(F).unwrap().len(), 1);

    // No directory wants it: nothing is sought.
    let (mut configuration, runtime) = world();
    configuration.sync_directories.clear();
    let actions = handle_changes(&configuration, &runtime, &mut database, look(), 0);
    assert_eq!(words(&actions), vec!["place by 1 tags"]);
}

#[test]
fn a_fetch_is_answered_here_or_from_peers() {
    let fetch = DaemonMessage::Fetch {
        file_id: F,
        expected_hash: "h".to_owned(),
        respond_to: 6,
    };
    assert_eq!(run(&mut FileDatabase::new(), fetch), vec!["read for 6"]);
    let content = || FileBytes::FileToCopy("/all/f".to_owned());
    assert!(matches!(
        answer_fetch("h", Some((content(), "h".to_owned()))),
        FetchStep::Answer(found) if found == content()
    ));
    assert!(matches!(
        answer_fetch("h", Some((content(), "other".to_owned()))),
        FetchStep::AskPeers
    ));
    assert!(matches!(answer_fetch("h", None), FetchStep::AskPeers));
}

/// Whatever order changes arrive in, the same state results.
#[test]
fn the_order_of_relationships_does_not_matter() {
    let changes = || {
        vec![
            Change::FileTagged { file_id: F, tag_id: T, metadata: None, modified_at: 10 },
            Change::FileTagged { file_id: F, tag_id: T, metadata: None, modified_at: 30 },
            Change::TagTagged {
                taggee_id: T,
                tag_id: TagId { value: 9 },
                metadata: None,
                modified_at: 5,
            },
        ]
    };
    let mut one = holding("h");
    for change in changes() {
        let _ = run(&mut one, DaemonMessage::change(change, peer("a")));
    }
    let mut two = holding("h");
    for change in changes().into_iter().rev() {
        let _ = run(&mut two, DaemonMessage::change(change, peer("a")));
    }
    assert_eq!(
        one.relationship_manifest_entries().unwrap(),
        two.relationship_manifest_entries().unwrap()
    );
}
