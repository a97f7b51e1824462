//! Identifiers, texts, paths and configuration.

use tagnetd::directory_manager::events::DebouncedEventKind;
use tagnetd::watcher::{debounce, RawEvent};
use tagnetd::bus::{DaemonMessage, Ingest};
use tagnetd::configuration::{
    contains_all_tags, Configuration, ConfigurationError, Peer, RuntimeConfiguration,
    SyncDirectory, SyncType, TagDeclaration,
};
use tagnetd::database::{now_millis, DatabaseError, EntryType, FileDatabase};
use tagnetd::ids::{FileId, RequestId, TagId, TransferId};
use tagnetd::path_text::{
    components_of, file_name_of, join_path, lies_under, relative_path, same_path,
};
use tagnetd::paths::{control_socket_path, Paths};
use tagnetd::runtime::{bind_address, enqueue_declared_tags, RunError, RunPaths};
use tagnetd::state::{Change, ChangeOrigin, LogicalPath};
use tagnetd::table::Table;
use tagnetd::text::{decimal, has_text, is_blank, is_white_space, trim};

#[test]
fn white_space_is_what_unicode_says() {
    for c in '\0'..=char::MAX {
        assert_eq!(is_white_space(c), c.is_whitespace(), "{c:?}");
    }
}

#[test]
fn texts_are_trimmed_as_the_standard_library_does() {
    for text in ["", " ", " a ", "\u{a0}x y\u{2003}", "abc", "\u{feff}a"] {
        assert_eq!(trim(text), text.trim());
        assert_eq!(is_blank(text), text.trim().is_empty());
    }
    assert!(has_text("hello", "ell"));
    assert!(has_text("hello", ""));
    assert!(!has_text("hello", "elo"));
}

#[test]
fn numbers_are_written_in_decimal() {
    for n in [0, 7, 10, 99, 100, 65535, u64::MAX] {
        assert_eq!(decimal(n), n.to_string());
    }
}

#[test]
fn identifiers_are_written_and_read() {
    let id = FileId { value: 0x7f3a1b2c4d5e6f708192a3b4c5d6e7f8 };
    assert_eq!(id.to_string(), "7f3a1b2c4d5e6f708192a3b4c5d6e7f8");
    assert_eq!(FileId::from_string(&id.to_string()), Some(id));
    assert_eq!(
        FileId::from_string("7F3A1B2C-4D5E-6F70-8192-A3B4C5D6E7F8"),
        Some(id)
    );
    assert_eq!(FileId::from_string("photo.jpg"), None);
    assert_eq!(TagId::from_string(""), None);
    assert_ne!(FileId::new(), FileId::new());
}

#[test]
fn fresh_identifiers_are_marked_as_random() {
    for value in [
        FileId::new().value,
        TagId::new().value,
        RequestId::new().value,
        TransferId::new().value,
    ] {
        let text = FileId { value }.to_string();
        assert_eq!(&text[12..13], "4", "{text}");
        assert!(["8", "9", "a", "b"].contains(&&text[16..17]), "{text}");
    }
}

#[test]
fn the_clock_runs() {
    // 2020-01-01.
    assert!(now_millis() > 1_577_836_800_000);
}

#[test]
fn entry_types_have_codes() {
    assert_eq!(EntryType::File.to_code(), 0);
    assert_eq!(EntryType::Tag.to_code(), 1);
    assert_eq!(EntryType::from_code(0), Some(EntryType::File));
    assert_eq!(EntryType::from_code(1), Some(EntryType::Tag));
    assert_eq!(EntryType::from_code(2), None);
}

#[test]
fn paths_have_components() {
    for text in ["", "/", "a", "/a/b", "a//b/", "./a/./b", "/./a", "../a", "a/.."] {
        let expected: Vec<String> = std::path::Path::new(text)
            .components()
            .map(|c| c.as_os_str().to_string_lossy().into_owned())
            .collect();
        assert_eq!(components_of(text), expected, "{text}");
        assert_eq!(
            file_name_of(text),
            std::path::Path::new(text).file_name().map(|n| n.to_string_lossy().into_owned()),
            "{text}"
        );
    }
}

#[test]
fn paths_are_joined_and_cut() {
    for (a, b) in [("/d", "f"), ("/d/", "f"), ("", "f"), ("/d", "/f"), ("/d", ""), ("/", "f")] {
        assert_eq!(
            join_path(a, b),
            std::path::Path::new(a).join(b).to_string_lossy().into_owned()
        );
    }
    assert!(lies_under("/d/e/f", "/d/e"));
    assert!(lies_under("/d", "/d/"));
    assert!(!lies_under("/de", "/d"));
    assert_eq!(relative_path("/d/e/f", "/d"), Some("e/f".to_owned()));
    assert_eq!(relative_path("/d", "/d"), Some(String::new()));
    assert_eq!(relative_path("/x", "/d"), None);
    assert!(same_path("/a//b/", "/a/b"));
    assert!(!same_path("a", "/a"));
}

#[test]
fn an_instance_keeps_its_files_in_known_places() {
    let paths = Paths::from(RunPaths {
        data_dir: "/data".to_owned(),
        identity_file: "/keys/id".to_owned(),
    });
    assert_eq!(paths.data_dir(), "/data");
    assert_eq!(paths.identity_path(), "/keys/id");
    assert_eq!(paths.main_db_path(), "/data/main.db");
    assert_eq!(paths.sync_directory_db_path("/home/me/testcloud"), "/data/testcloud.db");
    assert_eq!(paths.sync_directory_db_path("/"), "/data/unnamed.db");
    assert_eq!(paths.fetch_temp_dir(), "/data/fetch-temp");
    assert_eq!(
        Paths::new("d".to_owned(), "i".to_owned()).main_db_path(),
        "d/main.db"
    );
    assert_eq!(control_socket_path(), "/run/tagnet/tagnet.sock");
}

#[test]
fn start_errors_have_words() {
    assert_eq!(
        RunError::Identity { path: "/id".to_owned(), source: "gone".to_owned() }.to_string(),
        "failed to load identity key at /id: gone"
    );
    assert_eq!(
        RunError::Database(DatabaseError::UnableToOpenOrCreate).to_string(),
        "failed to open main database: UnableToOpenOrCreate"
    );
    assert_eq!(
        RunError::Bind { address: bind_address(3468), source: "in use".to_owned() }.to_string(),
        "failed to bind peer listener to 0.0.0.0:3468: in use"
    );
    assert_eq!(
        ConfigurationError::Read { path: "/c".to_owned(), source: "gone".to_owned() }.to_string(),
        "failed to read configuration file /c: gone"
    );
    assert_eq!(
        ConfigurationError::Parse("eof".to_owned()).to_string(),
        "failed to parse configuration JSON: eof"
    );
}

fn declaring(tags: Vec<TagDeclaration>) -> Configuration {
    Configuration { sync_directories: Vec::new(), listen_port: None, peers: Vec::new(), tags }
}

/// A declared tag exists once its message is applied, and yields to any definition.
#[test]
fn declared_tags_are_a_floor() {
    let id = TagId { value: 1 };
    let configuration = declaring(vec![
        TagDeclaration { id, name: "work".to_owned(), color: String::new() },
        TagDeclaration { id: TagId { value: 2 }, name: "  ".to_owned(), color: String::new() },
    ]);
    let messages = enqueue_declared_tags(&configuration);
    assert_eq!(messages.len(), 1);
    match &messages[0] {
        DaemonMessage::Change(
            Ingest::Meta(Change::TagAdded { tag_id, tag_name, color, metadata, modified_at }),
            ChangeOrigin::Local { directory_path },
        ) => {
            assert_eq!(*tag_id, id);
            assert_eq!(tag_name, "work");
            assert_eq!(color, "#F44336");
            assert_eq!(*metadata, None);
            assert_eq!(*modified_at, i64::MIN);
            assert_eq!(directory_path, "");
            let mut database = FileDatabase::new();
            database.add_tag(id, tag_name, color, *modified_at).unwrap();
            assert!(database.tag_exists(id).unwrap());
            database.update_tag_name(id, "job", 1).unwrap();
            database.add_tag(id, tag_name, color, *modified_at).unwrap();
            assert_eq!(database.tag_from_id(id).unwrap().name, "job");
        }
        other => panic!("unexpected message {other:?}"),
    }
}

#[test]
fn the_example_configuration() {
    let example = Configuration::new_example();
    assert_eq!(example.listen_port, Some(3468));
    assert_eq!(example.peers.len(), 1);
    assert_eq!(example.peers[0].address, Some(("192.168.188.10".to_owned(), 2468)));
    assert_eq!(example.peer_name("public-key"), "test");
    assert_eq!(example.peer_name("stranger"), "stranger");
    assert_eq!(
        example.get_external_sync_type(),
        SyncType::Universal { keep_deleted_files: false }
    );
}

#[test]
fn the_external_sync_type_gathers_the_tags() {
    let a = TagId { value: 1 };
    let b = TagId { value: 2 };
    let directory = |tags: Vec<TagId>| SyncDirectory {
        path: "/d".to_owned(),
        sync_type: SyncType::TagBased { tags },
    };
    let configuration = Configuration {
        sync_directories: vec![directory(vec![a]), directory(vec![b])],
        listen_port: None,
        peers: Vec::new(),
        tags: Vec::new(),
    };
    assert_eq!(
        configuration.get_external_sync_type(),
        SyncType::TagBased { tags: vec![a, b] }
    );
}

#[test]
fn directories_place_files_by_type() {
    let file_id = FileId { value: 5 };
    let path = LogicalPath::new("a/b");
    let universal = SyncType::Universal { keep_deleted_files: true };
    assert_eq!(universal.physical_for(&path, file_id).as_str(), file_id.to_string());
    let tagged = SyncType::TagBased { tags: vec![TagId { value: 1 }] };
    assert_eq!(tagged.physical_for(&path, file_id).as_str(), "a/b");
    assert!(universal.wants(&Vec::new()));
    assert!(!tagged.wants(&Vec::new()));
    assert!(tagged.wants(&vec![TagId { value: 2 }, TagId { value: 1 }]));
    assert!(contains_all_tags(&Vec::new(), &Vec::new()));
}

#[test]
fn the_runtime_knows_each_peer_once() {
    let peer = |key: &str| Peer {
        address: None,
        name: key.to_owned(),
        public_key: key.to_owned(),
    };
    let configuration = Configuration {
        sync_directories: Vec::new(),
        listen_port: None,
        peers: vec![peer("a"), peer("b"), peer("a")],
        tags: Vec::new(),
    };
    let mut runtime = RuntimeConfiguration::new(&configuration);
    assert_eq!(runtime.peers.len(), 2);
    let i = runtime.position("b").unwrap();
    runtime.peers[i].1.outbound = Some(4);
    assert_eq!(runtime.peer_outbound("b"), Some(4));
    assert_eq!(runtime.peer_outbound("a"), None);
    assert_eq!(runtime.peer_commands("b"), None);
    assert_eq!(runtime.position("c"), None);
}

#[test]
fn tables_stay_in_order() {
    let mut table: Table<u64, &str> = Table::new();
    table.insert(5, "five");
    table.insert(1, "one");
    table.insert(3, "three");
    table.insert(3, "drei");
    assert_eq!(table.len(), 3);
    assert_eq!((0..3).map(|i| table.key_at(i)).collect::<Vec<u64>>(), vec![1, 3, 5]);
    assert_eq!(table.get(3), Some(&"drei"));
    assert_eq!(table.remove(1), Some("one"));
    assert_eq!(table.remove(1), None);
    assert!(!table.contains(1));
    assert_eq!(table.index_of(5), Some(1));
}

/// Both ends of a rename are one move, and a file is reported once for all its writes.
#[test]
fn raw_events_are_gathered() {
    let path = || "/d/a".to_owned();
    let batch = vec![
        RawEvent::Created { path: path() },
        RawEvent::Written { path: path() },
        RawEvent::RenamedFrom { path: path(), tracker: Some(1) },
        RawEvent::RenamedTo { path: "/d/b".to_owned(), tracker: Some(1) },
        RawEvent::Renamed { from: path(), to: Some("/d/b".to_owned()), tracker: Some(1) },
        RawEvent::RenamedFrom { path: "/d/c".to_owned(), tracker: None },
        RawEvent::RenamedTo { path: "/d/e".to_owned(), tracker: Some(2) },
        RawEvent::Removed { path: path() },
        RawEvent::Written { path: path() },
    ];
    assert_eq!(
        debounce(&batch),
        vec![
            DebouncedEventKind::Create { file_name: path() },
            DebouncedEventKind::Move { from: Some(path()), to: Some("/d/b".to_owned()) },
            DebouncedEventKind::Move { from: Some("/d/c".to_owned()), to: None },
            DebouncedEventKind::Move { from: None, to: Some("/d/e".to_owned()) },
            DebouncedEventKind::Remove { file_name: path() },
            DebouncedEventKind::Modify { file_name: path() },
        ]
    );
}
