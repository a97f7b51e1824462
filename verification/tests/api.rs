//! The requests of user interfaces.

use tagnetd::api::{Api, ApiError, FetchReply, FETCH_TIMEOUT_SECONDS};
use tagnetd::bus::{DaemonMessage, FetchError, Ingest};
use tagnetd::database::{DatabaseError, FileDatabase, SubtagRule};
use tagnetd::fetch::HOP_TIMEOUT_SECONDS;
use tagnetd::file_bytes::{FileBytes, FileBytesError};
use tagnetd::ids::{FileId, TagId};
use tagnetd::state::{Change, ChangeOrigin, LogicalPath};

const WORK: TagId = TagId { value: 0x1000_0000_0000_0000_0000_0000_0000_0001 };
const JOB: TagId = TagId { value: 0x2000_0000_0000_0000_0000_0000_0000_0002 };
const A: FileId = FileId { value: 0xa000_0000_0000_0000_0000_0000_0000_000a };
const B: FileId = FileId { value: 0xb000_0000_0000_0000_0000_0000_0000_000b };
const C: FileId = FileId { value: 0xc000_0000_0000_0000_0000_0000_0000_000c };

/// Two listed files, one that has no content yet, and a tag below another.
fn store() -> FileDatabase {
    let mut database = FileDatabase::new();
    database.add_tag(WORK, "work", "red", 1).unwrap();
    database.add_tag(JOB, "Job", "blue", 1).unwrap();
    database.tag_tag(WORK, JOB, 1).unwrap();
    for (file_id, name) in [(A, "Notes/Plan.txt"), (B, "photo.jpg"), (C, "pending.txt")] {
        database.add_file(file_id, &LogicalPath::new(name)).unwrap();
    }
    database.record_version(A, "hash-a", "local").unwrap();
    database.record_version(B, "hash-b", "local").unwrap();
    database.tag_file(JOB, A, 1).unwrap();
    database.tag_file(WORK, C, 1).unwrap();
    database
}

fn files(query: &str, rule: SubtagRule) -> Vec<FileId> {
    Api::run_query(&store(), query, rule)
        .unwrap()
        .files
        .into_iter()
        .map(|file| file.file_id)
        .collect()
}

fn tags(query: &str, rule: SubtagRule) -> Vec<TagId> {
    Api::run_query(&store(), query, rule).unwrap().tags.into_iter().map(|tag| tag.id).collect()
}

/// The change of a message of the user interface.
fn change(message: DaemonMessage) -> Change {
    match message {
        DaemonMessage::Change(Ingest::Meta(change), ChangeOrigin::Local { directory_path }) => {
            assert_eq!(directory_path, "");
            change
        }
        other => panic!("unexpected message {other:?}"),
    }
}

fn error<T>(r: Result<T, ApiError>) -> String {
    match r {
        Ok(_) => panic!("expected an error"),
        Err(error) => error.to_string(),
    }
}

#[test]
fn the_blank_query_lists_everything() {
    assert_eq!(files("  ", SubtagRule::Include), vec![A, B]);
    assert_eq!(tags("", SubtagRule::Include), vec![WORK, JOB]);
}

#[test]
fn names_match_in_either_case() {
    assert_eq!(files("/n plan", SubtagRule::Exclude), vec![A]);
    assert_eq!(files("! /n PLAN", SubtagRule::Exclude), vec![B]);
    assert_eq!(tags("/n job", SubtagRule::Exclude), vec![JOB]);
}

#[test]
fn tags_match_along_the_hierarchy() {
    assert_eq!(files("/t Job", SubtagRule::Exclude), vec![A]);
    assert_eq!(files("/t work", SubtagRule::Exclude), Vec::<FileId>::new());
    assert_eq!(files("/t work", SubtagRule::Include), vec![A]);
    assert_eq!(files("! /t work", SubtagRule::Include), vec![B]);
    assert_eq!(tags("/t work", SubtagRule::Exclude), vec![JOB]);
}

#[test]
fn a_bare_word_matches_names_and_tags() {
    assert_eq!(files("Job", SubtagRule::Exclude), vec![A]);
    assert_eq!(files("photo", SubtagRule::Exclude), vec![B]);
    assert_eq!(files("photo Job", SubtagRule::Exclude), Vec::<FileId>::new());
    // Physical paths cannot be searched yet: the chunk is dropped.
    assert_eq!(files("/p nothing photo", SubtagRule::Exclude), vec![B]);
}

#[test]
fn rows_are_read_by_identifier() {
    let database = store();
    let info = Api::get_file(&database, A).unwrap();
    assert_eq!(info.content_hash, "hash-a");
    assert_eq!(info.short_id_length, 1);
    assert_eq!(error(Api::get_file(&database, C)), "not found");
    assert_eq!(Api::get_tag(&database, JOB).unwrap().name, "Job");
    assert_eq!(error(Api::get_tag(&database, TagId { value: 9 })), "not found");
    assert_eq!(Api::tags_for_file(&database, A, SubtagRule::Include).unwrap(), vec![WORK, JOB]);
    assert_eq!(Api::subtags_for_tag(&database, WORK, SubtagRule::Exclude).unwrap(), vec![JOB]);
    assert_eq!(Api::tags_for_tag(&database, JOB, SubtagRule::Exclude).unwrap(), vec![WORK]);
}

#[test]
fn typed_identifiers_are_resolved() {
    let database = store();
    assert_eq!(Api::resolve_file_id(&database, "b").unwrap(), B);
    assert_eq!(error(Api::resolve_file_id(&database, "1")), "not found");
    assert_eq!(Api::resolve_tag_id(&database, "2").unwrap(), JOB);
    let mut crowded = store();
    crowded
        .add_file(FileId { value: B.value + 1 }, &LogicalPath::new("x"))
        .unwrap();
    assert_eq!(
        error(Api::resolve_file_id(&crowded, "B0")),
        "ambiguous id prefix 'b0': matches multiple files"
    );
}

#[test]
fn writes_become_changes() {
    let (tag_id, message) = Api::create_tag("new".to_owned(), " ".to_owned()).unwrap();
    match change(message) {
        Change::TagAdded { tag_id: id, tag_name, color, metadata, modified_at } => {
            assert_eq!(id, tag_id);
            assert_eq!(tag_name, "new");
            assert_eq!(color, "#F44336");
            assert_eq!(metadata, None);
            assert!(modified_at > 0);
        }
        other => panic!("unexpected change {other:?}"),
    }
    let (_, message) = Api::create_tag("new".to_owned(), "#000".to_owned()).unwrap();
    assert!(matches!(change(message), Change::TagAdded { color, .. } if color == "#000"));
    assert!(matches!(
        change(Api::delete_tag(WORK)),
        Change::TagRemoved { tag_id: WORK, .. }
    ));
    assert!(matches!(
        change(Api::rename_tag(WORK, "n".to_owned()).unwrap()),
        Change::TagRenamed { tag_id: WORK, tag_name, .. } if tag_name == "n"
    ));
    assert!(matches!(
        change(Api::set_tag_color(WORK, "c".to_owned()).unwrap()),
        Change::TagRecolored { tag_id: WORK, color, .. } if color == "c"
    ));
    assert!(matches!(
        change(Api::delete_file(A)),
        Change::FileDeleted { file_id: A, .. }
    ));
    assert_eq!(
        change(Api::move_file(A, "d/e".to_owned()).unwrap()),
        Change::FileMoved { file_id: A, logical_path: LogicalPath::new("d/e") }
    );
    assert!(matches!(
        change(Api::tag_file(WORK, A)),
        Change::FileTagged { file_id: A, tag_id: WORK, metadata: None, .. }
    ));
    assert!(matches!(
        change(Api::untag_file(WORK, A)),
        Change::FileUntagged { file_id: A, tag_id: WORK, .. }
    ));
    assert!(matches!(
        change(Api::tag_tag(WORK, JOB).unwrap()),
        Change::TagTagged { taggee_id: JOB, tag_id: WORK, metadata: None, .. }
    ));
    assert!(matches!(
        change(Api::untag_tag(WORK, JOB)),
        Change::TagUntagged { taggee_id: JOB, tag_id: WORK, .. }
    ));
}

/// A write carries the time and the identifier that it is given.
#[test]
fn writes_carry_their_stamp() {
    assert_eq!(
        change(Api::create_tag_at(JOB, "n".to_owned(), "c".to_owned(), 7).unwrap()),
        Change::TagAdded {
            tag_id: JOB,
            tag_name: "n".to_owned(),
            color: "c".to_owned(),
            metadata: None,
            modified_at: 7,
        }
    );
    assert!(Api::create_tag_at(JOB, " ".to_owned(), "c".to_owned(), 7).is_err());
    assert_eq!(
        change(Api::delete_tag_at(WORK, -1)),
        Change::TagRemoved { tag_id: WORK, modified_at: -1 }
    );
    assert_eq!(
        change(Api::rename_tag_at(WORK, "n".to_owned(), 8).unwrap()),
        Change::TagRenamed { tag_id: WORK, tag_name: "n".to_owned(), modified_at: 8 }
    );
    assert_eq!(
        change(Api::set_tag_color_at(WORK, "c".to_owned(), 9).unwrap()),
        Change::TagRecolored { tag_id: WORK, color: "c".to_owned(), modified_at: 9 }
    );
    assert_eq!(
        change(Api::delete_file_at(A, 10)),
        Change::FileDeleted { file_id: A, deleted_at: 10 }
    );
    assert_eq!(
        change(Api::tag_file_at(WORK, A, 11)),
        Change::FileTagged { file_id: A, tag_id: WORK, metadata: None, modified_at: 11 }
    );
    assert_eq!(
        change(Api::untag_file_at(WORK, A, 12)),
        Change::FileUntagged { file_id: A, tag_id: WORK, modified_at: 12 }
    );
    assert_eq!(
        change(Api::tag_tag_at(WORK, JOB, 13).unwrap()),
        Change::TagTagged { taggee_id: JOB, tag_id: WORK, metadata: None, modified_at: 13 }
    );
    assert_eq!(
        change(Api::untag_tag_at(WORK, JOB, 14)),
        Change::TagUntagged { taggee_id: JOB, tag_id: WORK, modified_at: 14 }
    );
    assert!(matches!(
        Api::upload_file_as(B, "p".to_owned(), "h".to_owned(), 1, Vec::new()),
        Ok(DaemonMessage::AnnounceProvided { file_id: B, .. })
    ));
}

/// A fresh identifier is that of a random UUID.
#[test]
fn new_rows_get_fresh_identifiers() {
    let (one, _) = Api::create_tag("n".to_owned(), "c".to_owned()).unwrap();
    let (two, _) = Api::create_tag("n".to_owned(), "c".to_owned()).unwrap();
    assert_ne!(one, two);
    assert_eq!((one.value >> 76) & 0xf, 4);
    let (file, _) =
        Api::upload_file("p".to_owned(), "h".to_owned(), 1, Vec::new()).unwrap();
    assert_eq!((file.value >> 62) & 0x3, 2);
}

#[test]
fn uploads_are_announced() {
    let (id, message) =
        Api::upload_file("a.txt".to_owned(), "h".to_owned(), 5, vec![WORK]).unwrap();
    match message {
        DaemonMessage::AnnounceProvided { file_id, logical_path, content_hash, size, tags } => {
            assert_eq!(file_id, id);
            assert_eq!(logical_path, Some(LogicalPath::new("a.txt")));
            assert_eq!(content_hash, "h");
            assert_eq!(size, 5);
            assert_eq!(tags, vec![WORK]);
        }
        other => panic!("unexpected message {other:?}"),
    }
    assert!(matches!(
        Api::edit_file(A, "h".to_owned(), 6),
        DaemonMessage::AnnounceProvided { file_id: A, logical_path: None, size: 6, .. }
    ));
}

#[test]
fn senseless_arguments_are_refused() {
    let blank = || " \t".to_owned();
    assert_eq!(
        error(Api::create_tag(blank(), "red".to_owned())),
        "invalid argument: tag name is empty"
    );
    assert_eq!(error(Api::rename_tag(WORK, blank())), "invalid argument: tag name is empty");
    assert_eq!(error(Api::set_tag_color(WORK, blank())), "invalid argument: color is empty");
    assert_eq!(
        error(Api::upload_file(blank(), "h".to_owned(), 0, Vec::new())),
        "invalid argument: path is empty"
    );
    assert_eq!(error(Api::move_file(A, blank())), "invalid argument: path is empty");
    assert_eq!(
        error(Api::tag_tag(WORK, WORK)),
        "invalid argument: a tag cannot be its own subtag"
    );
}

#[test]
fn fetches_end_in_content_or_an_error() {
    assert!(matches!(
        Api::fetch_file(A, "h".to_owned(), 3),
        DaemonMessage::Fetch { file_id: A, respond_to: 3, .. }
    ));
    let content = Api::fetch_outcome(FetchReply::Arrived(FileBytes::InMemory(vec![1])));
    assert_eq!(content, Ok(FileBytes::InMemory(vec![1])));
    assert_eq!(
        error(Api::fetch_outcome(FetchReply::Failed(FetchError::NotAvailable))),
        "not found"
    );
    assert_eq!(
        error(Api::fetch_outcome(FetchReply::Failed(FetchError::TimedOut))),
        "internal error: fetch timed out"
    );
    assert_eq!(
        error(Api::fetch_outcome(FetchReply::Dropped)),
        "internal error: runtime is shutting down"
    );
    assert_eq!(
        error(Api::fetch_outcome(FetchReply::Elapsed)),
        "internal error: fetch timed out"
    );
    assert!(FETCH_TIMEOUT_SECONDS > HOP_TIMEOUT_SECONDS);
}

#[test]
fn errors_of_the_database_show_as_what_they_mean() {
    let show = |error: DatabaseError| ApiError::from_database_error(error).to_string();
    assert_eq!(show(DatabaseError::MissingFile), "not found");
    assert_eq!(show(DatabaseError::MissingTag), "not found");
    assert_eq!(show(DatabaseError::InvalidTagName), "invalid argument: invalid tag name");
    assert_eq!(show(DatabaseError::InvalidColor), "invalid argument: invalid color");
    assert_eq!(
        show(DatabaseError::CantTagItself),
        "invalid argument: a tag cannot be its own subtag"
    );
    assert_eq!(
        show(DatabaseError::UnableToOpenOrCreate),
        "database error: UnableToOpenOrCreate"
    );
    assert_eq!(
        show(DatabaseError::FailedToExecuteCommand),
        "database error: FailedToExecuteCommand"
    );
    assert_eq!(show(DatabaseError::NonUtf8FilePath), "database error: NonUtf8FilePath");
    assert_eq!(
        ApiError::Database(DatabaseError::AmbiguousIdPrefix("a\"b".to_owned())).to_string(),
        format!("database error: {:?}", DatabaseError::AmbiguousIdPrefix("a\"b".to_owned()))
    );
}

#[test]
fn other_failures_have_words() {
    let source = FileBytesError::Io { path: None, source: "gone".to_owned() };
    assert_eq!(
        ApiError::hash_error(&source).to_string(),
        "transport error: hashing upload source: I/O error: gone"
    );
    assert_eq!(
        ApiError::staging_error(&source).to_string(),
        "internal error: failed to stage fetched file: I/O error: gone"
    );
    assert_eq!(
        ApiError::shutting_down().to_string(),
        "internal error: runtime is shutting down"
    );
}
