//! What user interfaces ask of the daemon.
//!
//! A read looks at the database. A write makes a message for the bus, whose only reader
//! applies it.

use vstd::prelude::*;
use crate::bus::{DaemonMessage, FetchError, Ingest};
use crate::database::hierarchy::{file_carries, lists_tags, walk_finds};
use crate::database::query::{query_selects_file, query_selects_tag};
use crate::database::short_ids::{
    is_file_row, known_files, known_tags, normalised, stands_for, stands_for_none,
    stands_for_several,
};
use crate::database::{
    is_tag_row, now_millis, DatabaseError, DatabaseView, FileDatabase, SubtagRule, Tag,
};
use crate::directory_manager::SyncDirectoryCommand;
use crate::file_bytes::{FileBytes, FileBytesError};
use crate::ids::{is_random_uuid, FileId, TagId};
use crate::runtime::{color_or_default, normalised_color};
use crate::state::{Change, ChangeOrigin, FileInfo, LogicalPath};
use crate::text::{blank, is_blank, joined};

verus! {

/// Why a request failed.
#[derive(Debug, Clone, PartialEq, Eq)]
pub enum ApiError {
    /// An unknown file or tag.
    NotFound,
    /// A short identifier that fits more than one row.
    Ambiguous(String),
    /// An argument that makes no sense.
    InvalidArgument(String),
    /// A failure of the database.
    Database(DatabaseError),
    /// A failure of the connection to the daemon.
    Transport(String),
    /// Anything unexpected.
    Internal(String),
}

/// The mathematical value of an [`ApiError`].
#[verifier::ext_equal]
pub enum ErrorView {
    NotFound,
    Ambiguous(Seq<char>),
    InvalidArgument(Seq<char>),
    Database(DatabaseError),
    Transport(Seq<char>),
    Internal(Seq<char>),
}

impl View for ApiError {
    type V = ErrorView;

    open spec fn view(&self) -> ErrorView {
        match *self {
            ApiError::NotFound => ErrorView::NotFound,
            ApiError::Ambiguous(prefix) => ErrorView::Ambiguous(prefix@),
            ApiError::InvalidArgument(message) => ErrorView::InvalidArgument(message@),
            ApiError::Database(error) => ErrorView::Database(error),
            ApiError::Transport(message) => ErrorView::Transport(message@),
            ApiError::Internal(message) => ErrorView::Internal(message@),
        }
    }
}

/// The error that a failure of the database shows as.
pub open spec fn database_error(error: DatabaseError) -> ErrorView {
    match error {
        DatabaseError::MissingFile => ErrorView::NotFound,
        DatabaseError::MissingTag => ErrorView::NotFound,
        DatabaseError::AmbiguousIdPrefix(prefix) => ErrorView::Ambiguous(prefix@),
        DatabaseError::InvalidTagName => ErrorView::InvalidArgument("invalid tag name"@),
        DatabaseError::InvalidColor => ErrorView::InvalidArgument("invalid color"@),
        DatabaseError::CantTagItself => ErrorView::InvalidArgument(
            "a tag cannot be its own subtag"@,
        ),
        other => ErrorView::Database(other),
    }
}

/// The error that a failed fetch shows as.
pub open spec fn fetch_error(error: FetchError) -> ErrorView {
    match error {
        FetchError::NotAvailable => ErrorView::NotFound,
        other => ErrorView::Internal(other.text()),
    }
}

impl ApiError {
    /// The error in words.
    pub open spec fn text(self) -> Seq<char> {
        match self {
            ApiError::NotFound => "not found"@,
            ApiError::Ambiguous(prefix) => "ambiguous id prefix '"@ + prefix@
                + "': matches multiple files"@,
            ApiError::InvalidArgument(message) => "invalid argument: "@ + message@,
            ApiError::Database(error) => "database error: "@ + error.debug_text(),
            ApiError::Transport(message) => "transport error: "@ + message@,
            ApiError::Internal(message) => "internal error: "@ + message@,
        }
    }

    /// The error in words.
    pub fn to_string(&self) -> (r: String)
        ensures
            r@ == self.text(),
    {
        match self {
            ApiError::NotFound => "not found".to_owned(),
            ApiError::Ambiguous(prefix) => {
                let mut out = joined("ambiguous id prefix '", prefix.as_str());
                out.append("': matches multiple files");
                out
            },
            ApiError::InvalidArgument(message) => joined("invalid argument: ", message.as_str()),
            ApiError::Database(error) => {
                let name = error.to_debug_string();
                joined("database error: ", name.as_str())
            },
            ApiError::Transport(message) => joined("transport error: ", message.as_str()),
            ApiError::Internal(message) => joined("internal error: ", message.as_str()),
        }
    }

    /// The error that a failure of the database shows as.
    pub fn from_database_error(error: DatabaseError) -> (r: Self)
        ensures
            r@ == database_error(error),
    {
        match error {
            DatabaseError::MissingFile => ApiError::NotFound,
            DatabaseError::MissingTag => ApiError::NotFound,
            DatabaseError::AmbiguousIdPrefix(prefix) => ApiError::Ambiguous(prefix),
            DatabaseError::InvalidTagName => {
                ApiError::InvalidArgument("invalid tag name".to_owned())
            },
            DatabaseError::InvalidColor => ApiError::InvalidArgument("invalid color".to_owned()),
            DatabaseError::CantTagItself => {
                ApiError::InvalidArgument("a tag cannot be its own subtag".to_owned())
            },
            other => ApiError::Database(other),
        }
    }

    /// The error that a failed fetch shows as.
    pub fn from_fetch_error(error: FetchError) -> (r: Self)
        ensures
            r@ == fetch_error(error),
    {
        match error {
            FetchError::NotAvailable => ApiError::NotFound,
            other => ApiError::Internal(other.to_string()),
        }
    }

    /// The error of a request that the daemon can no longer take.
    pub fn shutting_down() -> (r: Self)
        ensures
            r@ == ErrorView::Internal("runtime is shutting down"@),
    {
        ApiError::Internal("runtime is shutting down".to_owned())
    }

    /// The error of an upload whose source could not be hashed.
    pub fn hash_error(error: &FileBytesError) -> (r: Self)
        ensures
            r@ == ErrorView::Transport("hashing upload source: "@ + error.text()),
    {
        let message = error.to_string();
        ApiError::Transport(joined("hashing upload source: ", message.as_str()))
    }

    /// The error of a fetched file that could not be put in place.
    pub fn staging_error(error: &FileBytesError) -> (r: Self)
        ensures
            r@ == ErrorView::Internal("failed to stage fetched file: "@ + error.text()),
    {
        let message = error.to_string();
        ApiError::Internal(joined("failed to stage fetched file: ", message.as_str()))
    }
}

/// The files and tags that a query selects.
#[derive(Debug, Clone, PartialEq, Eq)]
pub struct QueryResult {
    pub files: Vec<FileInfo>,
    pub tags: Vec<Tag>,
}

/// A live update.
#[derive(Debug, Clone, PartialEq, Eq)]
pub enum ApiEvent {
    /// The stream started anew: fetch the current state.
    Resynced,
    /// A change was applied.
    Changed(Change),
    /// A file that this client provided has been handed on, and may be released.
    ProviderReleased { file_id: FileId },
}

/// What an on-demand fetch was answered with.
#[derive(Debug)]
pub enum FetchReply {
    Arrived(FileBytes),
    Failed(FetchError),
    /// Whoever was to answer is gone.
    Dropped,
    /// Nobody answered within [`FETCH_TIMEOUT_SECONDS`].
    Elapsed,
}

/// How long a caller waits for an on-demand fetch. It is longer than a hop, so that
/// every hop can report first.
pub const FETCH_TIMEOUT_SECONDS: u64 = 30;

/// Whether `files` holds the rows of the listed files that a query selects, in
/// ascending order of their identifiers.
pub open spec fn answers_with_files(
    db: DatabaseView,
    query: Seq<char>,
    rule: SubtagRule,
    files: Seq<FileInfo>,
) -> bool {
    &&& forall|i: int, j: int|
        0 <= i < j < files.len() ==> (#[trigger] files[i]).file_id.value < (
        #[trigger] files[j]).file_id.value
    &&& forall|i: int|
        0 <= i < files.len() ==> is_file_row(db, known_files(db), #[trigger] files[i])
            && query_selects_file(db, rule, query, files[i].file_id)
    &&& forall|f: FileId| #[trigger]
        query_selects_file(db, rule, query, f) && db.listed(f) ==> exists|i: int|
            0 <= i < files.len() && (#[trigger] files[i]).file_id == f
}

/// Whether `tags` holds the rows of the tags that a query selects, in ascending order
/// of their identifiers.
pub open spec fn answers_with_tags(
    db: DatabaseView,
    query: Seq<char>,
    rule: SubtagRule,
    tags: Seq<Tag>,
) -> bool {
    &&& forall|i: int, j: int|
        0 <= i < j < tags.len() ==> (#[trigger] tags[i]).id.value < (#[trigger] tags[j]).id.value
    &&& forall|i: int|
        0 <= i < tags.len() ==> is_tag_row(db, (#[trigger] tags[i]).id, tags[i])
            && query_selects_tag(db, rule, query, tags[i].id)
    &&& forall|t: TagId| #[trigger]
        query_selects_tag(db, rule, query, t) ==> exists|i: int|
            0 <= i < tags.len() && (#[trigger] tags[i]).id == t
}

/// The change that a message of the user interface carries: its origin is no sync
/// directory, so that it is dispatched to all of them.
pub open spec fn enqueued(message: DaemonMessage) -> Option<Change> {
    match message {
        DaemonMessage::Change(Ingest::Meta(change), ChangeOrigin::Local { directory_path }) => {
            if directory_path@ == Seq::<char>::empty() {
                Some(change)
            } else {
                None
            }
        },
        _ => None,
    }
}

/// The message that carries a change of the user interface.
fn enqueue(change: Change) -> (r: DaemonMessage)
    ensures
        enqueued(r) == Some(change),
{
    let directory_path = String::new();
    assert(directory_path@ =~= Seq::<char>::empty());
    DaemonMessage::change(change, ChangeOrigin::Local { directory_path })
}

/// The outcome of resolving a typed identifier among known ones.
pub open spec fn is_resolved(
    known: spec_fn(u128) -> bool,
    prefix: Seq<char>,
    r: Result<u128, ErrorView>,
) -> bool {
    match normalised(prefix) {
        None => r == Err::<u128, _>(ErrorView::NotFound),
        Some(digits) => match r {
            Ok(id) => stands_for(known, digits, id),
            Err(ErrorView::Ambiguous(text)) => text == digits && stands_for_several(known, digits),
            Err(error) => error == ErrorView::NotFound && stands_for_none(known, digits),
        },
    }
}

/// The requests of user interfaces.
pub struct Api {}

impl Api {
    /// The file that a typed identifier or prefix stands for.
    pub fn resolve_file_id(database: &FileDatabase, prefix: &str) -> (r: Result<FileId, ApiError>)
        ensures
            is_resolved(
                known_files(database@),
                prefix@,
                match r {
                    Ok(file_id) => Ok(file_id.value),
                    Err(error) => Err(error@),
                },
            ),
    {
        match database.resolve_file_id_prefix(prefix) {
            Ok(file_id) => Ok(file_id),
            Err(error) => Err(ApiError::from_database_error(error)),
        }
    }

    /// The tag that a typed identifier or prefix stands for.
    pub fn resolve_tag_id(database: &FileDatabase, prefix: &str) -> (r: Result<TagId, ApiError>)
        ensures
            is_resolved(
                known_tags(database@),
                prefix@,
                match r {
                    Ok(tag_id) => Ok(tag_id.value),
                    Err(error) => Err(error@),
                },
            ),
    {
        match database.resolve_tag_id_prefix(prefix) {
            Ok(tag_id) => Ok(tag_id),
            Err(error) => Err(ApiError::from_database_error(error)),
        }
    }

    /// The tags of a file, in ascending order.
    pub fn tags_for_file(database: &FileDatabase, file_id: FileId, subtag_rule: SubtagRule) -> (r:
        Result<Vec<TagId>, ApiError>)
        ensures
            r matches Ok(list) && lists_tags(
                list@,
                |t: TagId| file_carries(database@, subtag_rule, file_id, t),
            ),
    {
        match database.tag_ids_for_file(file_id, subtag_rule) {
            Ok(list) => Ok(list),
            Err(error) => Err(ApiError::from_database_error(error)),
        }
    }

    /// The files and tags that a query selects. A selected file that has no content
    /// yet cannot be listed and is left out.
    pub fn run_query(database: &FileDatabase, query: &str, subtag_rule: SubtagRule) -> (r: Result<
        QueryResult,
        ApiError,
    >)
        ensures
            r matches Ok(result) && answers_with_files(
                database@,
                query@,
                subtag_rule,
                result.files@,
            ) && answers_with_tags(database@, query@, subtag_rule, result.tags@),
    {
        let terms = match database.parse_query(query) {
            Ok(terms) => terms,
            Err(error) => {
                return Err(ApiError::from_database_error(error));
            },
        };
        let file_ids = match database.file_ids_for_query(&terms, subtag_rule) {
            Ok(list) => list,
            Err(error) => {
                return Err(ApiError::from_database_error(error));
            },
        };
        let ghost db = database@;
        proof {
            assert forall|f: FileId| #[trigger] file_ids@.contains(f) <==> query_selects_file(
                db,
                subtag_rule,
                query@,
                f,
            ) by {}
        }
        let files = Self::file_rows(database, query, subtag_rule, &file_ids);
        let tag_ids = match database.tag_ids_for_query(&terms, subtag_rule) {
            Ok(list) => list,
            Err(error) => {
                return Err(ApiError::from_database_error(error));
            },
        };
        proof {
            assert forall|t: TagId| #[trigger] tag_ids@.contains(t) <==> query_selects_tag(
                db,
                subtag_rule,
                query@,
                t,
            ) by {}
        }
        let tags = Self::tag_rows(database, query, subtag_rule, &tag_ids);
        Ok(QueryResult { files, tags })
    }

    fn file_rows(
        database: &FileDatabase,
        query: &str,
        subtag_rule: SubtagRule,
        ids: &Vec<FileId>,
    ) -> (r: Vec<FileInfo>)
        requires
            forall|i: int, j: int|
                0 <= i < j < ids@.len() ==> (#[trigger] ids@[i]).value < (#[trigger] ids@[j]).value,
            forall|f: FileId| #[trigger]
                ids@.contains(f) <==> query_selects_file(database@, subtag_rule, query@, f),
        ensures
            answers_with_files(database@, query@, subtag_rule, r@),
    {
        let ghost db = database@;
        let mut files: Vec<FileInfo> = Vec::new();
        let mut i: usize = 0;
        while i < ids.len()
            invariant
                i <= ids.len(),
                db == database@,
                forall|a: int, b: int|
                    0 <= a < b < ids@.len() ==> (#[trigger] ids@[a]).value < (
                    #[trigger] ids@[b]).value,
                forall|f: FileId| #[trigger]
                    ids@.contains(f) <==> query_selects_file(db, subtag_rule, query@, f),
                forall|a: int, b: int|
                    0 <= a < b < files@.len() ==> (#[trigger] files@[a]).file_id.value < (
                    #[trigger] files@[b]).file_id.value,
                forall|a: int|
                    0 <= a < files@.len() ==> is_file_row(
                        db,
                        known_files(db),
                        #[trigger] files@[a],
                    ) && query_selects_file(db, subtag_rule, query@, files@[a].file_id) && (i
                        < ids.len() ==> files@[a].file_id.value < ids@[i as int].value),
                forall|k: int|
                    0 <= k < i && db.listed(#[trigger] ids@[k]) ==> exists|a: int|
                        0 <= a < files@.len() && (#[trigger] files@[a]).file_id == ids@[k],
            decreases ids.len() - i,
        {
            let ghost before = files@;
            assert(ids@.contains(ids@[i as int]));
            match database.file_info_from_id(ids[i]) {
                Ok(info) => {
                    files.push(info);
                    assert(files@[before.len() as int].file_id == ids@[i as int]);
                },
                Err(_) => {},
            }
            proof {
                assert forall|k: int| 0 <= k < i + 1 && db.listed(
                    #[trigger] ids@[k],
                ) implies exists|a: int| 0 <= a < files@.len() && (#[trigger] files@[a]).file_id
                    == ids@[k] by {
                    if k < i {
                        let a = choose|a: int|
                            0 <= a < before.len() && (#[trigger] before[a]).file_id == ids@[k];
                        assert(files@[a] == before[a]);
                    }
                }
            }
            i = i + 1;
        }
        proof {
            assert forall|f: FileId| #[trigger]
                query_selects_file(db, subtag_rule, query@, f) && db.listed(f) implies exists|
                a: int,
            | 0 <= a < files@.len() && (#[trigger] files@[a]).file_id == f by {
                assert(ids@.contains(f));
                let k = choose|k: int| 0 <= k < ids@.len() && ids@[k] == f;
                assert(db.listed(ids@[k]));
            }
        }
        files
    }

    fn tag_rows(
        database: &FileDatabase,
        query: &str,
        subtag_rule: SubtagRule,
        ids: &Vec<TagId>,
    ) -> (r: Vec<Tag>)
        requires
            forall|i: int, j: int|
                0 <= i < j < ids@.len() ==> (#[trigger] ids@[i]).value < (#[trigger] ids@[j]).value,
            forall|t: TagId| #[trigger]
                ids@.contains(t) <==> query_selects_tag(database@, subtag_rule, query@, t),
        ensures
            answers_with_tags(database@, query@, subtag_rule, r@),
    {
        let ghost db = database@;
        let mut tags: Vec<Tag> = Vec::new();
        let mut i: usize = 0;
        while i < ids.len()
            invariant
                i <= ids.len(),
                db == database@,
                forall|a: int, b: int|
                    0 <= a < b < ids@.len() ==> (#[trigger] ids@[a]).value < (
                    #[trigger] ids@[b]).value,
                forall|t: TagId| #[trigger]
                    ids@.contains(t) <==> query_selects_tag(db, subtag_rule, query@, t),
                tags@.len() == i,
                forall|a: int| 0 <= a < i ==> is_tag_row(db, ids@[a], #[trigger] tags@[a]),
            decreases ids.len() - i,
        {
            assert(ids@.contains(ids@[i as int]));
            match database.tag_from_id(ids[i]) {
                Ok(tag) => {
                    tags.push(tag);
                },
                Err(_) => {},
            }
            i = i + 1;
        }
        proof {
            assert forall|a: int| 0 <= a < tags@.len() implies is_tag_row(
                db,
                (#[trigger] tags@[a]).id,
                tags@[a],
            ) && query_selects_tag(db, subtag_rule, query@, tags@[a].id) by {
                assert(ids@.contains(ids@[a]));
            }
            assert forall|t: TagId| #[trigger]
                query_selects_tag(db, subtag_rule, query@, t) implies exists|a: int|
                0 <= a < tags@.len() && (#[trigger] tags@[a]).id == t by {
                assert(ids@.contains(t));
                let k = choose|k: int| 0 <= k < ids@.len() && ids@[k] == t;
                assert(tags@[k].id == t);
            }
        }
        tags
    }

    /// The row of a file.
    pub fn get_file(database: &FileDatabase, file_id: FileId) -> (r: Result<FileInfo, ApiError>)
        ensures
            match r {
                Ok(info) => info.file_id == file_id && is_file_row(
                    database@,
                    known_files(database@),
                    info,
                ),
                Err(error) => !database@.listed(file_id) && error@ == ErrorView::NotFound,
            },
    {
        match database.file_info_from_id(file_id) {
            Ok(info) => Ok(info),
            Err(error) => Err(ApiError::from_database_error(error)),
        }
    }

    /// The row of a tag.
    pub fn get_tag(database: &FileDatabase, tag_id: TagId) -> (r: Result<Tag, ApiError>)
        ensures
            match r {
                Ok(tag) => is_tag_row(database@, tag_id, tag),
                Err(error) => !database@.tags.contains_key(tag_id) && error@
                    == ErrorView::NotFound,
            },
    {
        match database.tag_from_id(tag_id) {
            Ok(tag) => Ok(tag),
            Err(error) => Err(ApiError::from_database_error(error)),
        }
    }

    /// The subtags of a tag, in ascending order.
    pub fn subtags_for_tag(database: &FileDatabase, tag_id: TagId, subtag_rule: SubtagRule) -> (r:
        Result<Vec<TagId>, ApiError>)
        ensures
            r matches Ok(list) && lists_tags(
                list@,
                |t: TagId| walk_finds(database@, false, subtag_rule, tag_id, t),
            ),
    {
        match database.subtag_ids_for_tag(tag_id, subtag_rule) {
            Ok(list) => Ok(list),
            Err(error) => Err(ApiError::from_database_error(error)),
        }
    }

    /// The tags that a tag is a subtag of, in ascending order.
    pub fn tags_for_tag(database: &FileDatabase, tag_id: TagId, subtag_rule: SubtagRule) -> (r:
        Result<Vec<TagId>, ApiError>)
        ensures
            r matches Ok(list) && lists_tags(
                list@,
                |t: TagId| walk_finds(database@, true, subtag_rule, tag_id, t),
            ),
    {
        match database.tag_ids_for_subtag(tag_id, subtag_rule) {
            Ok(list) => Ok(list),
            Err(error) => Err(ApiError::from_database_error(error)),
        }
    }

    /// Creates a tag under the identifier `tag_id`, stamped with `now`. A blank name is
    /// refused; a blank colour becomes the default one.
    pub fn create_tag_at(tag_id: TagId, name: String, color: String, now: i64) -> (r: Result<
        DaemonMessage,
        ApiError,
    >)
        ensures
            match r {
                Ok(message) => !blank(name@) && (enqueued(message) matches Some(
                    Change::TagAdded { tag_id: id, tag_name, color: given, metadata, modified_at },
                ) && id == tag_id && tag_name == name && given@ == color_or_default(color@)
                    && metadata is None && modified_at == now),
                Err(error) => blank(name@) && error@ == ErrorView::InvalidArgument(
                    "tag name is empty"@,
                ),
            },
    {
        if is_blank(name.as_str()) {
            return Err(ApiError::InvalidArgument("tag name is empty".to_owned()));
        }
        Ok(
            enqueue(
                Change::TagAdded {
                    tag_id,
                    tag_name: name,
                    color: normalised_color(color),
                    metadata: None,
                    modified_at: now,
                },
            ),
        )
    }

    /// Creates a tag under a fresh identifier, stamped with the time. A blank name is
    /// refused; a blank colour becomes the default one.
    pub fn create_tag(name: String, color: String) -> (r: Result<(TagId, DaemonMessage), ApiError>)
        ensures
            match r {
                Ok((id, message)) => !blank(name@) && is_random_uuid(id.value) && (enqueued(
                    message,
                ) matches Some(
                    Change::TagAdded { tag_id, tag_name, color: given, metadata, .. },
                ) && tag_id == id && tag_name == name && given@ == color_or_default(color@)
                    && metadata is None),
                Err(error) => blank(name@) && error@ == ErrorView::InvalidArgument(
                    "tag name is empty"@,
                ),
            },
    {
        let tag_id = TagId::new();
        match Api::create_tag_at(tag_id, name, color, now_millis()) {
            Ok(message) => Ok((tag_id, message)),
            Err(error) => Err(error),
        }
    }

    /// Deletes a tag, stamped with `now`.
    pub fn delete_tag_at(tag_id: TagId, now: i64) -> (r: DaemonMessage)
        ensures
            enqueued(r) == Some(Change::TagRemoved { tag_id, modified_at: now }),
    {
        enqueue(Change::TagRemoved { tag_id, modified_at: now })
    }

    /// Deletes a tag, stamped with the time.
    pub fn delete_tag(tag_id: TagId) -> (r: DaemonMessage)
        ensures
            enqueued(r) matches Some(Change::TagRemoved { tag_id: id, .. }) && id == tag_id,
    {
        Api::delete_tag_at(tag_id, now_millis())
    }

    /// Renames a tag, stamped with `now`. A blank name is refused.
    pub fn rename_tag_at(tag_id: TagId, name: String, now: i64) -> (r: Result<
        DaemonMessage,
        ApiError,
    >)
        ensures
            match r {
                Ok(message) => !blank(name@) && enqueued(message) == Some(
                    Change::TagRenamed { tag_id, tag_name: name, modified_at: now },
                ),
                Err(error) => blank(name@) && error@ == ErrorView::InvalidArgument(
                    "tag name is empty"@,
                ),
            },
    {
        if is_blank(name.as_str()) {
            return Err(ApiError::InvalidArgument("tag name is empty".to_owned()));
        }
        Ok(enqueue(Change::TagRenamed { tag_id, tag_name: name, modified_at: now }))
    }

    /// Renames a tag, stamped with the time. A blank name is refused.
    pub fn rename_tag(tag_id: TagId, name: String) -> (r: Result<DaemonMessage, ApiError>)
        ensures
            match r {
                Ok(message) => !blank(name@) && (enqueued(message) matches Some(
                    Change::TagRenamed { tag_id: id, tag_name, .. },
                ) && id == tag_id && tag_name == name),
                Err(error) => blank(name@) && error@ == ErrorView::InvalidArgument(
                    "tag name is empty"@,
                ),
            },
    {
        Api::rename_tag_at(tag_id, name, now_millis())
    }

    /// Changes the colour of a tag, stamped with `now`. A blank colour is refused.
    pub fn set_tag_color_at(tag_id: TagId, color: String, now: i64) -> (r: Result<
        DaemonMessage,
        ApiError,
    >)
        ensures
            match r {
                Ok(message) => !blank(color@) && enqueued(message) == Some(
                    Change::TagRecolored { tag_id, color, modified_at: now },
                ),
                Err(error) => blank(color@) && error@ == ErrorView::InvalidArgument(
                    "color is empty"@,
                ),
            },
    {
        if is_blank(color.as_str()) {
            return Err(ApiError::InvalidArgument("color is empty".to_owned()));
        }
        Ok(enqueue(Change::TagRecolored { tag_id, color, modified_at: now }))
    }

    /// Changes the colour of a tag, stamped with the time. A blank colour is refused.
    pub fn set_tag_color(tag_id: TagId, color: String) -> (r: Result<DaemonMessage, ApiError>)
        ensures
            match r {
                Ok(message) => !blank(color@) && (enqueued(message) matches Some(
                    Change::TagRecolored { tag_id: id, color: given, .. },
                ) && id == tag_id && given == color),
                Err(error) => blank(color@) && error@ == ErrorView::InvalidArgument(
                    "color is empty"@,
                ),
            },
    {
        Api::set_tag_color_at(tag_id, color, now_millis())
    }

    /// Announces a new file under the identifier `file_id`, whose bytes the client serves
    /// on demand. A blank path is refused.
    pub fn upload_file_as(
        file_id: FileId,
        path_name: String,
        content_hash: String,
        size: u64,
        tags: Vec<TagId>,
    ) -> (r: Result<DaemonMessage, ApiError>)
        ensures
            match r {
                Ok(message) => !blank(path_name@) && (message
                    matches DaemonMessage::AnnounceProvided {
                    file_id: id,
                    logical_path: Some(path),
                    content_hash: hash,
                    size: length,
                    tags: carried,
                } && id == file_id && path@ == path_name@ && hash == content_hash && length == size
                    && carried == tags),
                Err(error) => blank(path_name@) && error@ == ErrorView::InvalidArgument(
                    "path is empty"@,
                ),
            },
    {
        if is_blank(path_name.as_str()) {
            return Err(ApiError::InvalidArgument("path is empty".to_owned()));
        }
        let logical_path = Some(LogicalPath { text: path_name });
        Ok(DaemonMessage::AnnounceProvided { file_id, logical_path, content_hash, size, tags })
    }

    /// Announces a new file, under a fresh identifier, whose bytes the client serves on
    /// demand. A blank path is refused.
    pub fn upload_file(path_name: String, content_hash: String, size: u64, tags: Vec<TagId>) -> (r:
        Result<(FileId, DaemonMessage), ApiError>)
        ensures
            match r {
                Ok((id, message)) => !blank(path_name@) && is_random_uuid(id.value) && (message
                    matches DaemonMessage::AnnounceProvided {
                    file_id,
                    logical_path: Some(path),
                    content_hash: hash,
                    size: length,
                    tags: carried,
                } && file_id == id && path@ == path_name@ && hash == content_hash && length == size
                    && carried == tags),
                Err(error) => blank(path_name@) && error@ == ErrorView::InvalidArgument(
                    "path is empty"@,
                ),
            },
    {
        let file_id = FileId::new();
        match Api::upload_file_as(file_id, path_name, content_hash, size, tags) {
            Ok(message) => Ok((file_id, message)),
            Err(error) => Err(error),
        }
    }

    /// Announces new content of a file, whose bytes the client serves on demand.
    pub fn edit_file(file_id: FileId, content_hash: String, size: u64) -> (r: DaemonMessage)
        ensures
            r matches DaemonMessage::AnnounceProvided {
                file_id: id,
                logical_path: None,
                content_hash: hash,
                size: length,
                tags,
            } && id == file_id && hash == content_hash && length == size && tags@ == Seq::<
                TagId,
            >::empty(),
    {
        let tags: Vec<TagId> = Vec::new();
        DaemonMessage::AnnounceProvided { file_id, logical_path: None, content_hash, size, tags }
    }

    /// Deletes a file, stamped with `now`.
    pub fn delete_file_at(file_id: FileId, now: i64) -> (r: DaemonMessage)
        ensures
            enqueued(r) == Some(Change::FileDeleted { file_id, deleted_at: now }),
    {
        enqueue(Change::FileDeleted { file_id, deleted_at: now })
    }

    /// Deletes a file, stamped with the time.
    pub fn delete_file(file_id: FileId) -> (r: DaemonMessage)
        ensures
            enqueued(r) matches Some(Change::FileDeleted { file_id: id, .. }) && id == file_id,
    {
        Api::delete_file_at(file_id, now_millis())
    }

    /// Moves a file to another logical path. A blank path is refused.
    pub fn move_file(file_id: FileId, logical_path: String) -> (r: Result<DaemonMessage, ApiError>)
        ensures
            match r {
                Ok(message) => !blank(logical_path@) && (enqueued(message) matches Some(
                    Change::FileMoved { file_id: id, logical_path: path },
                ) && id == file_id && path@ == logical_path@),
                Err(error) => blank(logical_path@) && error@ == ErrorView::InvalidArgument(
                    "path is empty"@,
                ),
            },
    {
        if is_blank(logical_path.as_str()) {
            return Err(ApiError::InvalidArgument("path is empty".to_owned()));
        }
        Ok(
            enqueue(
                Change::FileMoved { file_id, logical_path: LogicalPath { text: logical_path } },
            ),
        )
    }

    /// Asks for a file's bytes, answered to `respond_to`.
    pub fn fetch_file(file_id: FileId, expected_hash: String, respond_to: u64) -> (r: DaemonMessage)
        ensures
            r == (DaemonMessage::Fetch { file_id, expected_hash, respond_to }),
    {
        DaemonMessage::Fetch { file_id, expected_hash, respond_to }
    }

    /// What an on-demand fetch comes to.
    pub fn fetch_outcome(reply: FetchReply) -> (r: Result<FileBytes, ApiError>)
        ensures
            match reply {
                FetchReply::Arrived(content) => r == Ok::<_, ApiError>(content),
                FetchReply::Failed(error) => r matches Err(e) && e@ == fetch_error(error),
                FetchReply::Dropped => r matches Err(e) && e@ == ErrorView::Internal(
                    "runtime is shutting down"@,
                ),
                FetchReply::Elapsed => r matches Err(e) && e@ == ErrorView::Internal(
                    "fetch timed out"@,
                ),
            },
    {
        match reply {
            FetchReply::Arrived(content) => Ok(content),
            FetchReply::Failed(error) => Err(ApiError::from_fetch_error(error)),
            FetchReply::Dropped => Err(ApiError::Internal(FetchError::ShuttingDown.to_string())),
            FetchReply::Elapsed => Err(ApiError::Internal(FetchError::TimedOut.to_string())),
        }
    }

    /// Asks where a file lies on disk, answered to `respond_to`.
    pub fn local_path_for_file(file_id: FileId, respond_to: u64) -> (r: SyncDirectoryCommand)
        ensures
            r == (SyncDirectoryCommand::LocalPath { file_id, respond_to }),
    {
        SyncDirectoryCommand::LocalPath { file_id, respond_to }
    }

    /// Gives a file a tag, stamped with `now`.
    pub fn tag_file_at(tag_id: TagId, file_id: FileId, now: i64) -> (r: DaemonMessage)
        ensures
            enqueued(r) matches Some(
                Change::FileTagged { file_id: f, tag_id: t, metadata, modified_at },
            ) && f == file_id && t == tag_id && metadata is None && modified_at == now,
    {
        enqueue(Change::FileTagged { file_id, tag_id, metadata: None, modified_at: now })
    }

    /// Gives a file a tag, stamped with the time.
    pub fn tag_file(tag_id: TagId, file_id: FileId) -> (r: DaemonMessage)
        ensures
            enqueued(r) matches Some(Change::FileTagged { file_id: f, tag_id: t, metadata, .. })
                && f == file_id && t == tag_id && metadata is None,
    {
        Api::tag_file_at(tag_id, file_id, now_millis())
    }

    /// Takes a tag from a file, stamped with `now`.
    pub fn untag_file_at(tag_id: TagId, file_id: FileId, now: i64) -> (r: DaemonMessage)
        ensures
            enqueued(r) == Some(Change::FileUntagged { file_id, tag_id, modified_at: now }),
    {
        enqueue(Change::FileUntagged { file_id, tag_id, modified_at: now })
    }

    /// Takes a tag from a file, stamped with the time.
    pub fn untag_file(tag_id: TagId, file_id: FileId) -> (r: DaemonMessage)
        ensures
            enqueued(r) matches Some(Change::FileUntagged { file_id: f, tag_id: t, .. }) && f
                == file_id && t == tag_id,
    {
        Api::untag_file_at(tag_id, file_id, now_millis())
    }

    /// Makes a tag a subtag of another, stamped with `now`. A tag cannot be its own
    /// subtag.
    pub fn tag_tag_at(parent_id: TagId, subtag_id: TagId, now: i64) -> (r: Result<
        DaemonMessage,
        ApiError,
    >)
        ensures
            match r {
                Ok(message) => parent_id != subtag_id && (enqueued(message) matches Some(
                    Change::TagTagged { taggee_id, tag_id, metadata, modified_at },
                ) && taggee_id == subtag_id && tag_id == parent_id && metadata is None
                    && modified_at == now),
                Err(error) => parent_id == subtag_id && error@ == ErrorView::InvalidArgument(
                    "a tag cannot be its own subtag"@,
                ),
            },
    {
        if parent_id.value == subtag_id.value {
            return Err(ApiError::InvalidArgument("a tag cannot be its own subtag".to_owned()));
        }
        Ok(
            enqueue(
                Change::TagTagged {
                    taggee_id: subtag_id,
                    tag_id: parent_id,
                    metadata: None,
                    modified_at: now,
                },
            ),
        )
    }

    /// Makes a tag a subtag of another, stamped with the time. A tag cannot be its own
    /// subtag.
    pub fn tag_tag(parent_id: TagId, subtag_id: TagId) -> (r: Result<DaemonMessage, ApiError>)
        ensures
            match r {
                Ok(message) => parent_id != subtag_id && (enqueued(message) matches Some(
                    Change::TagTagged { taggee_id, tag_id, metadata, .. },
                ) && taggee_id == subtag_id && tag_id == parent_id && metadata is None),
                Err(error) => parent_id == subtag_id && error@ == ErrorView::InvalidArgument(
                    "a tag cannot be its own subtag"@,
                ),
            },
    {
        Api::tag_tag_at(parent_id, subtag_id, now_millis())
    }

    /// Makes a tag no longer a subtag of another, stamped with `now`.
    pub fn untag_tag_at(parent_id: TagId, subtag_id: TagId, now: i64) -> (r: DaemonMessage)
        ensures
            enqueued(r) == Some(
                Change::TagUntagged { taggee_id: subtag_id, tag_id: parent_id, modified_at: now },
            ),
    {
        enqueue(
            Change::TagUntagged { taggee_id: subtag_id, tag_id: parent_id, modified_at: now },
        )
    }

    /// Makes a tag no longer a subtag of another, stamped with the time.
    pub fn untag_tag(parent_id: TagId, subtag_id: TagId) -> (r: DaemonMessage)
        ensures
            enqueued(r) matches Some(Change::TagUntagged { taggee_id, tag_id, .. }) && taggee_id
                == subtag_id && tag_id == parent_id,
    {
        Api::untag_tag_at(parent_id, subtag_id, now_millis())
    }
}

/// The blank query selects everything: every listed file and every tag.
pub proof fn law_blank_query_lists_everything(
    db: DatabaseView,
    query: Seq<char>,
    rule: SubtagRule,
    files: Seq<FileInfo>,
    tags: Seq<Tag>,
)
    requires
        blank(query),
        answers_with_files(db, query, rule, files),
        answers_with_tags(db, query, rule, tags),
    ensures
        forall|f: FileId| #[trigger]
            db.listed(f) <==> exists|i: int|
                0 <= i < files.len() && (#[trigger] files[i]).file_id == f,
        forall|t: TagId| #[trigger]
            db.tags.contains_key(t) <==> exists|i: int|
                0 <= i < tags.len() && (#[trigger] tags[i]).id == t,
{
    crate::chunk::law_blank_query_is_empty(query);
    assert forall|f: FileId| #[trigger] db.listed(f) implies exists|i: int|
        0 <= i < files.len() && (#[trigger] files[i]).file_id == f by {
        assert(query_selects_file(db, rule, query, f));
    }
    assert forall|t: TagId| #[trigger] db.tags.contains_key(t) implies exists|i: int|
        0 <= i < tags.len() && (#[trigger] tags[i]).id == t by {
        assert(query_selects_tag(db, rule, query, t));
    }
}

} // verus!
