//! The control socket, over which a local user interface reaches the daemon.
//!
//! Whoever waits for an answer is named by a number.

use vstd::prelude::*;

pub mod laws;

use crate::api::{
    answers_with_files, answers_with_tags, enqueued, is_resolved, Api, ApiError, ApiEvent,
    ErrorView, QueryResult,
};
use crate::bus::DaemonMessage;
use crate::database::hierarchy::{file_carries, lists_tags, walk_finds};
use crate::database::short_ids::{is_file_row, known_files, known_tags};
use crate::database::{is_tag_row, now_millis, DatabaseView, FileDatabase, SubtagRule, Tag};
use crate::file_bytes::reaches_end;
use crate::ids::{is_random_uuid, FileId, TagId};
use crate::runtime::color_or_default;
use crate::state::{Change, FileInfo};
use crate::table::Table;
use crate::text::{blank, joined, optional_text};

verus! {

/// A call of a client.
#[derive(Debug, Clone, PartialEq, Eq)]
pub enum ControlRequest {
    ResolveFileId { prefix: String },
    ResolveTagId { prefix: String },
    TagsForFile { file_id: FileId, subtag_rule: SubtagRule },
    RunQuery { query: String, subtag_rule: SubtagRule },
    GetFile { file_id: FileId },
    GetTag { tag_id: TagId },
    SubtagsForTag { tag_id: TagId, subtag_rule: SubtagRule },
    TagsForTag { tag_id: TagId, subtag_rule: SubtagRule },
    CreateTag { name: String, color: String },
    DeleteTag { tag_id: TagId },
    RenameTag { tag_id: TagId, name: String },
    SetTagColor { tag_id: TagId, color: String },
    /// Upload a file whose bytes the client serves on demand.
    UploadFile { path_name: String, content_hash: String, size: u64, tags: Vec<TagId> },
    /// Replace the content of a file; the client serves the bytes on demand.
    EditFile { file_id: FileId, content_hash: String, size: u64 },
    /// Fetch a file, from a peer where it is not here.
    FetchFile { file_id: FileId, expected_hash: String },
    LocalPathForFile { file_id: FileId },
    DeleteFile { file_id: FileId },
    MoveFile { file_id: FileId, logical_path: String },
    TagFile { tag_id: TagId, file_id: FileId },
    UntagFile { tag_id: TagId, file_id: FileId },
    TagTag { parent_id: TagId, subtag_id: TagId },
    UntagTag { parent_id: TagId, subtag_id: TagId },
    /// Start the event stream of this connection.
    Subscribe,
}

/// The answer to a call.
#[derive(Debug, Clone, PartialEq, Eq)]
pub enum ControlResponse {
    File(FileInfo),
    Tag(Tag),
    TagIds(Vec<TagId>),
    FileIds(Vec<FileId>),
    QueryResult(QueryResult),
    TagId(TagId),
    FileId(FileId),
    /// A file that the daemon made for the client, who takes it away.
    FilePath(String),
    LocalPath(Option<String>),
    /// Done; there is nothing to hand back.
    Done,
    Subscribed,
    Error(ApiError),
}

/// A message on the control socket.
#[derive(Debug, Clone, PartialEq, Eq)]
pub enum ControlFrame {
    /// From the client: a call, under a number of its own.
    Request { id: u64, request: ControlRequest },
    /// From the daemon: the answer to the call with that number.
    Response { id: u64, response: ControlResponse },
    /// From the daemon: an event.
    Event(ApiEvent),
    /// From the daemon: asks for a chunk of the file that the client provides.
    ProviderChunkRequest { chunk_id: u64, offset: u64 },
    /// From the client: that chunk.
    ProviderChunkReply { chunk_id: u64, bytes: Vec<u8>, last: bool },
}

/// What a call asks of the daemon.
#[derive(Debug)]
pub enum Dispatch {
    /// Answer at once.
    Answer(ControlResponse),
    /// Put a message onto the bus and answer; where the bus is closed, answer that the
    /// daemon is shutting down.
    Enqueue { message: DaemonMessage, response: ControlResponse },
    /// The same, and in between make this connection the provider of the file.
    Provide {
        message: DaemonMessage,
        file_id: FileId,
        content_hash: String,
        response: ControlResponse,
    },
    /// Fetch a file and answer with its path.
    Fetch { file_id: FileId, expected_hash: String },
    /// Ask where a file lies and answer.
    LocalPath { file_id: FileId },
    /// Start the event stream and answer. The stream opens with `first`.
    Subscribe { response: ControlResponse, first: ApiEvent },
}

/// Whether an answer reports an error.
pub open spec fn reports_error(r: Dispatch, error: ErrorView) -> bool {
    r matches Dispatch::Answer(ControlResponse::Error(e)) && e@ == error
}

/// Whether an answer is the identifier that a typed one resolves to, or the error.
pub open spec fn answers_file_id(db: DatabaseView, prefix: Seq<char>, r: Dispatch) -> bool {
    match r {
        Dispatch::Answer(ControlResponse::FileId(file_id)) => is_resolved(
            known_files(db),
            prefix,
            Ok(file_id.value),
        ),
        Dispatch::Answer(ControlResponse::Error(error)) => is_resolved(
            known_files(db),
            prefix,
            Err(error@),
        ),
        _ => false,
    }
}

/// Whether an answer is the tag that a typed identifier resolves to, or the error.
pub open spec fn answers_tag_id(db: DatabaseView, prefix: Seq<char>, r: Dispatch) -> bool {
    match r {
        Dispatch::Answer(ControlResponse::TagId(tag_id)) => is_resolved(
            known_tags(db),
            prefix,
            Ok(tag_id.value),
        ),
        Dispatch::Answer(ControlResponse::Error(error)) => is_resolved(
            known_tags(db),
            prefix,
            Err(error@),
        ),
        _ => false,
    }
}

/// Whether an answer lists the tags of a set.
pub open spec fn answers_tags(r: Dispatch, set: spec_fn(TagId) -> bool) -> bool {
    r matches Dispatch::Answer(ControlResponse::TagIds(list)) && lists_tags(list@, set)
}

/// Whether a call is answered by putting a change onto the bus.
pub open spec fn enqueues(r: Dispatch, wanted: spec_fn(Change) -> bool) -> bool {
    &&& r matches Dispatch::Enqueue { message, response }
    &&& response == ControlResponse::Done
    &&& enqueued(message) matches Some(change)
    &&& wanted(change)
}

/// Whether the daemon does with a call what it should, where it stamps a write with `now`
/// and names a new tag and a new file by `fresh_tag` and `fresh_file`.
pub open spec fn dispatched_at(
    db: DatabaseView,
    request: ControlRequest,
    now: i64,
    fresh_tag: TagId,
    fresh_file: FileId,
    r: Dispatch,
) -> bool {
    match request {
        ControlRequest::ResolveFileId { prefix } => answers_file_id(db, prefix@, r),
        ControlRequest::ResolveTagId { prefix } => answers_tag_id(db, prefix@, r),
        ControlRequest::TagsForFile { file_id, subtag_rule } => answers_tags(
            r,
            |t: TagId| file_carries(db, subtag_rule, file_id, t),
        ),
        ControlRequest::RunQuery { query, subtag_rule } => {
            &&& r matches Dispatch::Answer(ControlResponse::QueryResult(result))
            &&& answers_with_files(db, query@, subtag_rule, result.files@)
            &&& answers_with_tags(db, query@, subtag_rule, result.tags@)
        },
        ControlRequest::GetFile { file_id } => if db.listed(file_id) {
            r matches Dispatch::Answer(ControlResponse::File(info)) && info.file_id == file_id
                && is_file_row(db, known_files(db), info)
        } else {
            reports_error(r, ErrorView::NotFound)
        },
        ControlRequest::GetTag { tag_id } => if db.tags.contains_key(tag_id) {
            r matches Dispatch::Answer(ControlResponse::Tag(tag)) && is_tag_row(db, tag_id, tag)
        } else {
            reports_error(r, ErrorView::NotFound)
        },
        ControlRequest::SubtagsForTag { tag_id, subtag_rule } => answers_tags(
            r,
            |t: TagId| walk_finds(db, false, subtag_rule, tag_id, t),
        ),
        ControlRequest::TagsForTag { tag_id, subtag_rule } => answers_tags(
            r,
            |t: TagId| walk_finds(db, true, subtag_rule, tag_id, t),
        ),
        ControlRequest::CreateTag { name, color } => if blank(name@) {
            reports_error(r, ErrorView::InvalidArgument("tag name is empty"@))
        } else {
            &&& r matches Dispatch::Enqueue { message, response: ControlResponse::TagId(id) }
            &&& enqueued(message) matches Some(
                Change::TagAdded { tag_id, tag_name, color: given, metadata, modified_at },
            )
            &&& id == fresh_tag && tag_id == fresh_tag
            &&& tag_name == name
            &&& given@ == color_or_default(color@)
            &&& metadata is None
            &&& modified_at == now
        },
        ControlRequest::DeleteTag { tag_id } => enqueues(
            r,
            |change: Change| change == (Change::TagRemoved { tag_id, modified_at: now }),
        ),
        ControlRequest::RenameTag { tag_id, name } => if blank(name@) {
            reports_error(r, ErrorView::InvalidArgument("tag name is empty"@))
        } else {
            enqueues(
                r,
                |change: Change|
                    change == (Change::TagRenamed { tag_id, tag_name: name, modified_at: now }),
            )
        },
        ControlRequest::SetTagColor { tag_id, color } => if blank(color@) {
            reports_error(r, ErrorView::InvalidArgument("color is empty"@))
        } else {
            enqueues(
                r,
                |change: Change|
                    change == (Change::TagRecolored { tag_id, color, modified_at: now }),
            )
        },
        ControlRequest::UploadFile { path_name, content_hash, size, tags } => if blank(
            path_name@,
        ) {
            reports_error(r, ErrorView::InvalidArgument("path is empty"@))
        } else {
            &&& r matches Dispatch::Provide {
                message,
                file_id: provided,
                content_hash: hash,
                response: ControlResponse::FileId(answered),
            }
            &&& message matches DaemonMessage::AnnounceProvided {
                file_id,
                logical_path: Some(path),
                content_hash: announced,
                size: length,
                tags: carried,
            }
            &&& file_id == fresh_file && provided == fresh_file && answered == fresh_file
            &&& path@ == path_name@
            &&& announced == content_hash && hash == content_hash
            &&& length == size
            &&& carried == tags
        },
        ControlRequest::EditFile { file_id: id, content_hash, size } => {
            &&& r matches Dispatch::Provide {
                message,
                file_id: provided,
                content_hash: hash,
                response: ControlResponse::Done,
            }
            &&& message matches DaemonMessage::AnnounceProvided {
                file_id,
                logical_path: None,
                content_hash: announced,
                size: length,
                tags,
            }
            &&& file_id == id && provided == id
            &&& announced == content_hash && hash == content_hash
            &&& length == size
            &&& tags@ == Seq::<TagId>::empty()
        },
        ControlRequest::FetchFile { file_id, expected_hash } => r == (Dispatch::Fetch {
            file_id,
            expected_hash,
        }),
        ControlRequest::LocalPathForFile { file_id } => r == (Dispatch::LocalPath { file_id }),
        ControlRequest::DeleteFile { file_id } => enqueues(
            r,
            |change: Change| change == (Change::FileDeleted { file_id, deleted_at: now }),
        ),
        ControlRequest::MoveFile { file_id, logical_path } => if blank(logical_path@) {
            reports_error(r, ErrorView::InvalidArgument("path is empty"@))
        } else {
            enqueues(
                r,
                |change: Change|
                    change matches Change::FileMoved { file_id: id, logical_path: path } && id
                        == file_id && path@ == logical_path@,
            )
        },
        ControlRequest::TagFile { tag_id, file_id } => enqueues(
            r,
            |change: Change|
                change matches Change::FileTagged { file_id: f, tag_id: t, metadata, modified_at }
                    && f == file_id && t == tag_id && metadata is None && modified_at == now,
        ),
        ControlRequest::UntagFile { tag_id, file_id } => enqueues(
            r,
            |change: Change|
                change == (Change::FileUntagged { file_id, tag_id, modified_at: now }),
        ),
        ControlRequest::TagTag { parent_id, subtag_id } => if parent_id == subtag_id {
            reports_error(r, ErrorView::InvalidArgument("a tag cannot be its own subtag"@))
        } else {
            enqueues(
                r,
                |change: Change|
                    change matches Change::TagTagged { taggee_id, tag_id, metadata, modified_at }
                        && taggee_id == subtag_id && tag_id == parent_id && metadata is None
                        && modified_at == now,
            )
        },
        ControlRequest::UntagTag { parent_id, subtag_id } => enqueues(
            r,
            |change: Change|
                change == (Change::TagUntagged {
                    taggee_id: subtag_id,
                    tag_id: parent_id,
                    modified_at: now,
                }),
        ),
        ControlRequest::Subscribe => r == (Dispatch::Subscribe {
            response: ControlResponse::Subscribed,
            first: ApiEvent::Resynced,
        }),
    }
}

/// Whether the daemon does with a call what it should, at some time and under some fresh
/// identifiers, which are those of random UUIDs.
pub open spec fn dispatched(db: DatabaseView, request: ControlRequest, r: Dispatch) -> bool {
    exists|now: i64, fresh_tag: TagId, fresh_file: FileId|
        is_random_uuid(fresh_tag.value) && is_random_uuid(fresh_file.value)
            && #[trigger] dispatched_at(db, request, now, fresh_tag, fresh_file, r)
}

fn tag_ids_answer(r: Result<Vec<TagId>, ApiError>) -> (answer: Dispatch)
    ensures
        match r {
            Ok(list) => answer == Dispatch::Answer(ControlResponse::TagIds(list)),
            Err(error) => answer == Dispatch::Answer(ControlResponse::Error(error)),
        },
{
    match r {
        Ok(list) => Dispatch::Answer(ControlResponse::TagIds(list)),
        Err(error) => Dispatch::Answer(ControlResponse::Error(error)),
    }
}

fn message_answer(r: Result<DaemonMessage, ApiError>) -> (answer: Dispatch)
    ensures
        match r {
            Ok(message) => answer == (Dispatch::Enqueue { message, response: ControlResponse::Done }),
            Err(error) => answer == Dispatch::Answer(ControlResponse::Error(error)),
        },
{
    match r {
        Ok(message) => Dispatch::Enqueue { message, response: ControlResponse::Done },
        Err(error) => Dispatch::Answer(ControlResponse::Error(error)),
    }
}

/// Decides what a call asks of the daemon. Reads are answered from the database; a write
/// is stamped with `now`, and a new tag or file gets the identifier given for it.
pub fn dispatch_at(
    database: &FileDatabase,
    request: ControlRequest,
    now: i64,
    fresh_tag: TagId,
    fresh_file: FileId,
) -> (r: Dispatch)
    ensures
        dispatched_at(database@, request, now, fresh_tag, fresh_file, r),
{
    match request {
        ControlRequest::ResolveFileId { prefix } => {
            match Api::resolve_file_id(database, prefix.as_str()) {
                Ok(file_id) => Dispatch::Answer(ControlResponse::FileId(file_id)),
                Err(error) => Dispatch::Answer(ControlResponse::Error(error)),
            }
        },
        ControlRequest::ResolveTagId { prefix } => {
            match Api::resolve_tag_id(database, prefix.as_str()) {
                Ok(tag_id) => Dispatch::Answer(ControlResponse::TagId(tag_id)),
                Err(error) => Dispatch::Answer(ControlResponse::Error(error)),
            }
        },
        ControlRequest::TagsForFile { file_id, subtag_rule } => tag_ids_answer(
            Api::tags_for_file(database, file_id, subtag_rule),
        ),
        ControlRequest::RunQuery { query, subtag_rule } => {
            match Api::run_query(database, query.as_str(), subtag_rule) {
                Ok(result) => Dispatch::Answer(ControlResponse::QueryResult(result)),
                Err(error) => Dispatch::Answer(ControlResponse::Error(error)),
            }
        },
        ControlRequest::GetFile { file_id } => match Api::get_file(database, file_id) {
            Ok(file) => Dispatch::Answer(ControlResponse::File(file)),
            Err(error) => Dispatch::Answer(ControlResponse::Error(error)),
        },
        ControlRequest::GetTag { tag_id } => match Api::get_tag(database, tag_id) {
            Ok(tag) => Dispatch::Answer(ControlResponse::Tag(tag)),
            Err(error) => Dispatch::Answer(ControlResponse::Error(error)),
        },
        ControlRequest::SubtagsForTag { tag_id, subtag_rule } => tag_ids_answer(
            Api::subtags_for_tag(database, tag_id, subtag_rule),
        ),
        ControlRequest::TagsForTag { tag_id, subtag_rule } => tag_ids_answer(
            Api::tags_for_tag(database, tag_id, subtag_rule),
        ),
        ControlRequest::CreateTag { name, color } => {
            match Api::create_tag_at(fresh_tag, name, color, now) {
                Ok(message) => Dispatch::Enqueue {
                    message,
                    response: ControlResponse::TagId(fresh_tag),
                },
                Err(error) => Dispatch::Answer(ControlResponse::Error(error)),
            }
        },
        ControlRequest::DeleteTag { tag_id } => message_answer(Ok(Api::delete_tag_at(tag_id, now))),
        ControlRequest::RenameTag { tag_id, name } => message_answer(
            Api::rename_tag_at(tag_id, name, now),
        ),
        ControlRequest::SetTagColor { tag_id, color } => message_answer(
            Api::set_tag_color_at(tag_id, color, now),
        ),
        ControlRequest::UploadFile { path_name, content_hash, size, tags } => {
            match Api::upload_file_as(fresh_file, path_name, content_hash.clone(), size, tags) {
                Ok(message) => Dispatch::Provide {
                    message,
                    file_id: fresh_file,
                    content_hash,
                    response: ControlResponse::FileId(fresh_file),
                },
                Err(error) => Dispatch::Answer(ControlResponse::Error(error)),
            }
        },
        ControlRequest::EditFile { file_id, content_hash, size } => {
            let message = Api::edit_file(file_id, content_hash.clone(), size);
            Dispatch::Provide { message, file_id, content_hash, response: ControlResponse::Done }
        },
        ControlRequest::FetchFile { file_id, expected_hash } => Dispatch::Fetch {
            file_id,
            expected_hash,
        },
        ControlRequest::LocalPathForFile { file_id } => Dispatch::LocalPath { file_id },
        ControlRequest::DeleteFile { file_id } => message_answer(
            Ok(Api::delete_file_at(file_id, now)),
        ),
        ControlRequest::MoveFile { file_id, logical_path } => message_answer(
            Api::move_file(file_id, logical_path),
        ),
        ControlRequest::TagFile { tag_id, file_id } => message_answer(
            Ok(Api::tag_file_at(tag_id, file_id, now)),
        ),
        ControlRequest::UntagFile { tag_id, file_id } => message_answer(
            Ok(Api::untag_file_at(tag_id, file_id, now)),
        ),
        ControlRequest::TagTag { parent_id, subtag_id } => message_answer(
            Api::tag_tag_at(parent_id, subtag_id, now),
        ),
        ControlRequest::UntagTag { parent_id, subtag_id } => message_answer(
            Ok(Api::untag_tag_at(parent_id, subtag_id, now)),
        ),
        ControlRequest::Subscribe => Dispatch::Subscribe {
            response: ControlResponse::Subscribed,
            first: ApiEvent::Resynced,
        },
    }
}

/// Decides what a call asks of the daemon. Reads are answered from the database; a write
/// is stamped with the time, and a new tag or file gets a fresh identifier.
pub fn dispatch(database: &FileDatabase, request: ControlRequest) -> (r: Dispatch)
    ensures
        dispatched(database@, request, r),
{
    let now: i64 = now_millis();
    let fresh_tag = TagId::new();
    let fresh_file = FileId::new();
    dispatch_at(database, request, now, fresh_tag, fresh_file)
}

/// Numbered questions and who waits for each answer.
pub struct Waiting {
    waiters: Table<u64, u64>,
    next: u64,
}

/// The mathematical value of [`Waiting`].
#[verifier::ext_equal]
pub struct WaitingView {
    /// Who waits for the answer to each open question.
    pub waiters: Map<u64, u64>,
    /// The number of the next question.
    pub next: u64,
}

impl WaitingView {
    /// Whether every open question has a number that was given out.
    pub open spec fn well_formed(self) -> bool {
        forall|id: u64| #[trigger] self.waiters.contains_key(id) ==> id < self.next
    }

    /// Whether there are numbers left.
    pub open spec fn has_numbers(self) -> bool {
        self.next < u64::MAX
    }

    /// The state with one more open question.
    pub open spec fn asked(self, waiter: u64) -> WaitingView {
        WaitingView {
            waiters: self.waiters.insert(self.next, waiter),
            next: (self.next + 1) as u64,
        }
    }

    /// The state once an answer to a question came.
    pub open spec fn answered(self, id: u64) -> WaitingView {
        WaitingView { waiters: self.waiters.remove(id), ..self }
    }
}

impl Waiting {
    pub closed spec fn view(&self) -> WaitingView {
        WaitingView { waiters: self.waiters@, next: self.next }
    }

    pub fn new() -> (r: Self)
        ensures
            r@ == (WaitingView { waiters: Map::empty(), next: 0 }),
            r@.well_formed(),
    {
        Waiting { waiters: Table::new(), next: 0 }
    }

    /// Gives a question the next number. `None` once the numbers are used up.
    pub fn ask(&mut self, waiter: u64) -> (r: Option<u64>)
        ensures
            match r {
                Some(id) => old(self)@.has_numbers() && id == old(self)@.next && final(self)@
                    == old(self)@.asked(waiter),
                None => !old(self)@.has_numbers() && final(self)@ == old(self)@,
            },
            old(self)@.well_formed() ==> final(self)@.well_formed(),
    {
        if self.next == u64::MAX {
            return None;
        }
        let id: u64 = self.next;
        self.waiters.insert(id, waiter);
        self.next = id + 1;
        proof {
            assert forall|k: u64|
                old(self)@.well_formed() && #[trigger] self@.waiters.contains_key(k) implies k
                < self@.next by {
                assert(k == id || old(self)@.waiters.contains_key(k));
            }
        }
        Some(id)
    }

    /// Whoever waits for the answer to a question; from then on nobody does.
    pub fn answer(&mut self, id: u64) -> (r: Option<u64>)
        ensures
            match r {
                Some(waiter) => old(self)@.waiters.contains_key(id) && waiter
                    == old(self)@.waiters[id],
                None => !old(self)@.waiters.contains_key(id),
            },
            final(self)@ == old(self)@.answered(id),
            old(self)@.well_formed() ==> final(self)@.well_formed(),
    {
        let waiter = match self.waiters.get(id) {
            Some(waiter) => *waiter,
            None => {
                assert(self.waiters@.remove(id) =~= self.waiters@);
                return None;
            },
        };
        let _ = self.waiters.remove(id);
        Some(waiter)
    }

    /// Forgets every open question. The waiters learn that no answer will come.
    pub fn clear(&mut self)
        ensures
            final(self)@ == (WaitingView { waiters: Map::empty(), ..old(self)@ }),
            final(self)@.well_formed(),
    {
        self.waiters = Table::new();
    }
}

/// The daemon's side of a control connection.
pub struct ControlConnection {
    chunks: Waiting,
    /// The file that the client provides, and its digest.
    active_provider: Option<(FileId, String)>,
}

/// The mathematical value of a [`ControlConnection`].
#[verifier::ext_equal]
pub struct ConnectionView {
    /// The chunks that the client was asked for.
    pub chunks: WaitingView,
    pub active_provider: Option<(FileId, Seq<char>)>,
}

/// The mathematical value of a provided file.
pub open spec fn provided(active: Option<(FileId, String)>) -> Option<(FileId, Seq<char>)> {
    match active {
        Some((file_id, hash)) => Some((file_id, hash@)),
        None => None,
    }
}

/// What follows from a frame of the client.
#[derive(Debug)]
pub enum ConnectionStep {
    /// Hand a chunk to whoever waits for it.
    Deliver { waiter: u64, bytes: Vec<u8>, last: bool },
    /// Dispatch a call and answer under its number.
    Dispatch { id: u64, request: ControlRequest },
    /// Nothing.
    Ignore,
}

/// Whether a frame of the client is taken in as it should be.
pub open spec fn client_heard(
    before: ConnectionView,
    after: ConnectionView,
    frame: ControlFrame,
    step: ConnectionStep,
) -> bool {
    match frame {
        ControlFrame::ProviderChunkReply { chunk_id, bytes, last } => {
            &&& after == (ConnectionView { chunks: before.chunks.answered(chunk_id), ..before })
            &&& if before.chunks.waiters.contains_key(chunk_id) {
                step == (ConnectionStep::Deliver {
                    waiter: before.chunks.waiters[chunk_id],
                    bytes,
                    last,
                })
            } else {
                step == ConnectionStep::Ignore
            }
        },
        ControlFrame::Request { id, request } => after == before && step
            == (ConnectionStep::Dispatch { id, request }),
        _ => after == before && step == ConnectionStep::Ignore,
    }
}

/// Whether the client is asked for a chunk as it should be.
pub open spec fn chunk_wanted(
    before: ConnectionView,
    after: ConnectionView,
    offset: u64,
    waiter: u64,
    asked: Option<ControlFrame>,
) -> bool {
    match asked {
        Some(frame) => before.chunks.has_numbers() && frame
            == (ControlFrame::ProviderChunkRequest { chunk_id: before.chunks.next, offset })
            && after == (ConnectionView { chunks: before.chunks.asked(waiter), ..before }),
        None => !before.chunks.has_numbers() && after == before,
    }
}

impl ControlConnection {
    pub closed spec fn view(&self) -> ConnectionView {
        ConnectionView { chunks: self.chunks@, active_provider: provided(self.active_provider) }
    }

    pub fn new() -> (r: Self)
        ensures
            r@ == (ConnectionView {
                chunks: WaitingView { waiters: Map::empty(), next: 0 },
                active_provider: None,
            }),
    {
        ControlConnection { chunks: Waiting::new(), active_provider: None }
    }

    /// Asks the client for a chunk. `None` once the numbers are used up.
    pub fn on_chunk_wanted(&mut self, offset: u64, waiter: u64) -> (r: Option<ControlFrame>)
        ensures
            match r {
                Some(frame) => old(self)@.chunks.has_numbers() && frame
                    == (ControlFrame::ProviderChunkRequest {
                    chunk_id: old(self)@.chunks.next,
                    offset,
                }) && final(self)@ == (ConnectionView {
                    chunks: old(self)@.chunks.asked(waiter),
                    ..old(self)@
                }),
                None => !old(self)@.chunks.has_numbers() && final(self)@ == old(self)@,
            },
            chunk_wanted(old(self)@, final(self)@, offset, waiter, r),
    {
        match self.chunks.ask(waiter) {
            Some(chunk_id) => Some(ControlFrame::ProviderChunkRequest { chunk_id, offset }),
            None => None,
        }
    }

    /// Handles a frame of the client.
    pub fn on_frame(&mut self, frame: ControlFrame) -> (r: ConnectionStep)
        ensures
            match frame {
                ControlFrame::ProviderChunkReply { chunk_id, bytes, last } => {
                    &&& final(self)@ == (ConnectionView {
                        chunks: old(self)@.chunks.answered(chunk_id),
                        ..old(self)@
                    })
                    &&& if old(self)@.chunks.waiters.contains_key(chunk_id) {
                        r == (ConnectionStep::Deliver {
                            waiter: old(self)@.chunks.waiters[chunk_id],
                            bytes,
                            last,
                        })
                    } else {
                        r == ConnectionStep::Ignore
                    }
                },
                ControlFrame::Request { id, request } => final(self)@ == old(self)@ && r
                    == (ConnectionStep::Dispatch { id, request }),
                _ => final(self)@ == old(self)@ && r == ConnectionStep::Ignore,
            },
            client_heard(old(self)@, final(self)@, frame, r),
    {
        match frame {
            ControlFrame::ProviderChunkReply { chunk_id, bytes, last } => {
                match self.chunks.answer(chunk_id) {
                    Some(waiter) => ConnectionStep::Deliver { waiter, bytes, last },
                    None => ConnectionStep::Ignore,
                }
            },
            ControlFrame::Request { id, request } => ConnectionStep::Dispatch { id, request },
            _ => ConnectionStep::Ignore,
        }
    }

    /// Records that the client provides a file.
    pub fn provides(&mut self, file_id: FileId, content_hash: String)
        ensures
            final(self)@ == (ConnectionView {
                active_provider: Some((file_id, content_hash@)),
                ..old(self)@
            }),
    {
        self.active_provider = Some((file_id, content_hash));
    }

    /// Ends the client's role as a provider, because a transfer was completed or the
    /// connection closes: gives the file to unregister. After a transfer the client is
    /// told that it may release that file.
    pub fn release(&mut self) -> (r: Option<(FileId, String)>)
        ensures
            provided(r) == old(self)@.active_provider,
            final(self)@ == (ConnectionView { active_provider: None, ..old(self)@ }),
    {
        self.active_provider.take()
    }
}

/// The client's side of a control connection.
pub struct ControlClient {
    calls: Waiting,
    /// The local file that the client provides.
    provider_path: Option<String>,
}

/// The mathematical value of a [`ControlClient`].
#[verifier::ext_equal]
pub struct ClientView {
    /// The calls that are not answered yet.
    pub calls: WaitingView,
    pub provider_path: Option<Seq<char>>,
}

/// What follows from a frame of the daemon.
#[derive(Debug)]
pub enum ClientStep {
    /// Hand an answer to whoever waits for it.
    Deliver { waiter: u64, response: ControlResponse },
    /// Hand an event to the subscribers.
    Publish(ApiEvent),
    /// Read a chunk of a local file and reply with it.
    ReadChunk { chunk_id: u64, path: String, offset: u64 },
    /// Send a frame.
    Send(ControlFrame),
    /// Nothing.
    Ignore,
}

/// Whether a frame is the reply that has no bytes and ends the file.
pub open spec fn is_empty_reply(frame: ControlFrame, chunk_id: u64) -> bool {
    frame matches ControlFrame::ProviderChunkReply { chunk_id: id, bytes, last } && id == chunk_id
        && bytes@ == Seq::<u8>::empty() && last
}

/// Whether a call is made as it should be.
pub open spec fn call_made(
    before: ClientView,
    after: ClientView,
    request: ControlRequest,
    waiter: u64,
    sent: Option<ControlFrame>,
) -> bool {
    match sent {
        Some(frame) => before.calls.has_numbers() && frame == (ControlFrame::Request {
            id: before.calls.next,
            request,
        }) && after == (ClientView { calls: before.calls.asked(waiter), ..before }),
        None => !before.calls.has_numbers() && after == before,
    }
}

/// Whether a frame of the daemon is taken in as it should be.
pub open spec fn daemon_heard(
    before: ClientView,
    after: ClientView,
    frame: ControlFrame,
    step: ClientStep,
) -> bool {
    match frame {
        ControlFrame::Response { id, response } => {
            &&& after == (ClientView { calls: before.calls.answered(id), ..before })
            &&& if before.calls.waiters.contains_key(id) {
                step == (ClientStep::Deliver { waiter: before.calls.waiters[id], response })
            } else {
                step == ClientStep::Ignore
            }
        },
        ControlFrame::Event(event) => after == before && step == ClientStep::Publish(event),
        ControlFrame::ProviderChunkRequest { chunk_id, offset } => after == before
            && match before.provider_path {
            Some(path) => step matches ClientStep::ReadChunk {
                chunk_id: id,
                path: read,
                offset: from,
            } && id == chunk_id && read@ == path && from == offset,
            None => step matches ClientStep::Send(reply) && is_empty_reply(reply, chunk_id),
        },
        _ => after == before && step == ClientStep::Ignore,
    }
}

/// Whether a frame is the reply with a chunk that was read at `offset` of a file of so many
/// bytes, or could not be read.
pub open spec fn is_chunk_reply(
    reply: ControlFrame,
    chunk_id: u64,
    offset: u64,
    read: Option<(Vec<u8>, u64)>,
) -> bool {
    match read {
        Some((chunk, total)) => reply matches ControlFrame::ProviderChunkReply {
            chunk_id: id,
            bytes,
            last,
        } && id == chunk_id && bytes == chunk && last == (offset + chunk@.len() >= total),
        None => is_empty_reply(reply, chunk_id),
    }
}

impl ControlClient {
    pub closed spec fn view(&self) -> ClientView {
        ClientView {
            calls: self.calls@,
            provider_path: optional_text(self.provider_path),
        }
    }

    pub fn new() -> (r: Self)
        ensures
            r@ == (ClientView {
                calls: WaitingView { waiters: Map::empty(), next: 0 },
                provider_path: None,
            }),
    {
        ControlClient { calls: Waiting::new(), provider_path: None }
    }

    /// Makes a call. `None` once the numbers are used up.
    pub fn call(&mut self, request: ControlRequest, waiter: u64) -> (r: Option<ControlFrame>)
        ensures
            match r {
                Some(frame) => old(self)@.calls.has_numbers() && frame == (ControlFrame::Request {
                    id: old(self)@.calls.next,
                    request,
                }) && final(self)@ == (ClientView {
                    calls: old(self)@.calls.asked(waiter),
                    ..old(self)@
                }),
                None => !old(self)@.calls.has_numbers() && final(self)@ == old(self)@,
            },
            call_made(old(self)@, final(self)@, request, waiter, r),
    {
        match self.calls.ask(waiter) {
            Some(id) => Some(ControlFrame::Request { id, request }),
            None => None,
        }
    }

    /// Sets the local file that the client provides, or none.
    pub fn provide(&mut self, path: Option<String>)
        ensures
            final(self)@ == (ClientView {
                provider_path: optional_text(path),
                ..old(self)@
            }),
    {
        self.provider_path = path;
    }

    /// Handles a frame of the daemon.
    pub fn on_frame(&mut self, frame: ControlFrame) -> (r: ClientStep)
        ensures
            match frame {
                ControlFrame::Response { id, response } => {
                    &&& final(self)@ == (ClientView {
                        calls: old(self)@.calls.answered(id),
                        ..old(self)@
                    })
                    &&& if old(self)@.calls.waiters.contains_key(id) {
                        r == (ClientStep::Deliver {
                            waiter: old(self)@.calls.waiters[id],
                            response,
                        })
                    } else {
                        r == ClientStep::Ignore
                    }
                },
                ControlFrame::Event(event) => final(self)@ == old(self)@ && r
                    == ClientStep::Publish(event),
                ControlFrame::ProviderChunkRequest { chunk_id, offset } => final(self)@ == old(
                    self,
                )@ && match old(self)@.provider_path {
                    Some(path) => r matches ClientStep::ReadChunk {
                        chunk_id: id,
                        path: read,
                        offset: from,
                    } && id == chunk_id && read@ == path && from == offset,
                    None => r matches ClientStep::Send(reply) && is_empty_reply(reply, chunk_id),
                },
                _ => final(self)@ == old(self)@ && r == ClientStep::Ignore,
            },
            daemon_heard(old(self)@, final(self)@, frame, r),
    {
        match frame {
            ControlFrame::Response { id, response } => match self.calls.answer(id) {
                Some(waiter) => ClientStep::Deliver { waiter, response },
                None => ClientStep::Ignore,
            },
            ControlFrame::Event(event) => ClientStep::Publish(event),
            ControlFrame::ProviderChunkRequest { chunk_id, offset } => match &self.provider_path {
                Some(path) => ClientStep::ReadChunk { chunk_id, path: path.clone(), offset },
                None => ClientStep::Send(read_provider_chunk(chunk_id, offset, None)),
            },
            _ => ClientStep::Ignore,
        }
    }

    /// The connection is closed: no open call will be answered.
    pub fn closed(&mut self)
        ensures
            final(self)@ == (ClientView {
                calls: WaitingView { waiters: Map::empty(), ..old(self)@.calls },
                ..old(self)@
            }),
    {
        self.calls.clear();
    }
}

/// The reply with a chunk that was read at `offset` of a file of so many bytes: the
/// last one where it reaches the end. A file that cannot be read ends at once.
pub fn read_provider_chunk(chunk_id: u64, offset: u64, read: Option<(Vec<u8>, u64)>) -> (r:
    ControlFrame)
    ensures
        match read {
            Some((chunk, total)) => r matches ControlFrame::ProviderChunkReply {
                chunk_id: id,
                bytes,
                last,
            } && id == chunk_id && bytes == chunk && last == (offset + chunk@.len() >= total),
            None => is_empty_reply(r, chunk_id),
        },
        is_chunk_reply(r, chunk_id, offset, read),
{
    match read {
        Some((bytes, total)) => {
            let last = reaches_end(offset, bytes.len(), total);
            ControlFrame::ProviderChunkReply { chunk_id, bytes, last }
        },
        None => {
            let bytes: Vec<u8> = Vec::new();
            ControlFrame::ProviderChunkReply { chunk_id, bytes, last: true }
        },
    }
}

/// The error of a call that was answered with something else than it expects. `shown`
/// is the answer as text.
pub fn unexpected(response: ControlResponse, shown: &str) -> (r: ApiError)
    ensures
        is_unexpected(response, shown@, r),
{
    match response {
        ControlResponse::Error(error) => error,
        _ => ApiError::Transport(joined("unexpected control response: ", shown)),
    }
}

/// The error that stands in for an answer of another kind than expected.
pub open spec fn is_unexpected(
    response: ControlResponse,
    shown: Seq<char>,
    error: ApiError,
) -> bool {
    match response {
        ControlResponse::Error(e) => error == e,
        _ => error@ == ErrorView::Transport("unexpected control response: "@ + shown),
    }
}

impl ControlResponse {
    /// The answer as a call expects it that asks for this kind. `shown` is the answer as
    /// text.
    pub fn into_file_id(self, shown: &str) -> (r: Result<FileId, ApiError>)
        ensures
            match (self, r) {
                (ControlResponse::FileId(value), _) => r == Ok::<_, ApiError>(value),
                (_, Ok(_)) => false,
                (_, Err(error)) => is_unexpected(self, shown@, error),
            },
    {
        match self {
            ControlResponse::FileId(value) => Ok(value),
            other => Err(unexpected(other, shown)),
        }
    }

    /// The answer as a call expects it that asks for this kind. `shown` is the answer as
    /// text.
    pub fn into_tag_id(self, shown: &str) -> (r: Result<TagId, ApiError>)
        ensures
            match (self, r) {
                (ControlResponse::TagId(value), _) => r == Ok::<_, ApiError>(value),
                (_, Ok(_)) => false,
                (_, Err(error)) => is_unexpected(self, shown@, error),
            },
    {
        match self {
            ControlResponse::TagId(value) => Ok(value),
            other => Err(unexpected(other, shown)),
        }
    }

    /// The answer as a call expects it that asks for this kind. `shown` is the answer as
    /// text.
    pub fn into_tag_ids(self, shown: &str) -> (r: Result<Vec<TagId>, ApiError>)
        ensures
            match (self, r) {
                (ControlResponse::TagIds(value), _) => r == Ok::<_, ApiError>(value),
                (_, Ok(_)) => false,
                (_, Err(error)) => is_unexpected(self, shown@, error),
            },
    {
        match self {
            ControlResponse::TagIds(value) => Ok(value),
            other => Err(unexpected(other, shown)),
        }
    }

    /// The answer as a call expects it that asks for this kind. `shown` is the answer as
    /// text.
    pub fn into_query_result(self, shown: &str) -> (r: Result<QueryResult, ApiError>)
        ensures
            match (self, r) {
                (ControlResponse::QueryResult(value), _) => r == Ok::<_, ApiError>(value),
                (_, Ok(_)) => false,
                (_, Err(error)) => is_unexpected(self, shown@, error),
            },
    {
        match self {
            ControlResponse::QueryResult(value) => Ok(value),
            other => Err(unexpected(other, shown)),
        }
    }

    /// The answer as a call expects it that asks for this kind. `shown` is the answer as
    /// text.
    pub fn into_file(self, shown: &str) -> (r: Result<FileInfo, ApiError>)
        ensures
            match (self, r) {
                (ControlResponse::File(value), _) => r == Ok::<_, ApiError>(value),
                (_, Ok(_)) => false,
                (_, Err(error)) => is_unexpected(self, shown@, error),
            },
    {
        match self {
            ControlResponse::File(value) => Ok(value),
            other => Err(unexpected(other, shown)),
        }
    }

    /// The answer as a call expects it that asks for this kind. `shown` is the answer as
    /// text.
    pub fn into_tag(self, shown: &str) -> (r: Result<Tag, ApiError>)
        ensures
            match (self, r) {
                (ControlResponse::Tag(value), _) => r == Ok::<_, ApiError>(value),
                (_, Ok(_)) => false,
                (_, Err(error)) => is_unexpected(self, shown@, error),
            },
    {
        match self {
            ControlResponse::Tag(value) => Ok(value),
            other => Err(unexpected(other, shown)),
        }
    }

    /// The answer as a call expects it that asks for this kind. `shown` is the answer as
    /// text.
    pub fn into_file_path(self, shown: &str) -> (r: Result<String, ApiError>)
        ensures
            match (self, r) {
                (ControlResponse::FilePath(value), _) => r == Ok::<_, ApiError>(value),
                (_, Ok(_)) => false,
                (_, Err(error)) => is_unexpected(self, shown@, error),
            },
    {
        match self {
            ControlResponse::FilePath(value) => Ok(value),
            other => Err(unexpected(other, shown)),
        }
    }

    /// The answer as a call expects it that asks for this kind. `shown` is the answer as
    /// text.
    pub fn into_local_path(self, shown: &str) -> (r: Result<Option<String>, ApiError>)
        ensures
            match (self, r) {
                (ControlResponse::LocalPath(value), _) => r == Ok::<_, ApiError>(value),
                (_, Ok(_)) => false,
                (_, Err(error)) => is_unexpected(self, shown@, error),
            },
    {
        match self {
            ControlResponse::LocalPath(value) => Ok(value),
            other => Err(unexpected(other, shown)),
        }
    }

    /// The answer as a call expects it that asks for nothing back. `shown` is the answer as
    /// text.
    pub fn into_done(self, shown: &str) -> (r: Result<(), ApiError>)
        ensures
            match (self, r) {
                (ControlResponse::Done, _) => r is Ok,
                (_, Ok(_)) => false,
                (_, Err(error)) => is_unexpected(self, shown@, error),
            },
    {
        match self {
            ControlResponse::Done => Ok(()),
            other => Err(unexpected(other, shown)),
        }
    }

    /// The answer as a call expects it that asks for nothing back. `shown` is the answer as
    /// text.
    pub fn into_subscribed(self, shown: &str) -> (r: Result<(), ApiError>)
        ensures
            match (self, r) {
                (ControlResponse::Subscribed, _) => r is Ok,
                (_, Ok(_)) => false,
                (_, Err(error)) => is_unexpected(self, shown@, error),
            },
    {
        match self {
            ControlResponse::Subscribed => Ok(()),
            other => Err(unexpected(other, shown)),
        }
    }
}

/// The error of a call whose connection closed before the answer.
pub fn closed_before_response() -> (r: ApiError)
    ensures
        r@ == ErrorView::Transport("control connection closed before response"@),
{
    ApiError::Transport("control connection closed before response".to_owned())
}

/// A question is answered once, to whoever asked: the first answer under its number
/// goes to the asker, and a second one to nobody.
pub proof fn law_answers_reach_the_asker_once(before: WaitingView, waiter: u64)
    requires
        before.well_formed(),
        before.has_numbers(),
    ensures
        ({
            let id = before.next;
            let open = before.asked(waiter);
            &&& !before.waiters.contains_key(id)
            &&& open.waiters.contains_key(id) && open.waiters[id] == waiter
            &&& !open.answered(id).waiters.contains_key(id)
            &&& open.well_formed() && open.answered(id).well_formed()
        }),
{
}

/// Questions do not get in each other's way: asking or answering one leaves whoever
/// waits for another waiting.
pub proof fn law_questions_are_independent(before: WaitingView, id: u64, other: u64, waiter: u64)
    requires
        before.well_formed(),
        before.has_numbers(),
        before.waiters.contains_key(other),
        id != other,
    ensures
        before.asked(waiter).waiters.contains_key(other),
        before.asked(waiter).waiters[other] == before.waiters[other],
        before.answered(id).waiters.contains_key(other),
        before.answered(id).waiters[other] == before.waiters[other],
{
}

} // verus!
