//! What the calls of a client come to: what they read, what they write, and who gets the
//! answers.

use vstd::prelude::*;
use super::{
    call_made, chunk_wanted, client_heard, daemon_heard, dispatched_at, is_chunk_reply,
    is_unexpected, ClientStep, ClientView, ConnectionStep, ConnectionView, ControlFrame,
    ControlRequest, ControlResponse, Dispatch,
};
use crate::api::{ApiError, ApiEvent};
use crate::bus::{DaemonMessage, Ingest};
use crate::configuration::{Configuration, RuntimeConfiguration};
use crate::database::hierarchy::reaches;
use crate::database::query::laws::{is_parent, stands_on};
use crate::database::query::{query_selects_file, query_selects_tag};
use crate::database::short_ids::{
    fits, known_files, known_tags, normalised, stands_for_several,
};
use crate::database::{file_key, DatabaseView, EntryKey, EntryState, EntryType, SubtagRule};
use crate::ids::{id_text, FileId, TagId};
use crate::pipeline::after_message;
use crate::state::{Change, ChangeOrigin};
use crate::text::white_space;

verus! {

/// Whether a text has nothing to see in it.
pub open spec fn is_invisible(text: Seq<char>) -> bool {
    forall|i: int| 0 <= i < text.len() ==> white_space(#[trigger] text[i])
}

/// The message that a call puts onto the bus.
pub open spec fn message_of(r: Dispatch) -> Option<DaemonMessage> {
    match r {
        Dispatch::Enqueue { message, .. } => Some(message),
        Dispatch::Provide { message, .. } => Some(message),
        _ => None,
    }
}

/// Whether a call is refused because an argument makes no sense.
pub open spec fn is_refused(r: Dispatch) -> bool {
    r matches Dispatch::Answer(ControlResponse::Error(ApiError::InvalidArgument(_)))
}

/// Exactly the calls that name nothing, and those that put a tag under itself, are refused,
/// and put nothing onto the bus. Every other write goes onto it.
pub proof fn law_senseless_calls_are_refused(
    db: DatabaseView,
    request: ControlRequest,
    now: i64,
    fresh_tag: TagId,
    fresh_file: FileId,
    r: Dispatch,
)
    requires
        dispatched_at(db, request, now, fresh_tag, fresh_file, r),
    ensures
        ({
            let senseless = match request {
                ControlRequest::CreateTag { name, .. } => is_invisible(name@),
                ControlRequest::RenameTag { name, .. } => is_invisible(name@),
                ControlRequest::SetTagColor { color, .. } => is_invisible(color@),
                ControlRequest::UploadFile { path_name, .. } => is_invisible(path_name@),
                ControlRequest::MoveFile { logical_path, .. } => is_invisible(logical_path@),
                ControlRequest::TagTag { parent_id, subtag_id } => parent_id == subtag_id,
                _ => false,
            };
            let writes = match request {
                ControlRequest::CreateTag { .. } => true,
                ControlRequest::DeleteTag { .. } => true,
                ControlRequest::RenameTag { .. } => true,
                ControlRequest::SetTagColor { .. } => true,
                ControlRequest::UploadFile { .. } => true,
                ControlRequest::EditFile { .. } => true,
                ControlRequest::DeleteFile { .. } => true,
                ControlRequest::MoveFile { .. } => true,
                ControlRequest::TagFile { .. } => true,
                ControlRequest::UntagFile { .. } => true,
                ControlRequest::TagTag { .. } => true,
                ControlRequest::UntagTag { .. } => true,
                _ => false,
            };
            &&& is_refused(r) <==> senseless
            &&& message_of(r) is Some <==> writes && !senseless
        }),
{
}

/// A tag that a client creates exists from then on, under the identifier that the client is
/// answered with, with the name and the colour that it asked for.
pub proof fn law_a_created_tag_exists(
    configuration: Configuration,
    runtime: RuntimeConfiguration,
    db: DatabaseView,
    name: String,
    color: String,
    now: i64,
    fresh_tag: TagId,
    fresh_file: FileId,
    r: Dispatch,
    later: i64,
    here: ChangeOrigin,
)
    requires
        dispatched_at(
            db,
            ControlRequest::CreateTag { name, color },
            now,
            fresh_tag,
            fresh_file,
            r,
        ),
        !is_invisible(name@),
        !db.tags.contains_key(fresh_tag),
    ensures
        r matches Dispatch::Enqueue { response: ControlResponse::TagId(t), .. } && t == fresh_tag,
        message_of(r) matches Some(
            DaemonMessage::Change(Ingest::Meta(Change::TagAdded { metadata: None, .. }), _),
        ),
        ({
            let after = after_message(
                configuration,
                runtime,
                db,
                message_of(r)->0,
                later,
                here,
            ).0;
            &&& after.tags.dom() == db.tags.dom().insert(fresh_tag)
            &&& after.tags[fresh_tag].name == name@
            &&& !is_invisible(color@) ==> after.tags[fresh_tag].color == color@
            &&& is_invisible(color@) ==> after.tags[fresh_tag].color == "#F44336"@
            &&& after.tags[fresh_tag].modified_at == now
            &&& after.files == db.files
            &&& after.entries == db.entries
        }),
{
    reveal_strlit("#F44336");
    let after = after_message(configuration, runtime, db, message_of(r)->0, later, here).0;
    assert(after.tags.dom() =~= db.tags.dom().insert(fresh_tag));
}

/// A client that renames or recolours a known tag changes just that, where the clock is past
/// the tag's last write.
pub proof fn law_a_tag_is_redefined(
    configuration: Configuration,
    runtime: RuntimeConfiguration,
    db: DatabaseView,
    request: ControlRequest,
    now: i64,
    fresh_tag: TagId,
    fresh_file: FileId,
    r: Dispatch,
    later: i64,
    here: ChangeOrigin,
    tag_id: TagId,
)
    requires
        dispatched_at(db, request, now, fresh_tag, fresh_file, r),
        match request {
            ControlRequest::RenameTag { tag_id: t, name } => t == tag_id && !is_invisible(name@),
            ControlRequest::SetTagColor { tag_id: t, color } => t == tag_id && !is_invisible(
                color@,
            ),
            _ => false,
        },
        db.tags.contains_key(tag_id),
        db.tags[tag_id].modified_at < now,
    ensures
        r matches Dispatch::Enqueue { response: ControlResponse::Done, .. },
        ({
            let after = after_message(
                configuration,
                runtime,
                db,
                message_of(r)->0,
                later,
                here,
            ).0;
            let old_tag = db.tags[tag_id];
            let new_tag = after.tags[tag_id];
            &&& after.tags.dom() == db.tags.dom()
            &&& new_tag.modified_at == now
            &&& match request {
                ControlRequest::RenameTag { name, .. } => new_tag.name == name@ && new_tag.color
                    == old_tag.color,
                ControlRequest::SetTagColor { color, .. } => new_tag.color == color@
                    && new_tag.name == old_tag.name,
                _ => true,
            }
            &&& forall|t: TagId|
                t != tag_id && db.tags.contains_key(t) ==> #[trigger] after.tags[t] == db.tags[t]
            &&& after.files == db.files
            &&& after.entries == db.entries
        }),
{
    let after = after_message(configuration, runtime, db, message_of(r)->0, later, here).0;
    assert(after.tags.dom() =~= db.tags.dom());
}

/// A tag that a client deletes is gone, and with it every relationship that it had part in.
pub proof fn law_a_deleted_tag_is_gone(
    configuration: Configuration,
    runtime: RuntimeConfiguration,
    db: DatabaseView,
    tag_id: TagId,
    now: i64,
    fresh_tag: TagId,
    fresh_file: FileId,
    r: Dispatch,
    later: i64,
    here: ChangeOrigin,
)
    requires
        dispatched_at(
            db,
            ControlRequest::DeleteTag { tag_id },
            now,
            fresh_tag,
            fresh_file,
            r,
        ),
        db.tags.contains_key(tag_id) ==> db.tags[tag_id].modified_at <= now,
    ensures
        r matches Dispatch::Enqueue { response: ControlResponse::Done, .. },
        ({
            let after = after_message(
                configuration,
                runtime,
                db,
                message_of(r)->0,
                later,
                here,
            ).0;
            &&& !after.tags.contains_key(tag_id)
            &&& forall|k: EntryKey| #[trigger]
                after.entries.contains_key(k) ==> k.tag_id != tag_id && !(k.kind == EntryType::Tag
                    && k.target == tag_id.value)
            &&& after.files == db.files
        }),
{
}

/// What a client tags carries the tag then, and what it untags does not, where the clock is
/// past the last word on it. A tag is put on a file, and a subtag under its parent, and not
/// the other way round. Nothing else changes.
pub proof fn law_what_is_tagged_carries_the_tag(
    configuration: Configuration,
    runtime: RuntimeConfiguration,
    db: DatabaseView,
    request: ControlRequest,
    now: i64,
    fresh_tag: TagId,
    fresh_file: FileId,
    r: Dispatch,
    later: i64,
    here: ChangeOrigin,
    key: EntryKey,
    other: EntryKey,
)
    requires
        dispatched_at(db, request, now, fresh_tag, fresh_file, r),
        match request {
            ControlRequest::TagFile { tag_id, file_id } => key == (EntryKey {
                tag_id,
                target: file_id.value,
                kind: EntryType::File,
            }),
            ControlRequest::UntagFile { tag_id, file_id } => key == (EntryKey {
                tag_id,
                target: file_id.value,
                kind: EntryType::File,
            }),
            ControlRequest::TagTag { parent_id, subtag_id } => parent_id != subtag_id && key
                == (EntryKey { tag_id: parent_id, target: subtag_id.value, kind: EntryType::Tag }),
            ControlRequest::UntagTag { parent_id, subtag_id } => key == (EntryKey {
                tag_id: parent_id,
                target: subtag_id.value,
                kind: EntryType::Tag,
            }),
            _ => false,
        },
        db.entries.contains_key(key) ==> db.entries[key].modified_at < now,
        other != key,
    ensures
        r matches Dispatch::Enqueue { response: ControlResponse::Done, .. },
        ({
            let after = after_message(
                configuration,
                runtime,
                db,
                message_of(r)->0,
                later,
                here,
            ).0;
            let wants_it = request is TagFile || request is TagTag;
            &&& (after.entries.contains_key(key) && !after.entries[key].deleted) == wants_it
            &&& after.entries.contains_key(key) ==> after.entries[key].modified_at == now
            &&& message_of(r) matches Some(DaemonMessage::Change(Ingest::Meta(change), _))
                && match change {
                Change::FileTagged { metadata, .. } => metadata is None && request is TagFile,
                Change::TagTagged { metadata, .. } => metadata is None && request is TagTag,
                Change::FileUntagged { .. } => request is UntagFile,
                Change::TagUntagged { .. } => request is UntagTag,
                _ => false,
            }
            &&& after.entries.contains_key(other) == db.entries.contains_key(other)
            &&& after.entries[other] == db.entries[other]
            &&& after.files == db.files
            &&& after.tags == db.tags
        }),
{
    let after = after_message(configuration, runtime, db, message_of(r)->0, later, here).0;
    assert(after.entries == db.entries || after.entries == db.entries.insert(
        key,
        EntryState { modified_at: now, deleted: !(request is TagFile || request is TagTag) },
    ));
    if db.entries.contains_key(other) {
        assert(after.entries[other] == db.entries[other]);
    }
}

/// A file that a client uploads or edits is announced as that client's: under the identifier
/// that it is answered with, with the path, the content and the tags that it gave. The
/// connection serves just that content.
pub proof fn law_an_upload_is_announced(
    db: DatabaseView,
    request: ControlRequest,
    now: i64,
    fresh_tag: TagId,
    fresh_file: FileId,
    r: Dispatch,
)
    requires
        dispatched_at(db, request, now, fresh_tag, fresh_file, r),
        !is_refused(r),
    ensures
        request matches ControlRequest::UploadFile { path_name, content_hash, size, tags } ==> {
            &&& r matches Dispatch::Provide {
                message: DaemonMessage::AnnounceProvided {
                    file_id,
                    logical_path: Some(path),
                    content_hash: announced,
                    size: length,
                    tags: carried,
                },
                file_id: served,
                content_hash: serves,
                response: ControlResponse::FileId(answered),
            }
            &&& file_id == fresh_file && served == fresh_file && answered == fresh_file
            &&& path@ == path_name@
            &&& announced@ == content_hash@ && serves@ == content_hash@
            &&& length == size
            &&& carried@ == tags@
        },
        request matches ControlRequest::EditFile { file_id, content_hash, size } ==> {
            &&& r matches Dispatch::Provide {
                message: DaemonMessage::AnnounceProvided {
                    file_id: edited,
                    logical_path: None,
                    content_hash: announced,
                    size: length,
                    tags,
                },
                file_id: served,
                content_hash: serves,
                response: ControlResponse::Done,
            }
            &&& edited == file_id && served == file_id
            &&& announced@ == content_hash@ && serves@ == content_hash@
            &&& length == size
            &&& tags@.len() == 0
        },
{
}

/// A client that deletes or moves a file has every sync directory follow, its own device's
/// included: the message comes from none of them.
pub proof fn law_a_file_is_deleted_or_moved(
    db: DatabaseView,
    request: ControlRequest,
    now: i64,
    fresh_tag: TagId,
    fresh_file: FileId,
    r: Dispatch,
)
    requires
        dispatched_at(db, request, now, fresh_tag, fresh_file, r),
        !is_refused(r),
    ensures
        request matches ControlRequest::DeleteFile { file_id } ==> {
            &&& r matches Dispatch::Enqueue {
                message: DaemonMessage::Change(
                    Ingest::Meta(Change::FileDeleted { file_id: f, deleted_at }),
                    ChangeOrigin::Local { directory_path },
                ),
                response: ControlResponse::Done,
            }
            &&& f == file_id && deleted_at == now && directory_path@.len() == 0
        },
        request matches ControlRequest::MoveFile { file_id, logical_path } ==> {
            &&& r matches Dispatch::Enqueue {
                message: DaemonMessage::Change(
                    Ingest::Meta(Change::FileMoved { file_id: f, logical_path: path }),
                    ChangeOrigin::Local { directory_path },
                ),
                response: ControlResponse::Done,
            }
            &&& f == file_id && path@ == logical_path@ && directory_path@.len() == 0
        },
{
}

/// A known file and a known tag are shown as they are on record, and an unknown one is
/// reported as such.
pub proof fn law_rows_are_shown_as_they_are(
    db: DatabaseView,
    request: ControlRequest,
    now: i64,
    fresh_tag: TagId,
    fresh_file: FileId,
    r: Dispatch,
)
    requires
        dispatched_at(db, request, now, fresh_tag, fresh_file, r),
    ensures
        request matches ControlRequest::GetFile { file_id } ==> match r {
            Dispatch::Answer(ControlResponse::File(info)) => {
                &&& db.files.contains_key(file_id) && db.versions.contains_key(file_id)
                &&& info.file_id == file_id
                &&& info.logical_path@ == db.files[file_id]
                &&& info.content_hash@ == db.versions[file_id].last().content_hash
                &&& info.version_number == db.versions[file_id].last().version_number
            },
            Dispatch::Answer(ControlResponse::Error(error)) => error == ApiError::NotFound && !(
            db.files.contains_key(file_id) && db.versions.contains_key(file_id)),
            _ => false,
        },
        request matches ControlRequest::GetTag { tag_id } ==> match r {
            Dispatch::Answer(ControlResponse::Tag(tag)) => {
                &&& db.tags.contains_key(tag_id)
                &&& tag.id == tag_id
                &&& tag.name@ == db.tags[tag_id].name
                &&& tag.color@ == db.tags[tag_id].color
            },
            Dispatch::Answer(ControlResponse::Error(error)) => error == ApiError::NotFound
                && !db.tags.contains_key(tag_id),
            _ => false,
        },
{
}

/// The tags of a file, of a tag and under a tag are answered in ascending order: those that
/// stand on the file, the tag's parents and its subtags, with all that these lead to where
/// the rule includes it.
pub proof fn law_tags_are_listed(
    db: DatabaseView,
    request: ControlRequest,
    now: i64,
    fresh_tag: TagId,
    fresh_file: FileId,
    r: Dispatch,
    tag_id: TagId,
)
    requires
        dispatched_at(db, request, now, fresh_tag, fresh_file, r),
        request is TagsForFile || request is TagsForTag || request is SubtagsForTag,
    ensures
        ({
            &&& r matches Dispatch::Answer(ControlResponse::TagIds(list))
            &&& forall|i: int, j: int|
                0 <= i < j < list@.len() ==> (#[trigger] list@[i]).value < (
                #[trigger] list@[j]).value
            &&& list@.contains(tag_id) == match request {
                ControlRequest::TagsForFile { file_id, subtag_rule } => stands_on(
                    db,
                    tag_id,
                    file_id,
                ) || subtag_rule is Include && exists|direct: TagId| #[trigger]
                    stands_on(db, direct, file_id) && reaches(db, true, direct, tag_id),
                ControlRequest::TagsForTag { tag_id: child, subtag_rule } => {
                    if subtag_rule is Include {
                        reaches(db, true, child, tag_id)
                    } else {
                        is_parent(db, tag_id, child)
                    }
                },
                ControlRequest::SubtagsForTag { tag_id: parent, subtag_rule } => {
                    if subtag_rule is Include {
                        reaches(db, false, parent, tag_id)
                    } else {
                        is_parent(db, parent, tag_id)
                    }
                },
                _ => false,
            }
        }),
{
    match request {
        ControlRequest::TagsForFile { file_id, subtag_rule: SubtagRule::Include } => {
            if exists|direct: TagId| #[trigger]
                stands_on(db, direct, file_id) && reaches(db, true, direct, tag_id) {
                let direct = choose|direct: TagId| #[trigger]
                    stands_on(db, direct, file_id) && reaches(db, true, direct, tag_id);
                assert(db.live(file_key(direct, file_id)));
            }
            if exists|direct: TagId| #[trigger]
                db.live(file_key(direct, file_id)) && reaches(db, true, direct, tag_id) {
                let direct = choose|direct: TagId| #[trigger]
                    db.live(file_key(direct, file_id)) && reaches(db, true, direct, tag_id);
                assert(stands_on(db, direct, file_id));
            }
        },
        _ => {},
    }
}

/// The files and tags that a query answers with are those that it selects, and all of them.
pub proof fn law_a_query_is_answered(
    db: DatabaseView,
    query: String,
    subtag_rule: SubtagRule,
    now: i64,
    fresh_tag: TagId,
    fresh_file: FileId,
    r: Dispatch,
    file_id: FileId,
    tag_id: TagId,
)
    requires
        dispatched_at(
            db,
            ControlRequest::RunQuery { query, subtag_rule },
            now,
            fresh_tag,
            fresh_file,
            r,
        ),
    ensures
        r matches Dispatch::Answer(ControlResponse::QueryResult(result)) && ((exists|i: int|
            0 <= i < result.files@.len() && (#[trigger] result.files@[i]).file_id == file_id) == (
        db.files.contains_key(file_id) && db.versions.contains_key(file_id) && query_selects_file(
            db,
            subtag_rule,
            query@,
            file_id,
        ))) && ((exists|i: int|
            0 <= i < result.tags@.len() && (#[trigger] result.tags@[i]).id == tag_id)
            == query_selects_tag(db, subtag_rule, query@, tag_id)),
{
}

/// What is typed for a file or a tag is answered with the only one that it fits, and refused
/// where it fits none or several.
pub proof fn law_a_typed_id_is_resolved(
    db: DatabaseView,
    request: ControlRequest,
    now: i64,
    fresh_tag: TagId,
    fresh_file: FileId,
    r: Dispatch,
    other: u128,
)
    requires
        dispatched_at(db, request, now, fresh_tag, fresh_file, r),
    ensures
        request is ResolveFileId ==> match r {
            Dispatch::Answer(ControlResponse::FileId(f)) => {
                let typed = normalised(request->ResolveFileId_prefix@);
                &&& typed is Some && typed->0.is_prefix_of(id_text(f.value))
                &&& db.files.contains_key(f)
                &&& db.files.contains_key(FileId { value: other }) && typed->0.is_prefix_of(
                    id_text(other),
                ) ==> other == f.value
            },
            Dispatch::Answer(ControlResponse::Error(error)) => {
                let typed = normalised(request->ResolveFileId_prefix@);
                &&& error is NotFound || error is Ambiguous
                &&& error is NotFound && typed is Some && db.files.contains_key(
                    FileId { value: other },
                ) ==> !typed->0.is_prefix_of(id_text(other))
                &&& error is Ambiguous ==> typed is Some && exists|a: FileId, b: FileId|
                    #![trigger db.files.contains_key(a), db.files.contains_key(b)]
                    a != b && db.files.contains_key(a) && db.files.contains_key(b)
                        && typed->0.is_prefix_of(id_text(a.value)) && typed->0.is_prefix_of(
                        id_text(b.value),
                    )
            },
            _ => false,
        },
        request is ResolveTagId ==> match r {
            Dispatch::Answer(ControlResponse::TagId(t)) => {
                let typed = normalised(request->ResolveTagId_prefix@);
                &&& typed is Some && typed->0.is_prefix_of(id_text(t.value))
                &&& db.tags.contains_key(t)
                &&& db.tags.contains_key(TagId { value: other }) && typed->0.is_prefix_of(
                    id_text(other),
                ) ==> other == t.value
            },
            Dispatch::Answer(ControlResponse::Error(error)) => {
                let typed = normalised(request->ResolveTagId_prefix@);
                &&& error is NotFound || error is Ambiguous
                &&& error is NotFound && typed is Some && db.tags.contains_key(
                    TagId { value: other },
                ) ==> !typed->0.is_prefix_of(id_text(other))
                &&& error is Ambiguous ==> typed is Some && exists|a: TagId, b: TagId|
                    #![trigger db.tags.contains_key(a), db.tags.contains_key(b)]
                    a != b && db.tags.contains_key(a) && db.tags.contains_key(b)
                        && typed->0.is_prefix_of(id_text(a.value)) && typed->0.is_prefix_of(
                        id_text(b.value),
                    )
            },
            _ => false,
        },
{
    assert((known_files(db))(other) == db.files.contains_key(FileId { value: other }));
    assert((known_tags(db))(other) == db.tags.contains_key(TagId { value: other }));
    match (request, r) {
        (
            ControlRequest::ResolveFileId { prefix },
            Dispatch::Answer(ControlResponse::Error(ApiError::Ambiguous(_))),
        ) => {
            let known = known_files(db);
            let digits = normalised(prefix@)->0;
            assert(stands_for_several(known, digits));
            let (a, b) = choose|a: u128, b: u128|
                #![trigger known(a), known(b)]
                known(a) && known(b) && a != b && fits(a, digits) && fits(b, digits);
            assert(db.files.contains_key(FileId { value: a }));
            assert(db.files.contains_key(FileId { value: b }));
        },
        (
            ControlRequest::ResolveTagId { prefix },
            Dispatch::Answer(ControlResponse::Error(ApiError::Ambiguous(_))),
        ) => {
            let known = known_tags(db);
            let digits = normalised(prefix@)->0;
            assert(stands_for_several(known, digits));
            let (a, b) = choose|a: u128, b: u128|
                #![trigger known(a), known(b)]
                known(a) && known(b) && a != b && fits(a, digits) && fits(b, digits);
            assert(db.tags.contains_key(TagId { value: a }));
            assert(db.tags.contains_key(TagId { value: b }));
        },
        _ => {},
    }
    match r {
        Dispatch::Answer(ControlResponse::FileId(f)) => {
            assert(FileId { value: f.value } == f);
            assert((known_files(db))(other) == db.files.contains_key(
                FileId { value: other },
            ));
        },
        Dispatch::Answer(ControlResponse::TagId(t)) => {
            assert(TagId { value: t.value } == t);
            assert((known_tags(db))(other) == db.tags.contains_key(
                TagId { value: other },
            ));
        },
        _ => {},
    }
}

/// A fetch and the question where a file lies are passed on as they are; a subscription opens
/// with the word to fetch the current state.
pub proof fn law_other_calls_are_passed_on(
    db: DatabaseView,
    request: ControlRequest,
    now: i64,
    fresh_tag: TagId,
    fresh_file: FileId,
    r: Dispatch,
)
    requires
        dispatched_at(db, request, now, fresh_tag, fresh_file, r),
    ensures
        request matches ControlRequest::FetchFile { file_id, expected_hash } ==> (r
            matches Dispatch::Fetch { file_id: f, expected_hash: h } && f == file_id && h@
            == expected_hash@),
        request matches ControlRequest::LocalPathForFile { file_id } ==> (r
            matches Dispatch::LocalPath { file_id: f } && f == file_id),
        request is Subscribe ==> (r matches Dispatch::Subscribe {
            response: ControlResponse::Subscribed,
            first: ApiEvent::Resynced,
        }),
{
}

/// A call reaches the daemon as it was made, and its answer whoever made it: once, and
/// whatever else is called in between.
pub proof fn law_a_call_is_answered_to_its_caller(
    client: ClientView,
    waiting: ClientView,
    meanwhile: ClientView,
    end: ClientView,
    connection: ConnectionView,
    connection_after: ConnectionView,
    request: ControlRequest,
    waiter: u64,
    frame: ControlFrame,
    received: ConnectionStep,
    response: ControlResponse,
    delivered: ClientStep,
)
    requires
        call_made(client, waiting, request, waiter, Some(frame)),
        client_heard(connection, connection_after, frame, received),
        received is Dispatch,
        meanwhile.calls.waiters.contains_key(client.calls.next),
        meanwhile.calls.waiters[client.calls.next] == waiting.calls.waiters[client.calls.next],
        daemon_heard(
            meanwhile,
            end,
            ControlFrame::Response { id: received->Dispatch_id, response },
            delivered,
        ),
    ensures
        received->request == request,
        connection_after == connection,
        delivered == (ClientStep::Deliver { waiter, response }),
        !end.calls.waiters.contains_key(received->Dispatch_id),
        end.provider_path == meanwhile.provider_path,
{
}

/// A chunk that somebody waits for is asked of the client at just that offset, read by the
/// client from the file that it provides, and handed to whoever waits: the bytes that were
/// read, as the last ones just where they reach the end of the file.
pub proof fn law_a_provided_chunk_reaches_its_reader(
    connection: ConnectionView,
    asking: ConnectionView,
    end: ConnectionView,
    client: ClientView,
    client_after: ClientView,
    offset: u64,
    waiter: u64,
    asked: ControlFrame,
    reading: ClientStep,
    bytes: Vec<u8>,
    total: u64,
    reply: ControlFrame,
    delivered: ConnectionStep,
)
    requires
        chunk_wanted(connection, asking, offset, waiter, Some(asked)),
        client.provider_path is Some,
        daemon_heard(client, client_after, asked, reading),
        reading is ReadChunk,
        is_chunk_reply(
            reply,
            reading->ReadChunk_chunk_id,
            reading->ReadChunk_offset,
            Some((bytes, total)),
        ),
        client_heard(asking, end, reply, delivered),
    ensures
        reading->path@ == client.provider_path->0,
        reading->ReadChunk_offset == offset,
        client_after == client,
        delivered == (ConnectionStep::Deliver {
            waiter,
            bytes,
            last: offset + bytes@.len() >= total,
        }),
        !end.chunks.waiters.contains_key(connection.chunks.next),
        end.active_provider == connection.active_provider,
{
}

/// A client that provides no file ends a read at once, with no bytes.
pub proof fn law_a_client_without_a_file_ends_a_read(
    connection: ConnectionView,
    asking: ConnectionView,
    end: ConnectionView,
    client: ClientView,
    client_after: ClientView,
    offset: u64,
    waiter: u64,
    asked: ControlFrame,
    answer: ClientStep,
    delivered: ConnectionStep,
)
    requires
        chunk_wanted(connection, asking, offset, waiter, Some(asked)),
        client.provider_path is None,
        daemon_heard(client, client_after, asked, answer),
        answer is Send ==> client_heard(asking, end, answer->Send_0, delivered),
    ensures
        answer is Send,
        delivered matches ConnectionStep::Deliver { waiter: w, bytes, last } && w == waiter
            && bytes@.len() == 0 && last,
{
}

/// Answers that nobody waits for are ignored, by either side, and so is what the other side
/// has no business to send. An event goes to the subscribers as it is.
pub proof fn law_unasked_answers_are_ignored(
    connection: ConnectionView,
    connection_after: ConnectionView,
    client: ClientView,
    client_after: ClientView,
    frame: ControlFrame,
    received: ConnectionStep,
    delivered: ClientStep,
)
    requires
        client_heard(connection, connection_after, frame, received),
        daemon_heard(client, client_after, frame, delivered),
    ensures
        received is Ignore <==> match frame {
            ControlFrame::Request { .. } => false,
            ControlFrame::ProviderChunkReply { chunk_id, .. } =>
                !connection.chunks.waiters.contains_key(chunk_id),
            _ => true,
        },
        delivered is Ignore <==> match frame {
            ControlFrame::Response { id, .. } => !client.calls.waiters.contains_key(id),
            ControlFrame::Event(_) => false,
            ControlFrame::ProviderChunkRequest { .. } => false,
            _ => true,
        },
        frame matches ControlFrame::Event(event) ==> delivered == ClientStep::Publish(event),
        received is Ignore ==> connection_after =~= connection,
        delivered is Ignore ==> client_after =~= client,
        !(frame is Response) ==> client_after == client,
        !(frame is ProviderChunkReply) ==> connection_after == connection,
{
    assert(received is Ignore ==> connection_after.chunks.waiters =~= connection.chunks.waiters);
    assert(delivered is Ignore ==> client_after.calls.waiters =~= client.calls.waiters);
}

/// An error that the daemon answers with is the error of the call.
pub proof fn law_an_error_is_handed_on(
    error: ApiError,
    shown: Seq<char>,
    reported: ApiError,
    other: ControlResponse,
    mismatch: ApiError,
)
    requires
        is_unexpected(ControlResponse::Error(error), shown, reported),
        is_unexpected(other, shown, mismatch),
        !(other is Error),
    ensures
        reported == error,
        mismatch matches ApiError::Transport(text) && text@.len() >= shown.len() && text@.skip(
            text@.len() - shown.len(),
        ) == shown,
{
    match mismatch {
        ApiError::Transport(text) => {
            assert(text@.skip(text@.len() - shown.len()) =~= shown);
        },
        _ => {},
    }
}

} // verus!
