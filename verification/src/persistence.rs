//! Which rows of the database a message may change, and so have to be stored.

use vstd::prelude::*;
use crate::bus::{ContentChange, DaemonMessage, Ingest};
use crate::configuration::{Configuration, RuntimeConfiguration};
use crate::database::{mentions, DatabaseView, EntryKey};
use crate::ids::{FileId, TagId};
use crate::pipeline::after_message;
use crate::state::{Change, ChangeOrigin};

verus! {

/// The files and tags whose rows a message may change. The relationships that mention such
/// a tag go with it.
#[derive(Debug)]
pub struct Touched {
    pub files: Vec<FileId>,
    pub tags: Vec<TagId>,
}

/// The file whose rows a change without bytes may change.
pub open spec fn file_of_change(change: Change) -> Option<FileId> {
    match change {
        Change::FileMetadataAdded { file_id, .. } => Some(file_id),
        Change::FileMoved { file_id, .. } => Some(file_id),
        Change::FileDeleted { file_id, .. } => Some(file_id),
        _ => None,
    }
}

/// The tag whose rows a change without bytes may change.
pub open spec fn tag_of_change(change: Change) -> Option<TagId> {
    match change {
        Change::TagAdded { tag_id, .. } => Some(tag_id),
        Change::TagRenamed { tag_id, .. } => Some(tag_id),
        Change::TagRecolored { tag_id, .. } => Some(tag_id),
        Change::TagRemoved { tag_id, .. } => Some(tag_id),
        Change::FileTagged { tag_id, .. } => Some(tag_id),
        Change::FileUntagged { tag_id, .. } => Some(tag_id),
        Change::TagTagged { tag_id, .. } => Some(tag_id),
        Change::TagUntagged { tag_id, .. } => Some(tag_id),
        _ => None,
    }
}

/// The file whose rows a message may change.
pub open spec fn file_touched(message: DaemonMessage) -> Option<FileId> {
    match message {
        DaemonMessage::Change(Ingest::Content(ContentChange::FileAdded { file_id, .. }), _) => Some(
            file_id,
        ),
        DaemonMessage::Change(Ingest::Content(ContentChange::FileChanged { file_id, .. }), _) =>
            Some(file_id),
        DaemonMessage::Change(Ingest::Meta(change), _) => file_of_change(change),
        DaemonMessage::Fetch { .. } => None,
        DaemonMessage::Materialize { file_id, .. } => Some(file_id),
        DaemonMessage::ReconcilePlacement { .. } => None,
        DaemonMessage::CatalogFile { file_id, .. } => Some(file_id),
        DaemonMessage::AnnounceProvided { file_id, .. } => Some(file_id),
    }
}

/// The tag whose rows a message may change.
pub open spec fn tag_touched(message: DaemonMessage) -> Option<TagId> {
    match message {
        DaemonMessage::Change(Ingest::Meta(change), _) => tag_of_change(change),
        _ => None,
    }
}

/// At most one value as a sequence.
pub open spec fn at_most_one<T>(value: Option<T>) -> Seq<T> {
    match value {
        Some(v) => seq![v],
        None => Seq::empty(),
    }
}

fn list_of<T>(value: Option<T>) -> (r: Vec<T>)
    ensures
        r@ == at_most_one(value),
{
    let mut out: Vec<T> = Vec::new();
    match value {
        Some(v) => {
            out.push(v);
        },
        None => {},
    }
    assert(out@ =~= at_most_one(value));
    out
}

impl Touched {
    /// What a message on the ingest bus may change.
    pub fn by_message(message: &DaemonMessage) -> (r: Self)
        ensures
            r.files@ == at_most_one(file_touched(*message)),
            r.tags@ == at_most_one(tag_touched(*message)),
    {
        let file: Option<FileId> = match message {
            DaemonMessage::Change(Ingest::Content(content), _) => match content {
                ContentChange::FileAdded { file_id, .. } => Some(*file_id),
                ContentChange::FileChanged { file_id, .. } => Some(*file_id),
            },
            DaemonMessage::Change(Ingest::Meta(change), _) => match change {
                Change::FileMetadataAdded { file_id, .. } => Some(*file_id),
                Change::FileMoved { file_id, .. } => Some(*file_id),
                Change::FileDeleted { file_id, .. } => Some(*file_id),
                _ => None,
            },
            DaemonMessage::Fetch { .. } => None,
            DaemonMessage::Materialize { file_id, .. } => Some(*file_id),
            DaemonMessage::ReconcilePlacement { .. } => None,
            DaemonMessage::CatalogFile { file_id, .. } => Some(*file_id),
            DaemonMessage::AnnounceProvided { file_id, .. } => Some(*file_id),
        };
        let tag: Option<TagId> = match message {
            DaemonMessage::Change(Ingest::Meta(change), _) => match change {
                Change::TagAdded { tag_id, .. } => Some(*tag_id),
                Change::TagRenamed { tag_id, .. } => Some(*tag_id),
                Change::TagRecolored { tag_id, .. } => Some(*tag_id),
                Change::TagRemoved { tag_id, .. } => Some(*tag_id),
                Change::FileTagged { tag_id, .. } => Some(*tag_id),
                Change::FileUntagged { tag_id, .. } => Some(*tag_id),
                Change::TagTagged { tag_id, .. } => Some(*tag_id),
                Change::TagUntagged { tag_id, .. } => Some(*tag_id),
                _ => None,
            },
            _ => None,
        };
        Touched { files: list_of(file), tags: list_of(tag) }
    }
}

/// Whether a relationship mentions the tag that a message may change.
pub open spec fn entry_touched(message: DaemonMessage, key: EntryKey) -> bool {
    tag_touched(message) matches Some(tag_id) && mentions(key, tag_id)
}

/// Nothing that a message changes goes unstored: the rows of every file, tag and
/// relationship that it does not touch stay as they were.
pub proof fn law_untouched_rows_stay(
    configuration: Configuration,
    runtime: RuntimeConfiguration,
    db: DatabaseView,
    message: DaemonMessage,
    now: i64,
    here: ChangeOrigin,
)
    ensures
        ({
            let after = after_message(configuration, runtime, db, message, now, here).0;
            &&& forall|f: FileId|
                file_touched(message) != Some(f) ==> (#[trigger] after.files.contains_key(f)
                    <==> db.files.contains_key(f))
            &&& forall|f: FileId|
                file_touched(message) != Some(f) && db.files.contains_key(f)
                    ==> #[trigger] after.files[f] == db.files[f]
            &&& forall|f: FileId|
                file_touched(message) != Some(f) ==> #[trigger] after.history(f) == db.history(f)
            &&& forall|t: TagId|
                tag_touched(message) != Some(t) ==> (#[trigger] after.tags.contains_key(t)
                    <==> db.tags.contains_key(t))
            &&& forall|t: TagId|
                tag_touched(message) != Some(t) && db.tags.contains_key(t)
                    ==> #[trigger] after.tags[t] == db.tags[t]
            &&& forall|k: EntryKey|
                !entry_touched(message, k) ==> (#[trigger] after.entries.contains_key(k)
                    <==> db.entries.contains_key(k))
            &&& forall|k: EntryKey|
                !entry_touched(message, k) && db.entries.contains_key(k)
                    ==> #[trigger] after.entries[k] == db.entries[k]
        }),
{
}

/// A message records one version of a file at most, so that storing the latest one stores
/// all.
pub proof fn law_one_version_at_a_time(
    configuration: Configuration,
    runtime: RuntimeConfiguration,
    db: DatabaseView,
    message: DaemonMessage,
    now: i64,
    here: ChangeOrigin,
    file_id: FileId,
)
    ensures
        ({
            let before = db.history(file_id);
            let after = after_message(configuration, runtime, db, message, now, here).0.history(
                file_id,
            );
            after == before || after.len() == before.len() + 1 && after.drop_last() == before
        }),
{
    let before = db.history(file_id);
    let after = after_message(configuration, runtime, db, message, now, here).0.history(file_id);
    if after != before {
        assert(after.drop_last() =~= before);
    }
}

} // verus!
