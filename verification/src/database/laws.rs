//! Laws of the database that relate several operations.

use vstd::prelude::*;
use super::manifests::{
    announces, is_manifest, is_manifest_row, is_relationship_manifest, is_tag_manifest,
    ManifestRow,
};
use super::{mentions, DatabaseView, EntryKey, EntryState, EntryType, TagView};
use crate::ids::{id_text, FileId, TagId};
use crate::state::{RelationshipManifestEntry, TagManifestEntry};
use crate::versions::{consecutive, MAX_VERSIONS};

verus! {

/// Definitions of tags can arrive in any order: two that differ in their stamp, or
/// speak of different tags, leave the same database whichever comes first.
pub proof fn law_tag_definitions_commute(
    db: DatabaseView,
    a: TagId,
    x: TagView,
    b: TagId,
    y: TagView,
)
    requires
        a != b || x.modified_at != y.modified_at || x == y,
    ensures
        db.with_tag(a, x).with_tag(b, y) == db.with_tag(b, y).with_tag(a, x),
{
    assert(db.with_tag(a, x).with_tag(b, y) =~= db.with_tag(b, y).with_tag(a, x)) by {
        assert(db.with_tag(a, x).with_tag(b, y).tags =~= db.with_tag(b, y).with_tag(a, x).tags);
    }
}

/// A definition that arrives twice changes nothing the second time, nor does one that
/// is not newer than the stored one.
pub proof fn law_stale_tag_definition_is_ignored(
    db: DatabaseView,
    tag_id: TagId,
    x: TagView,
    y: TagView,
)
    requires
        y.modified_at <= x.modified_at,
    ensures
        db.with_tag(tag_id, x).with_tag(tag_id, y) == db.with_tag(tag_id, x),
{
}

/// States of relationships can arrive in any order: two that differ in their stamp,
/// or speak of different relationships, leave the same database whichever comes
/// first.
pub proof fn law_relationships_commute(
    db: DatabaseView,
    a: EntryKey,
    x: EntryState,
    b: EntryKey,
    y: EntryState,
)
    requires
        a != b || x.modified_at != y.modified_at || x == y,
    ensures
        db.with_entry(a, x).with_entry(b, y) == db.with_entry(b, y).with_entry(a, x),
{
    assert(db.with_entry(a, x).with_entry(b, y).entries =~= db.with_entry(b, y).with_entry(
        a,
        x,
    ).entries);
}

/// A state that is not newer than one that arrived before changes nothing: a stale
/// presence does not bring an untagged relationship back.
pub proof fn law_stale_relationship_is_ignored(
    db: DatabaseView,
    key: EntryKey,
    x: EntryState,
    y: EntryState,
)
    requires
        y.modified_at <= x.modified_at,
    ensures
        db.with_entry(key, x).with_entry(key, y) == db.with_entry(key, x),
{
}

/// Untagging leaves a tombstone: the relationship no longer holds, and its row stays
/// with the stamp of the untagging.
pub proof fn law_untagging_leaves_a_tombstone(db: DatabaseView, key: EntryKey, modified_at: i64)
    requires
        db.entries.contains_key(key),
        db.entries[key].modified_at < modified_at,
    ensures
        !db.without_entry(key, modified_at).live(key),
        db.without_entry(key, modified_at).entries.dom() == db.entries.dom(),
        db.without_entry(key, modified_at).entries[key] == (EntryState {
            modified_at,
            deleted: true,
        }),
{
    assert(db.without_entry(key, modified_at).entries.dom() =~= db.entries.dom());
}

/// An untagging that is not newer than the relationship does not undo it.
pub proof fn law_stale_untagging_is_ignored(
    db: DatabaseView,
    key: EntryKey,
    tagged_at: i64,
    untagged_at: i64,
)
    requires
        untagged_at <= tagged_at,
        !db.entries.contains_key(key) || db.entries[key].modified_at < tagged_at,
    ensures
        db.with_entry(key, EntryState { modified_at: tagged_at, deleted: false }).without_entry(
            key,
            untagged_at,
        ).live(key),
{
}

/// Tagging again after an untagging revives the one row of the relationship.
pub proof fn law_retagging_revives_the_row(
    db: DatabaseView,
    key: EntryKey,
    untagged_at: i64,
    tagged_at: i64,
)
    requires
        db.entries.contains_key(key),
        db.entries[key].modified_at < untagged_at < tagged_at,
    ensures
        ({
            let after = db.without_entry(key, untagged_at).with_entry(
                key,
                EntryState { modified_at: tagged_at, deleted: false },
            );
            after.live(key) && after.entries.dom() == db.entries.dom()
        }),
{
    let after = db.without_entry(key, untagged_at).with_entry(
        key,
        EntryState { modified_at: tagged_at, deleted: false },
    );
    assert(after.entries.dom() =~= db.entries.dom());
}

/// The database after the states of several relationships arrived in turn.
pub open spec fn with_entries(db: DatabaseView, rows: Seq<(EntryKey, EntryState)>) -> DatabaseView
    decreases rows.len(),
{
    if rows.len() == 0 {
        db
    } else {
        with_entries(db, rows.drop_last()).with_entry(rows.last().0, rows.last().1)
    }
}

/// Two sets of relationships merged: of each relationship the newer state, and of
/// equally new ones that of `ours`.
pub open spec fn newest(
    ours: Map<EntryKey, EntryState>,
    theirs: Map<EntryKey, EntryState>,
) -> Map<EntryKey, EntryState> {
    Map::new(
        |k: EntryKey| ours.contains_key(k) || theirs.contains_key(k),
        |k: EntryKey|
            if ours.contains_key(k) && (!theirs.contains_key(k) || theirs[k].modified_at
                <= ours[k].modified_at) {
                ours[k]
            } else {
                theirs[k]
            },
    )
}

/// Whether rows spell the relationships of a map, each once.
pub open spec fn spells_entries(
    rows: Seq<(EntryKey, EntryState)>,
    entries: Map<EntryKey, EntryState>,
) -> bool {
    &&& forall|i: int, j: int|
        0 <= i < j < rows.len() ==> (#[trigger] rows[i]).0 != (#[trigger] rows[j]).0
    &&& forall|i: int|
        0 <= i < rows.len() ==> entries.contains_key((#[trigger] rows[i]).0)
            && entries[rows[i].0] == rows[i].1
    &&& forall|k: EntryKey| #[trigger]
        entries.contains_key(k) ==> exists|i: int|
            0 <= i < rows.len() && (#[trigger] rows[i]).0 == k
}

/// A manifest can be applied in any order: taking over every relationship of a peer,
/// in whatever order they come, leaves of each the newer state.
pub proof fn law_manifest_keeps_the_newest(
    db: DatabaseView,
    rows: Seq<(EntryKey, EntryState)>,
    theirs: Map<EntryKey, EntryState>,
)
    requires
        spells_entries(rows, theirs),
    ensures
        with_entries(db, rows) == (DatabaseView { entries: newest(db.entries, theirs), ..db }),
    decreases rows.len(),
{
    if rows.len() == 0 {
        assert(newest(db.entries, theirs) =~= db.entries);
    } else {
        let last = rows.last();
        let init = rows.drop_last();
        let fewer = theirs.remove(last.0);
        assert forall|k: EntryKey| #[trigger] fewer.contains_key(k) implies exists|i: int|
            0 <= i < init.len() && (#[trigger] init[i]).0 == k by {
            let i = choose|i: int| 0 <= i < rows.len() && (#[trigger] rows[i]).0 == k;
            assert(init[i].0 == k);
        }
        assert(spells_entries(init, fewer)) by {
            assert forall|i: int| 0 <= i < init.len() implies fewer.contains_key(
                (#[trigger] init[i]).0,
            ) && fewer[init[i].0] == init[i].1 by {
                assert(init[i] == rows[i]);
                assert(rows[i].0 != rows[rows.len() - 1].0);
            }
        }
        law_manifest_keeps_the_newest(db, init, fewer);
        let before = with_entries(db, init);
        let after = before.with_entry(last.0, last.1);
        assert(rows[rows.len() - 1] == last);
        assert(theirs.contains_key(last.0) && theirs[last.0] == last.1);
        assert(after.entries =~= newest(db.entries, theirs));
    }
}

/// Two devices that take over each other's relationships agree afterwards, provided
/// that states with the same stamp are the same.
pub proof fn law_merging_is_symmetric(
    ours: Map<EntryKey, EntryState>,
    theirs: Map<EntryKey, EntryState>,
)
    requires
        forall|k: EntryKey| #[trigger]
            ours.contains_key(k) && theirs.contains_key(k) && ours[k].modified_at
                == theirs[k].modified_at ==> ours[k] == theirs[k],
    ensures
        newest(ours, theirs) == newest(theirs, ours),
{
    assert(newest(ours, theirs) =~= newest(theirs, ours));
}

/// Removing a tag leaves no relationship that mentions it and every other as it was.
pub proof fn law_removing_a_tag_clears_its_relationships(db: DatabaseView, tag_id: TagId)
    ensures
        !db.without_tag(tag_id).tags.contains_key(tag_id),
        forall|k: EntryKey| #[trigger]
            db.without_tag(tag_id).entries.contains_key(k) <==> db.entries.contains_key(k)
                && !mentions(k, tag_id),
        forall|k: EntryKey| #[trigger]
            db.without_tag(tag_id).entries.contains_key(k) ==> db.without_tag(tag_id).entries[k]
                == db.entries[k],
        db.without_tag(tag_id).files == db.files,
        db.without_tag(tag_id).versions == db.versions,
{
}

/// Recording a version never rewrites history: the earlier versions stay, and the new
/// one is the latest even where its content is that of an earlier version.
pub proof fn law_versions_are_append_only(
    db: DatabaseView,
    file_id: FileId,
    content_hash: Seq<char>,
    observed_at: i64,
    origin: Seq<char>,
)
    ensures
        ({
            let after = db.with_version(file_id, content_hash, observed_at, origin);
            &&& db.history(file_id).is_prefix_of(after.history(file_id))
            &&& after.history(file_id).len() == db.history(file_id).len() + 1
            &&& after.history(file_id).last().content_hash == content_hash
            &&& forall|other: FileId|
                other != file_id ==> #[trigger] after.history(other) == db.history(other)
        }),
{
    let after = db.with_version(file_id, content_hash, observed_at, origin);
    let old_history = db.history(file_id);
    assert(after.history(file_id).subrange(0, old_history.len() as int) =~= old_history);
}

/// A recorded version is numbered one higher than the latest before it, or 1, and is the
/// latest from then on, as it was given. The history of the file is the former one and
/// that version; those of the other files stay.
pub proof fn law_a_recorded_version_comes_last(
    db: DatabaseView,
    file_id: FileId,
    content_hash: Seq<char>,
    observed_at: i64,
    origin: Seq<char>,
)
    requires
        consecutive(file_id, db.history(file_id)),
        db.history(file_id).len() < MAX_VERSIONS,
    ensures
        ({
            let before = db.history(file_id);
            let after = db.with_version(file_id, content_hash, observed_at, origin);
            let added = after.history(file_id).last();
            &&& after.history(file_id) == before.push(added)
            &&& added.version_number == (if before.len() == 0 {
                1
            } else {
                before.last().version_number + 1
            })
            &&& added.content_hash == content_hash
            &&& added.observed_at == observed_at
            &&& added.origin == origin
            &&& consecutive(file_id, after.history(file_id))
            &&& forall|other: FileId|
                other != file_id ==> #[trigger] after.history(other) == db.history(other)
        }),
{
    let before = db.history(file_id);
    let after = db.with_version(file_id, content_hash, observed_at, origin).history(file_id);
    assert(after == before.push(after.last()));
    assert forall|i: int| 0 <= i < after.len() implies (#[trigger] after[i]).version_number == i + 1
        && after[i].file_id == file_id by {
        if i < before.len() {
            assert(after[i] == before[i]);
        }
    }
}

/// A manifest announces each known file that has a version, once: with its path, every
/// version in order, and the time of the latest.
pub proof fn law_a_manifest_says_what_is_on_record(
    db: DatabaseView,
    rows: Seq<ManifestRow>,
    file_id: FileId,
    i: int,
    k: int,
)
    requires
        is_manifest(db, rows),
    ensures
        (exists|j: int| 0 <= j < rows.len() && (#[trigger] rows[j]).0 == file_id)
            <==> db.files.contains_key(file_id) && db.versions.contains_key(file_id),
        forall|a: int, b: int|
            0 <= a < rows.len() && 0 <= b < rows.len() && (#[trigger] rows[a]).0 == (
            #[trigger] rows[b]).0 ==> a == b,
        0 <= i < rows.len() ==> {
            let history = db.versions[rows[i].0];
            &&& rows[i].3@ == db.files[rows[i].0]
            &&& rows[i].2 == history[history.len() - 1].observed_at
            &&& rows[i].1@.len() == history.len()
            &&& 0 <= k < history.len() ==> rows[i].1@[k].0 == history[k].version_number
                && rows[i].1@[k].1@ == history[k].content_hash
        },
{
    assert(db.listed(file_id) <==> exists|j: int|
        0 <= j < rows.len() && (#[trigger] rows[j]).0 == file_id);
    assert forall|a: int, b: int|
        0 <= a < rows.len() && 0 <= b < rows.len() && (#[trigger] rows[a]).0 == (
        #[trigger] rows[b]).0 implies a == b by {
        if a < b {
            assert(rows[a].0.value < rows[b].0.value);
        }
        if b < a {
            assert(rows[b].0.value < rows[a].0.value);
        }
    }
    if 0 <= i < rows.len() {
        assert(is_manifest_row(db, rows[i]));
    }
}

/// A tag manifest announces the stamp of each known tag, and a relationship manifest the state
/// of each relationship ever seen, those that were taken back among them.
pub proof fn law_tag_manifests_say_what_is_on_record(
    db: DatabaseView,
    entries: Seq<TagManifestEntry>,
    keys: Seq<EntryKey>,
    relationships: Seq<RelationshipManifestEntry>,
    tag_id: TagId,
    key: EntryKey,
)
    requires
        is_tag_manifest(db, entries),
        is_relationship_manifest(db, keys, relationships),
    ensures
        db.tags.contains_key(tag_id) <==> exists|i: int|
            0 <= i < entries.len() && (#[trigger] entries[i]).tag_id == tag_id,
        db.tags.contains_key(tag_id) ==> exists|i: int|
            0 <= i < entries.len() && (#[trigger] entries[i]).tag_id == tag_id
                && entries[i].modified_at == db.tags[tag_id].modified_at,
        db.entries.contains_key(key) ==> exists|i: int|
            0 <= i < relationships.len() && {
                let entry = #[trigger] relationships[i];
                &&& entry.tag_id == key.tag_id
                &&& entry.target_id@ == id_text(key.target)
                &&& entry.kind is File <==> key.kind == EntryType::File
                &&& entry.modified_at == db.entries[key].modified_at
                &&& entry.deleted == db.entries[key].deleted
            },
        forall|i: int|
            0 <= i < relationships.len() ==> exists|k: EntryKey| #[trigger]
                db.entries.contains_key(k) && (#[trigger] relationships[i]).tag_id == k.tag_id
                    && relationships[i].target_id@ == id_text(k.target),
{
    if db.tags.contains_key(tag_id) {
        let i = choose|i: int| 0 <= i < entries.len() && (#[trigger] entries[i]).tag_id == tag_id;
        assert(entries[i].modified_at == db.tags[tag_id].modified_at);
    }
    if db.entries.contains_key(key) {
        assert(keys.contains(key));
        let i = choose|i: int| 0 <= i < keys.len() && keys[i] == key;
        assert(announces(db, keys[i], relationships[i]));
        let entry = relationships[i];
        assert(entry.tag_id == key.tag_id);
    }
    assert forall|i: int| 0 <= i < relationships.len() implies exists|k: EntryKey| #[trigger]
        db.entries.contains_key(k) && (#[trigger] relationships[i]).tag_id == k.tag_id
            && relationships[i].target_id@ == id_text(k.target) by {
        assert(announces(db, keys[i], relationships[i]));
        assert(db.entries.contains_key(keys[i]));
    }
}

} // verus!
