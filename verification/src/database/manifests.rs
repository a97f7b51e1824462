//! What the database announces to a peer that connects.

use vstd::prelude::*;
use super::{DatabaseError, DatabaseView, EntryKey, EntryType, FileDatabase, VersionHistory};
use crate::ids::{id_text, text_of_id, FileId, TagId};
use crate::state::{LogicalPath, RelationshipKind, RelationshipManifestEntry, TagManifestEntry};
use crate::table::{has_key, Key};
use crate::versions::{version_views, VersionView};

verus! {

/// A file, its versions, the wall-clock time of its latest version, and its logical
/// path.
pub type ManifestRow = (FileId, VersionHistory, i64, LogicalPath);

/// Whether a list of numbers and hashes spells a history.
pub open spec fn spells_history(list: Seq<(i64, String)>, history: Seq<VersionView>) -> bool {
    &&& list.len() == history.len()
    &&& forall|i: int|
        0 <= i < list.len() ==> (#[trigger] list[i]).0 == history[i].version_number && list[i].1@
            == history[i].content_hash
}

/// Whether a row announces its file as the database knows it.
pub open spec fn is_manifest_row(db: DatabaseView, row: ManifestRow) -> bool {
    &&& db.listed(row.0)
    &&& spells_history(row.1@, db.history(row.0))
    &&& row.2 == db.history(row.0).last().observed_at
    &&& row.3@ == db.files[row.0]
}

/// Whether rows announce every known file that has a version, once, in ascending
/// order.
pub open spec fn is_manifest(db: DatabaseView, rows: Seq<ManifestRow>) -> bool {
    &&& forall|i: int, j: int|
        0 <= i < j < rows.len() ==> (#[trigger] rows[i]).0.value < (#[trigger] rows[j]).0.value
    &&& forall|f: FileId| #[trigger]
        db.listed(f) <==> exists|i: int| 0 <= i < rows.len() && (#[trigger] rows[i]).0 == f
    &&& forall|i: int| 0 <= i < rows.len() ==> is_manifest_row(db, #[trigger] rows[i])
}

/// Whether entries announce the stamp of every tag, once, in ascending order.
pub open spec fn is_tag_manifest(db: DatabaseView, entries: Seq<TagManifestEntry>) -> bool {
    &&& forall|i: int, j: int|
        0 <= i < j < entries.len() ==> (#[trigger] entries[i]).tag_id.value < (
        #[trigger] entries[j]).tag_id.value
    &&& forall|t: TagId| #[trigger]
        db.tags.contains_key(t) <==> exists|i: int|
            0 <= i < entries.len() && (#[trigger] entries[i]).tag_id == t
    &&& forall|i: int|
        0 <= i < entries.len() ==> (#[trigger] entries[i]).modified_at
            == db.tags[entries[i].tag_id].modified_at
}

/// Whether an entry announces a relationship in its present state.
pub open spec fn announces(
    db: DatabaseView,
    key: EntryKey,
    entry: RelationshipManifestEntry,
) -> bool {
    &&& db.entries.contains_key(key)
    &&& entry.tag_id == key.tag_id
    &&& entry.target_id@ == id_text(key.target)
    &&& entry.kind == (match key.kind {
        EntryType::File => RelationshipKind::File,
        EntryType::Tag => RelationshipKind::Tag,
    })
    &&& entry.modified_at == db.entries[key].modified_at
    &&& entry.deleted == db.entries[key].deleted
}

/// Whether entries announce every relationship, tombstones among them, once, in
/// ascending order of `keys`.
pub open spec fn is_relationship_manifest(
    db: DatabaseView,
    keys: Seq<EntryKey>,
    entries: Seq<RelationshipManifestEntry>,
) -> bool {
    &&& keys.len() == entries.len()
    &&& forall|i: int, j: int|
        0 <= i < j < keys.len() ==> (#[trigger] keys[i]).precedes(#[trigger] keys[j])
    &&& forall|k: EntryKey| #[trigger] db.entries.contains_key(k) <==> keys.contains(k)
    &&& forall|i: int| 0 <= i < keys.len() ==> announces(db, #[trigger] keys[i], entries[i])
}

impl FileDatabase {
    /// The rows of a manifest: every known file that has a version.
    pub fn manifest_entries(&self) -> (r: Result<Vec<ManifestRow>, DatabaseError>)
        ensures
            r matches Ok(rows) && is_manifest(self@, rows@),
    {
        let n: usize = self.files.len();
        let ghost table = self.files.rows();
        let mut rows: Vec<ManifestRow> = Vec::new();
        let mut i: usize = 0;
        while i < n
            invariant
                i <= n,
                n == table.len(),
                table == self.files.rows(),
                self.files.well_formed(),
                forall|a: int, b: int|
                    0 <= a < b < rows@.len() ==> (#[trigger] rows@[a]).0.value < (
                    #[trigger] rows@[b]).0.value,
                forall|a: int|
                    0 <= a < rows@.len() ==> is_manifest_row(self@, #[trigger] rows@[a]) && has_key(
                        table.take(i as int),
                        rows@[a].0,
                    ),
                forall|j: int|
                    0 <= j < i && self@.listed((#[trigger] table[j]).0) ==> exists|a: int|
                        0 <= a < rows@.len() && (#[trigger] rows@[a]).0 == table[j].0,
            decreases n - i,
        {
            let file_id = self.files.key_at(i);
            let ghost before = rows@;
            match self.versions.history(file_id) {
                Some(list) => {
                    let history = match self.version_history(file_id) {
                        Ok(history) => history,
                        Err(error) => {
                            return Err(error);
                        },
                    };
                    let latest_observed_at: i64 = list[list.len() - 1].observed_at;
                    assert(version_views(list@).last() == list@.last()@);
                    let logical_path = self.files.value_at(i).duplicate();
                    rows.push((file_id, history, latest_observed_at, logical_path));
                    proof {
                        assert(rows@[before.len() as int].0 == file_id);
                        assert forall|a: int, b: int| 0 <= a < b < rows@.len() implies (
                        #[trigger] rows@[a]).0.value < (#[trigger] rows@[b]).0.value by {
                            if b == before.len() {
                                assert(rows@[a] == before[a]);
                                let k = choose|k: int|
                                    0 <= k < i && (#[trigger] table.take(i as int)[k]).0
                                        == before[a].0;
                                assert(table[k].0.precedes(table[i as int].0));
                            }
                        }
                    }
                },
                None => {},
            }
            proof {
                assert forall|a: int| 0 <= a < rows@.len() implies has_key(
                    table.take(i + 1),
                    (#[trigger] rows@[a]).0,
                ) by {
                    if a < before.len() {
                        assert(rows@[a] == before[a]);
                        let k = choose|k: int|
                            0 <= k < i && (#[trigger] table.take(i as int)[k]).0 == before[a].0;
                        assert(table.take(i + 1)[k].0 == before[a].0);
                    } else {
                        assert(table.take(i + 1)[i as int].0 == file_id);
                    }
                }
                assert forall|j: int| 0 <= j < i + 1 && self@.listed(
                    (#[trigger] table[j]).0,
                ) implies exists|a: int|
                    0 <= a < rows@.len() && (#[trigger] rows@[a]).0 == table[j].0 by {
                    if j < i {
                        let a = choose|a: int|
                            0 <= a < before.len() && (#[trigger] before[a]).0 == table[j].0;
                        assert(rows@[a] == before[a]);
                    } else {
                        assert(rows@[before.len() as int].0 == table[j].0);
                    }
                }
            }
            i = i + 1;
        }
        proof {
            assert forall|f: FileId| #[trigger] self@.listed(f) <==> exists|a: int|
                0 <= a < rows@.len() && (#[trigger] rows@[a]).0 == f by {
                if self@.listed(f) {
                    assert(has_key(table, f));
                    let k = choose|k: int| 0 <= k < table.len() && (#[trigger] table[k]).0 == f;
                    assert(self@.listed(table[k].0));
                }
            }
        }
        Ok(rows)
    }

    /// The stamp of every tag.
    pub fn tag_manifest_entries(&self) -> (r: Result<Vec<TagManifestEntry>, DatabaseError>)
        ensures
            r matches Ok(entries) && is_tag_manifest(self@, entries@),
    {
        let n: usize = self.tags.len();
        let ghost table = self.tags.rows();
        let mut out: Vec<TagManifestEntry> = Vec::new();
        let mut i: usize = 0;
        while i < n
            invariant
                i <= n,
                n == table.len(),
                table == self.tags.rows(),
                self.tags.well_formed(),
                out@.len() == i,
                forall|j: int|
                    0 <= j < i ==> (#[trigger] out@[j]).tag_id == table[j].0 && out@[j].modified_at
                        == table[j].1.modified_at,
            decreases n - i,
        {
            let tag_id = self.tags.key_at(i);
            let modified_at: i64 = self.tags.value_at(i).modified_at;
            out.push(TagManifestEntry { tag_id, modified_at });
            i = i + 1;
        }
        proof {
            assert forall|a: int, b: int| 0 <= a < b < out@.len() implies (
            #[trigger] out@[a]).tag_id.value < (#[trigger] out@[b]).tag_id.value by {
                assert(table[a].0.precedes(table[b].0));
            }
            assert forall|t: TagId| #[trigger] self@.tags.contains_key(t) <==> exists|k: int|
                0 <= k < out@.len() && (#[trigger] out@[k]).tag_id == t by {
                if self@.tags.contains_key(t) {
                    assert(has_key(table, t));
                    let k = choose|k: int| 0 <= k < table.len() && (#[trigger] table[k]).0 == t;
                    assert(out@[k].tag_id == t);
                }
            }
        }
        Ok(out)
    }

    /// The relationships, in ascending order.
    pub closed spec fn entry_keys(&self) -> Seq<EntryKey> {
        self.entries.rows().map_values(|row: (EntryKey, super::EntryState)| row.0)
    }

    /// The state of every relationship, tombstones among them.
    pub fn relationship_manifest_entries(&self) -> (r: Result<
        Vec<RelationshipManifestEntry>,
        DatabaseError,
    >)
        ensures
            r matches Ok(entries) && is_relationship_manifest(
                self@,
                self.entry_keys(),
                entries@,
            ),
    {
        let n: usize = self.entries.len();
        let ghost table = self.entries.rows();
        let ghost keys = self.entry_keys();
        let mut out: Vec<RelationshipManifestEntry> = Vec::new();
        let mut i: usize = 0;
        while i < n
            invariant
                i <= n,
                n == table.len(),
                table == self.entries.rows(),
                keys == self.entry_keys(),
                self.entries.well_formed(),
                out@.len() == i,
                forall|j: int| 0 <= j < i ==> announces(self@, #[trigger] keys[j], out@[j]),
            decreases n - i,
        {
            let key = self.entries.key_at(i);
            let state = *self.entries.value_at(i);
            assert(keys[i as int] == key);
            out.push(
                RelationshipManifestEntry {
                    tag_id: key.tag_id,
                    target_id: text_of_id(key.target),
                    kind: RelationshipKind::from(key.kind),
                    modified_at: state.modified_at,
                    deleted: state.deleted,
                },
            );
            i = i + 1;
        }
        proof {
            assert forall|a: int, b: int| 0 <= a < b < keys.len() implies (
            #[trigger] keys[a]).precedes(#[trigger] keys[b]) by {
                assert(table[a].0.precedes(table[b].0));
            }
            assert forall|k: EntryKey| #[trigger] self@.entries.contains_key(k) <==> keys.contains(
                k,
            ) by {
                if self@.entries.contains_key(k) {
                    assert(has_key(table, k));
                    let j = choose|j: int| 0 <= j < table.len() && (#[trigger] table[j]).0 == k;
                    assert(keys[j] == k);
                }
                if keys.contains(k) {
                    let j = choose|j: int| 0 <= j < keys.len() && keys[j] == k;
                    assert(table[j].0 == k);
                }
            }
        }
        Ok(out)
    }
}

} // verus!
