//! Reconciliation: what a device wants of a peer, given the peer's manifests.

use vstd::prelude::*;
use crate::bus::{MaterializePlacement, PlacementView};
use crate::database::manifests::{
    is_manifest, is_relationship_manifest, is_tag_manifest, ManifestRow,
};
use crate::database::{entry_key, DatabaseError, DatabaseView, EntryState, EntryType, FileDatabase};
use crate::ids::{uuid_value, FileId, TagId};
use crate::pipeline::db_after_change;
use crate::state::{
    Change, Frame, ManifestEntry, RelationshipKind, RelationshipManifestEntry, SyncMessage,
    TagManifestEntry,
};
use crate::versions::VersionView;

pub mod laws;

verus! {

/// Why a file is requested.
#[derive(Debug, Clone, Copy, PartialEq, Eq, Structural)]
pub enum RequestReason {
    /// No version of the file is recorded here.
    UnknownFile,
    /// The peer knows our latest version and has gone beyond it.
    WeAreBehind,
}

/// What to do about a file that a peer announces.
#[derive(Debug, Clone, Copy, PartialEq, Eq, Structural)]
pub enum ReconcileDecision {
    Nothing,
    Request(RequestReason),
    /// Neither side knows the other's latest version: the one observed later wins.
    Divergent { ours_observed_at: i64, request: bool },
}

/// The hashes of a history.
pub open spec fn hashes(history: Seq<VersionView>) -> Seq<Seq<char>> {
    history.map_values(|v: VersionView| v.content_hash)
}

/// The hashes of an announced history.
pub open spec fn announced_hashes(history: Seq<(i64, String)>) -> Seq<Seq<char>> {
    history.map_values(|v: (i64, String)| v.1@)
}

/// What to do about a file, given both histories as hashes and when each side
/// observed its latest version.
pub open spec fn decision(
    ours: Seq<Seq<char>>,
    ours_observed_at: i64,
    theirs: Seq<Seq<char>>,
    theirs_observed_at: i64,
) -> ReconcileDecision {
    if ours.len() == 0 {
        ReconcileDecision::Request(RequestReason::UnknownFile)
    } else if theirs.len() == 0 || ours.contains(theirs.last()) {
        ReconcileDecision::Nothing
    } else if theirs.contains(ours.last()) {
        ReconcileDecision::Request(RequestReason::WeAreBehind)
    } else {
        ReconcileDecision::Divergent {
            ours_observed_at,
            request: theirs_observed_at > ours_observed_at,
        }
    }
}

/// What to do about an announced file.
pub open spec fn decision_on(db: DatabaseView, entry: ManifestEntry) -> ReconcileDecision {
    let history = db.history(entry.file_id);
    decision(
        hashes(history),
        history.last().observed_at,
        announced_hashes(entry.history@),
        entry.latest_observed_at,
    )
}

/// Whether a decision asks the peer for its version.
pub open spec fn requests(decision: ReconcileDecision) -> bool {
    match decision {
        ReconcileDecision::Nothing => false,
        ReconcileDecision::Request(_) => true,
        ReconcileDecision::Divergent { request, .. } => request,
    }
}

/// Two devices that compare the same two histories never both ask for the other's
/// version.
pub proof fn law_at_most_one_side_pulls(
    ours: Seq<Seq<char>>,
    ours_observed_at: i64,
    theirs: Seq<Seq<char>>,
    theirs_observed_at: i64,
)
    requires
        ours.len() > 0 || theirs.len() > 0,
    ensures
        !(requests(decision(ours, ours_observed_at, theirs, theirs_observed_at)) && requests(
            decision(theirs, theirs_observed_at, ours, ours_observed_at),
        )),
{
}

/// Of two devices one asks for the other's version, unless each already knows the
/// other's latest, or neither does and both were observed at the same moment.
pub proof fn law_one_side_pulls(
    ours: Seq<Seq<char>>,
    ours_observed_at: i64,
    theirs: Seq<Seq<char>>,
    theirs_observed_at: i64,
)
    requires
        ours.len() > 0,
        theirs.len() > 0,
        !(ours.contains(theirs.last()) && theirs.contains(ours.last())),
        ours.contains(theirs.last()) || theirs.contains(ours.last()) || ours_observed_at
            != theirs_observed_at,
    ensures
        requests(decision(ours, ours_observed_at, theirs, theirs_observed_at)) != requests(
            decision(theirs, theirs_observed_at, ours, ours_observed_at),
        ),
{
}

/// Devices with the same latest version leave the file alone.
pub proof fn law_equal_latest_is_left_alone(
    ours: Seq<Seq<char>>,
    ours_observed_at: i64,
    theirs: Seq<Seq<char>>,
    theirs_observed_at: i64,
)
    requires
        ours.len() > 0,
        theirs.len() > 0,
        ours.last() == theirs.last(),
    ensures
        decision(ours, ours_observed_at, theirs, theirs_observed_at) is Nothing,
{
    assert(ours[ours.len() - 1] == theirs.last());
}

/// A pull settles the matter: once the announced version has been recorded here, the
/// same announcement asks for nothing more.
pub proof fn law_pull_settles(
    db: DatabaseView,
    entry: ManifestEntry,
    observed_at: i64,
    origin: Seq<char>,
)
    requires
        entry.history@.len() > 0,
    ensures
        decision_on(
            db.with_version(
                entry.file_id,
                announced_hashes(entry.history@).last(),
                observed_at,
                origin,
            ),
            entry,
        ) is Nothing,
{
    let latest = announced_hashes(entry.history@).last();
    let after = db.with_version(entry.file_id, latest, observed_at, origin);
    let history = after.history(entry.file_id);
    assert(hashes(history)[history.len() - 1] == latest);
    assert(hashes(history).contains(latest));
}

fn holds_hash(history: &Vec<(i64, String)>, hash: &String) -> (r: bool)
    ensures
        r == announced_hashes(history@).contains(hash@),
{
    let ghost all = announced_hashes(history@);
    let mut i: usize = 0;
    while i < history.len()
        invariant
            i <= history.len(),
            all == announced_hashes(history@),
            forall|j: int| 0 <= j < i ==> #[trigger] all[j] != hash@,
        decreases history.len() - i,
    {
        if history[i].1 == *hash {
            assert(all[i as int] == hash@);
            return true;
        }
        i = i + 1;
    }
    false
}

/// Decides what to do about an announced file.
pub fn decide_request(database: &FileDatabase, entry: &ManifestEntry) -> (r: Result<
    ReconcileDecision,
    DatabaseError,
>)
    ensures
        r == Ok::<ReconcileDecision, DatabaseError>(decision_on(database@, *entry)),
{
    let ours = match database.version_history(entry.file_id) {
        Ok(ours) => ours,
        Err(error) => {
            return Err(error);
        },
    };
    let ghost history = database@.history(entry.file_id);
    assert(announced_hashes(ours@) =~= hashes(history));
    if ours.len() == 0 {
        return Ok(ReconcileDecision::Request(RequestReason::UnknownFile));
    }
    if entry.history.len() == 0 {
        return Ok(ReconcileDecision::Nothing);
    }
    let our_latest = &ours[ours.len() - 1].1;
    let their_latest = &entry.history[entry.history.len() - 1].1;
    assert(our_latest@ == hashes(history).last());
    assert(their_latest@ == announced_hashes(entry.history@).last());
    if holds_hash(&ours, their_latest) {
        return Ok(ReconcileDecision::Nothing);
    }
    if holds_hash(&entry.history, our_latest) {
        return Ok(ReconcileDecision::Request(RequestReason::WeAreBehind));
    }
    let ours_observed_at: i64 = match database.latest_version(entry.file_id) {
        Ok(Some(version)) => version.observed_at,
        Ok(None) => 0,
        Err(error) => {
            return Err(error);
        },
    };
    Ok(
        ReconcileDecision::Divergent {
            ours_observed_at,
            request: entry.latest_observed_at > ours_observed_at,
        },
    )
}

/// A file to pull from a peer, and how to place it.
#[derive(Debug)]
pub struct WantedFile {
    pub file_id: FileId,
    pub content_hash: String,
    pub placement: MaterializePlacement,
}

/// The mathematical value of a [`WantedFile`].
#[verifier::ext_equal]
pub struct WantedView {
    pub file_id: FileId,
    pub content_hash: Seq<char>,
    pub placement: PlacementView,
}

impl View for WantedFile {
    type V = WantedView;

    open spec fn view(&self) -> WantedView {
        WantedView {
            file_id: self.file_id,
            content_hash: self.content_hash@,
            placement: self.placement@,
        }
    }
}

/// What is wanted of an announced file: the peer's latest version, placed as a new
/// file where the file is unknown. The tags of a new file come with the tag manifest.
pub open spec fn wanted_of(db: DatabaseView, entry: ManifestEntry) -> Option<WantedView> {
    if requests(decision_on(db, entry)) && entry.history@.len() > 0 {
        Some(
            WantedView {
                file_id: entry.file_id,
                content_hash: entry.history@.last().1@,
                placement: if db.files.contains_key(entry.file_id) {
                    PlacementView::Change
                } else {
                    PlacementView::Create {
                        logical_path: entry.logical_path,
                        tags: Seq::empty(),
                    }
                },
            },
        )
    } else {
        None
    }
}

/// What is wanted of the first `n` announced files, in order.
pub open spec fn wanted_of_first(db: DatabaseView, entries: Seq<ManifestEntry>, n: int) -> Seq<
    WantedView,
>
    decreases n,
{
    if n <= 0 {
        Seq::empty()
    } else {
        let before = wanted_of_first(db, entries, n - 1);
        match wanted_of(db, entries[n - 1]) {
            Some(wanted) => before.push(wanted),
            None => before,
        }
    }
}

/// New content is wanted only of known files.
pub(crate) proof fn lemma_changed_files_are_known(
    db: DatabaseView,
    entries: Seq<ManifestEntry>,
    n: int,
)
    ensures
        forall|i: int|
            0 <= i < wanted_of_first(db, entries, n).len() && (
            #[trigger] wanted_of_first(db, entries, n)[i]).placement is Change
                ==> db.files.contains_key(wanted_of_first(db, entries, n)[i].file_id),
    decreases n,
{
    if n > 0 {
        lemma_changed_files_are_known(db, entries, n - 1);
        let before = wanted_of_first(db, entries, n - 1);
        let all = wanted_of_first(db, entries, n);
        assert forall|i: int|
            0 <= i < all.len() && (#[trigger] all[i]).placement is Change implies db.files.contains_key(
            all[i].file_id,
        ) by {
            if i < before.len() {
                assert(all[i] == before[i]);
            }
        }
    }
}

/// What is wanted of a peer's manifest, in its order.
pub fn reconcile_peer_manifest(entries: &Vec<ManifestEntry>, database: &FileDatabase) -> (r: Vec<
    WantedFile,
>)
    ensures
        r@.map_values(|w: WantedFile| w@) == wanted_of_first(
            database@,
            entries@,
            entries@.len() as int,
        ),
{
    let mut out: Vec<WantedFile> = Vec::new();
    let mut i: usize = 0;
    assert(out@.map_values(|w: WantedFile| w@) =~= Seq::<WantedView>::empty());
    while i < entries.len()
        invariant
            i <= entries.len(),
            out@.map_values(|w: WantedFile| w@) == wanted_of_first(database@, entries@, i as int),
        decreases entries.len() - i,
    {
        let entry = &entries[i];
        let request = match decide_request(database, entry) {
            Ok(ReconcileDecision::Nothing) => false,
            Ok(ReconcileDecision::Request(_)) => true,
            Ok(ReconcileDecision::Divergent { request, .. }) => request,
            Err(_) => false,
        };
        if request && entry.history.len() > 0 {
            let known = match database.file_exists(entry.file_id) {
                Ok(known) => known,
                Err(_) => false,
            };
            let placement = if known {
                MaterializePlacement::Change
            } else {
                MaterializePlacement::Create {
                    logical_path: entry.logical_path.duplicate(),
                    tags: Vec::new(),
                }
            };
            let ghost before = out@;
            out.push(
                WantedFile {
                    file_id: entry.file_id,
                    content_hash: entry.history[entry.history.len() - 1].1.clone(),
                    placement,
                },
            );
            proof {
                assert(out@.last()@ == wanted_of(database@, *entry)->0);
                assert(out@.map_values(|w: WantedFile| w@) =~= before.map_values(
                    |w: WantedFile| w@,
                ).push(out@.last()@));
            }
        }
        i = i + 1;
    }
    out
}

/// Whether entries are rows of a manifest.
pub open spec fn spells_rows(entries: Seq<ManifestEntry>, rows: Seq<ManifestRow>) -> bool {
    &&& entries.len() == rows.len()
    &&& forall|i: int|
        0 <= i < rows.len() ==> (#[trigger] entries[i]).file_id == rows[i].0
            && entries[i].history == rows[i].1 && entries[i].latest_observed_at == rows[i].2
            && entries[i].logical_path == rows[i].3
}

/// What this device announces of its files.
pub fn build_local_manifest(database: &FileDatabase) -> (r: Result<
    Vec<ManifestEntry>,
    DatabaseError,
>)
    ensures
        r matches Ok(entries) && exists|rows: Seq<ManifestRow>| #[trigger]
            is_manifest(database@, rows) && spells_rows(entries@, rows),
{
    let mut rows = match database.manifest_entries() {
        Ok(rows) => rows,
        Err(error) => {
            return Err(error);
        },
    };
    let ghost all = rows@;
    let n: usize = rows.len();
    let mut entries: Vec<ManifestEntry> = Vec::new();
    let mut i: usize = 0;
    while i < n
        invariant
            i <= n,
            n == all.len(),
            rows@ == all.skip(i as int),
            entries@.len() == i,
            forall|j: int|
                0 <= j < i ==> (#[trigger] entries@[j]).file_id == all[j].0 && entries@[j].history
                    == all[j].1 && entries@[j].latest_observed_at == all[j].2
                    && entries@[j].logical_path == all[j].3,
        decreases n - i,
    {
        assert(all.skip(i as int)[0] == all[i as int]);
        let (file_id, history, latest_observed_at, logical_path) = rows.remove(0);
        assert(rows@ =~= all.skip(i + 1));
        entries.push(ManifestEntry { file_id, history, latest_observed_at, logical_path });
        i = i + 1;
    }
    assert(is_manifest(database@, all) && spells_rows(entries@, all));
    Ok(entries)
}

/// What this device announces of its tags and relationships.
pub fn build_local_tag_manifest(database: &FileDatabase) -> (r: Result<
    (Vec<TagManifestEntry>, Vec<RelationshipManifestEntry>),
    DatabaseError,
>)
    ensures
        r matches Ok((definitions, relationships)) && is_tag_manifest(database@, definitions@)
            && is_relationship_manifest(database@, database.entry_keys(), relationships@),
{
    let definitions = match database.tag_manifest_entries() {
        Ok(definitions) => definitions,
        Err(error) => {
            return Err(error);
        },
    };
    let relationships = match database.relationship_manifest_entries() {
        Ok(relationships) => relationships,
        Err(error) => {
            return Err(error);
        },
    };
    Ok((definitions, relationships))
}

/// Whether the definition of a tag is to be asked for: the tag is unknown, or the
/// peer's definition is strictly newer.
pub open spec fn needs_definition(db: DatabaseView, definition: TagManifestEntry) -> bool {
    !db.tags.contains_key(definition.tag_id) || definition.modified_at
        > db.tags[definition.tag_id].modified_at
}

/// The tags to ask for among the first `n` announced definitions.
pub open spec fn definitions_needed(
    db: DatabaseView,
    definitions: Seq<TagManifestEntry>,
    n: int,
) -> Seq<TagId>
    decreases n,
{
    if n <= 0 {
        Seq::empty()
    } else {
        let before = definitions_needed(db, definitions, n - 1);
        if needs_definition(db, definitions[n - 1]) {
            before.push(definitions[n - 1].tag_id)
        } else {
            before
        }
    }
}

/// The change that a relationship's state amounts to, where its target spells an
/// identifier.
pub open spec fn change_of(entry: RelationshipManifestEntry) -> Option<Change> {
    match uuid_value(entry.target_id@) {
        Some(value) => Some(
            match (entry.kind, entry.deleted) {
                (RelationshipKind::File, false) => Change::FileTagged {
                    file_id: FileId { value },
                    tag_id: entry.tag_id,
                    metadata: None,
                    modified_at: entry.modified_at,
                },
                (RelationshipKind::File, true) => Change::FileUntagged {
                    file_id: FileId { value },
                    tag_id: entry.tag_id,
                    modified_at: entry.modified_at,
                },
                (RelationshipKind::Tag, false) => Change::TagTagged {
                    taggee_id: TagId { value },
                    tag_id: entry.tag_id,
                    metadata: None,
                    modified_at: entry.modified_at,
                },
                (RelationshipKind::Tag, true) => Change::TagUntagged {
                    taggee_id: TagId { value },
                    tag_id: entry.tag_id,
                    modified_at: entry.modified_at,
                },
            },
        ),
        None => None,
    }
}

/// The change that a relationship's state amounts to.
pub fn relationship_to_change(entry: &RelationshipManifestEntry) -> (r: Option<Change>)
    ensures
        r == change_of(*entry),
{
    let target: u128 = match FileId::from_string(entry.target_id.as_str()) {
        Some(file_id) => file_id.value,
        None => {
            return None;
        },
    };
    Some(
        match (entry.kind, entry.deleted) {
            (RelationshipKind::File, false) => Change::FileTagged {
                file_id: FileId { value: target },
                tag_id: entry.tag_id,
                metadata: None,
                modified_at: entry.modified_at,
            },
            (RelationshipKind::File, true) => Change::FileUntagged {
                file_id: FileId { value: target },
                tag_id: entry.tag_id,
                modified_at: entry.modified_at,
            },
            (RelationshipKind::Tag, false) => Change::TagTagged {
                taggee_id: TagId { value: target },
                tag_id: entry.tag_id,
                metadata: None,
                modified_at: entry.modified_at,
            },
            (RelationshipKind::Tag, true) => Change::TagUntagged {
                taggee_id: TagId { value: target },
                tag_id: entry.tag_id,
                modified_at: entry.modified_at,
            },
        },
    )
}

/// Whether an announced relationship is news: unknown here, or strictly newer.
pub open spec fn is_news(db: DatabaseView, entry: RelationshipManifestEntry) -> bool {
    match uuid_value(entry.target_id@) {
        Some(target) => !db.entries.contains_key(entry_key(entry, target)) || entry.modified_at
            > db.entries[entry_key(entry, target)].modified_at,
        None => false,
    }
}

/// The changes that the first `n` announced relationships amount to, where they are
/// news.
pub open spec fn news(db: DatabaseView, entries: Seq<RelationshipManifestEntry>, n: int) -> Seq<
    Change,
>
    decreases n,
{
    if n <= 0 {
        Seq::empty()
    } else {
        let before = news(db, entries, n - 1);
        if is_news(db, entries[n - 1]) {
            before.push(change_of(entries[n - 1])->0)
        } else {
            before
        }
    }
}

/// Applying the change that an announced state amounts to takes that state over: a
/// present relationship by the rule that the last writer wins, and an absent one
/// where the relationship is known here.
pub proof fn law_relationship_change_applies_the_state(
    db: DatabaseView,
    entry: RelationshipManifestEntry,
    target: u128,
)
    requires
        uuid_value(entry.target_id@) == Some(target),
        entry.kind == RelationshipKind::Tag ==> entry.tag_id.value != target,
    ensures
        change_of(entry) matches Some(change) && db_after_change(db, change) == (
        if !entry.deleted || db.entries.contains_key(entry_key(entry, target)) {
            db.with_entry(
                entry_key(entry, target),
                EntryState { modified_at: entry.modified_at, deleted: entry.deleted },
            )
        } else {
            db
        }),
{
}

/// What a peer's tag manifest calls for.
#[derive(Debug)]
pub struct TagReconciliation {
    /// The tags whose definitions are to be asked for.
    pub requests: Vec<TagId>,
    /// The changes that are news.
    pub changes: Vec<Change>,
}

/// What a peer's tag manifest calls for.
pub fn reconcile_peer_tag_manifest(
    definitions: &Vec<TagManifestEntry>,
    relationships: &Vec<RelationshipManifestEntry>,
    database: &FileDatabase,
) -> (r: TagReconciliation)
    ensures
        r.requests@ == definitions_needed(database@, definitions@, definitions@.len() as int),
        r.changes@ == news(database@, relationships@, relationships@.len() as int),
{
    let mut requests: Vec<TagId> = Vec::new();
    let mut i: usize = 0;
    while i < definitions.len()
        invariant
            i <= definitions.len(),
            requests@ == definitions_needed(database@, definitions@, i as int),
        decreases definitions.len() - i,
    {
        let definition = definitions[i];
        let need = match database.tag_modified_at(definition.tag_id) {
            Ok(Some(ours)) => definition.modified_at > ours,
            Ok(None) => true,
            Err(_) => false,
        };
        if need {
            requests.push(definition.tag_id);
        }
        i = i + 1;
    }
    let mut changes: Vec<Change> = Vec::new();
    let mut i: usize = 0;
    while i < relationships.len()
        invariant
            i <= relationships.len(),
            changes@ == news(database@, relationships@, i as int),
        decreases relationships.len() - i,
    {
        let entry = &relationships[i];
        let kind = EntryType::from(entry.kind);
        let newer = match database.relationship_modified_at(
            entry.tag_id,
            entry.target_id.as_str(),
            kind,
        ) {
            Ok(Some(ours)) => entry.modified_at > ours,
            Ok(None) => true,
            Err(_) => false,
        };
        if newer {
            match relationship_to_change(entry) {
                Some(change) => {
                    changes.push(change);
                },
                None => {},
            }
        }
        i = i + 1;
    }
    TagReconciliation { requests, changes }
}

/// The answer to a peer that asks for the definition of a tag.
pub fn build_tag_request_response(tag_id: TagId, database: &FileDatabase) -> (r: Frame)
    ensures
        match r {
            Frame::Change(
                Change::TagAdded { tag_id: id, tag_name, color, metadata, modified_at },
            ) => {
                &&& id == tag_id
                &&& metadata is None
                &&& database@.tags.contains_key(tag_id)
                &&& database@.tags[tag_id].name == tag_name@
                &&& database@.tags[tag_id].color == color@
                &&& database@.tags[tag_id].modified_at == modified_at
            },
            Frame::Sync(SyncMessage::TagNotFound { tag_id: id }) => id == tag_id
                && !database@.tags.contains_key(tag_id),
            _ => false,
        },
{
    match database.tag_definition(tag_id) {
        Ok(Some((tag_name, color, modified_at))) => Frame::Change(
            Change::TagAdded { tag_id, tag_name, color, metadata: None, modified_at },
        ),
        _ => Frame::Sync(SyncMessage::TagNotFound { tag_id }),
    }
}

} // verus!
