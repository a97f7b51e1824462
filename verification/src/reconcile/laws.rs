//! What the exchange of tag manifests achieves: two devices come to hold the same tags
//! and the same relationships.

use vstd::prelude::*;
use super::{
    announced_hashes, change_of, decision_on, definitions_needed, hashes, is_news,
    needs_definition, news, requests, spells_rows, wanted_of, wanted_of_first,
    ReconcileDecision, RequestReason, WantedView,
};
use crate::bus::PlacementView;
use crate::database::laws::law_a_manifest_says_what_is_on_record;
use crate::database::manifests::{
    is_manifest, is_relationship_manifest, is_tag_manifest, ManifestRow,
};
use crate::database::{entry_key, DatabaseView, EntryKey, EntryState, EntryType, TagView};
use crate::ids::{uuid_value, FileId, TagId};
use crate::pipeline::laws::relationship_of;
use crate::pipeline::{db_after_change, with_announced_tag};
use crate::state::{
    Change, ManifestEntry, RelationshipKind, RelationshipManifestEntry, TagManifestEntry,
};
use crate::table::Key;

verus! {

/// The database after changes were applied in turn.
pub open spec fn after_changes(db: DatabaseView, changes: Seq<Change>) -> DatabaseView
    decreases changes.len(),
{
    if changes.len() == 0 {
        db
    } else {
        db_after_change(after_changes(db, changes.drop_last()), changes.last())
    }
}

/// The relationships of `ours` after those of `theirs` were taken over: of each the
/// newer state, and of equally new ones that of `ours`. The tombstone of a relationship
/// that was never known here is not kept.
pub open spec fn taken_over(
    ours: Map<EntryKey, EntryState>,
    theirs: Map<EntryKey, EntryState>,
) -> Map<EntryKey, EntryState> {
    Map::new(
        |k: EntryKey| ours.contains_key(k) || theirs.contains_key(k) && !theirs[k].deleted,
        |k: EntryKey|
            if ours.contains_key(k) && (!theirs.contains_key(k) || theirs[k].modified_at
                <= ours[k].modified_at) {
                ours[k]
            } else {
                theirs[k]
            },
    )
}

/// Whether the target of each announced relationship is read as what its key says.
pub open spec fn is_legible(keys: Seq<EntryKey>, entries: Seq<RelationshipManifestEntry>) -> bool {
    forall|i: int|
        0 <= i < entries.len() ==> uuid_value((#[trigger] entries[i]).target_id@) == Some(
            keys[i].target,
        )
}

/// Whether every tag has a name and a color, and none stands on itself.
pub open spec fn has_sound_tags(db: DatabaseView) -> bool {
    &&& forall|t: TagId| #[trigger]
        db.tags.contains_key(t) ==> db.tags[t].name.len() > 0 && db.tags[t].color.len() > 0
    &&& forall|k: EntryKey| #[trigger]
        db.entries.contains_key(k) && k.kind == EntryType::Tag ==> k.tag_id.value != k.target
}

/// No change takes a tag's name or color away, or puts a tag on itself.
pub proof fn law_changes_keep_tags_sound(db: DatabaseView, change: Change)
    requires
        has_sound_tags(db),
    ensures
        has_sound_tags(db_after_change(db, change)),
{
}

proof fn lemma_first_taken_over(
    db: DatabaseView,
    theirs: DatabaseView,
    keys: Seq<EntryKey>,
    entries: Seq<RelationshipManifestEntry>,
    n: int,
)
    requires
        is_relationship_manifest(theirs, keys, entries),
        is_legible(keys, entries),
        has_sound_tags(theirs),
        0 <= n <= entries.len(),
    ensures
        after_changes(db, news(db, entries, n)) == (DatabaseView {
            entries: taken_over(db.entries, theirs.entries.restrict(keys.take(n).to_set())),
            ..db
        }),
    decreases n,
{
    let part = theirs.entries.restrict(keys.take(n).to_set());
    if n == 0 {
        assert(keys.take(0) =~= Seq::<EntryKey>::empty());
        assert(taken_over(db.entries, part) =~= db.entries);
    } else {
        let i = n - 1;
        lemma_first_taken_over(db, theirs, keys, entries, i);
        let fewer = theirs.entries.restrict(keys.take(i).to_set());
        let before = after_changes(db, news(db, entries, i));
        let key = keys[i];
        let entry = entries[i];
        assert(keys[i] == key && theirs.entries.contains_key(key));
        assert(entry_key(entry, key.target) == key);
        assert(!keys.take(i).to_set().contains(key)) by {
            if keys.take(i).contains(key) {
                let j = choose|j: int| 0 <= j < i && keys.take(i)[j] == key;
                assert(keys[j].precedes(keys[i]));
            }
        }
        assert(keys.take(n).to_set() =~= keys.take(i).to_set().insert(key)) by {
            assert forall|k: EntryKey| #[trigger] keys.take(n).contains(k) implies keys.take(
                i,
            ).contains(k) || k == key by {
                let j = choose|j: int| 0 <= j < n && keys.take(n)[j] == k;
                if j < i {
                    assert(keys.take(i)[j] == k);
                }
            }
            assert forall|k: EntryKey| #[trigger] keys.take(i).contains(k) implies keys.take(
                n,
            ).contains(k) by {
                let j = choose|j: int| 0 <= j < i && keys.take(i)[j] == k;
                assert(keys.take(n)[j] == k);
            }
            assert(keys.take(n)[i] == key);
        }
        assert(part =~= fewer.insert(key, theirs.entries[key]));
        let list = news(db, entries, n);
        if is_news(db, entry) {
            assert(list.drop_last() =~= news(db, entries, i));
            assert(list.last() == change_of(entry)->0);
        }
        let after = after_changes(db, list);
        assert(after.entries =~= taken_over(db.entries, part));
    }
}

/// Handling a peer's tag manifest takes the peer's relationships over: once the changes
/// that are news have been applied, each relationship is in the newer of its two
/// states, and nothing else has changed.
pub proof fn law_news_takes_relationships_over(
    db: DatabaseView,
    theirs: DatabaseView,
    keys: Seq<EntryKey>,
    entries: Seq<RelationshipManifestEntry>,
)
    requires
        is_relationship_manifest(theirs, keys, entries),
        is_legible(keys, entries),
        has_sound_tags(theirs),
    ensures
        after_changes(db, news(db, entries, entries.len() as int)) == (DatabaseView {
            entries: taken_over(db.entries, theirs.entries),
            ..db
        }),
{
    lemma_first_taken_over(db, theirs, keys, entries, entries.len() as int);
    assert(keys.take(keys.len() as int) =~= keys);
    assert(theirs.entries.restrict(keys.to_set()) =~= theirs.entries);
}

/// Whether a relationship holds.
pub open spec fn holds(entries: Map<EntryKey, EntryState>, key: EntryKey) -> bool {
    entries.contains_key(key) && !entries[key].deleted
}

/// Two devices that take over each other's relationships agree on which hold, provided
/// that states with the same stamp are the same.
pub proof fn law_devices_agree_on_relationships(
    ours: Map<EntryKey, EntryState>,
    theirs: Map<EntryKey, EntryState>,
    key: EntryKey,
)
    requires
        ours.contains_key(key) && theirs.contains_key(key) && ours[key].modified_at
            == theirs[key].modified_at ==> ours[key] == theirs[key],
    ensures
        holds(taken_over(ours, theirs), key) == holds(taken_over(theirs, ours), key),
{
}

/// The database after a peer answered requests for definitions in turn.
pub open spec fn with_definitions(
    db: DatabaseView,
    requests: Seq<TagId>,
    theirs: Map<TagId, TagView>,
) -> DatabaseView
    decreases requests.len(),
{
    if requests.len() == 0 {
        db
    } else {
        with_announced_tag(
            with_definitions(db, requests.drop_last(), theirs),
            requests.last(),
            theirs[requests.last()],
        )
    }
}

/// The definitions of two devices merged: of each tag the newer definition, and of
/// equally new ones that of `ours`.
pub open spec fn newest_definitions(
    ours: Map<TagId, TagView>,
    theirs: Map<TagId, TagView>,
) -> Map<TagId, TagView> {
    Map::new(
        |t: TagId| ours.contains_key(t) || theirs.contains_key(t),
        |t: TagId|
            if ours.contains_key(t) && (!theirs.contains_key(t) || theirs[t].modified_at
                <= ours[t].modified_at) {
                ours[t]
            } else {
                theirs[t]
            },
    )
}

/// The tags among the first `n` announced definitions.
spec fn first_tags(definitions: Seq<TagManifestEntry>, n: int) -> Set<TagId> {
    Set::new(|t: TagId| exists|i: int| 0 <= i < n && (#[trigger] definitions[i]).tag_id == t)
}

proof fn lemma_first_definitions(
    db: DatabaseView,
    theirs: DatabaseView,
    definitions: Seq<TagManifestEntry>,
    n: int,
)
    requires
        is_tag_manifest(theirs, definitions),
        has_sound_tags(theirs),
        0 <= n <= definitions.len(),
    ensures
        with_definitions(db, definitions_needed(db, definitions, n), theirs.tags) == (
        DatabaseView {
            tags: newest_definitions(db.tags, theirs.tags.restrict(first_tags(definitions, n))),
            ..db
        }),
    decreases n,
{
    let part = theirs.tags.restrict(first_tags(definitions, n));
    if n == 0 {
        assert(newest_definitions(db.tags, part) =~= db.tags);
    } else {
        let i = n - 1;
        lemma_first_definitions(db, theirs, definitions, i);
        let fewer = theirs.tags.restrict(first_tags(definitions, i));
        let tag_id = definitions[i].tag_id;
        assert(definitions[i].tag_id == tag_id);
        assert(theirs.tags.contains_key(tag_id));
        assert(!first_tags(definitions, i).contains(tag_id));
        assert(first_tags(definitions, n) =~= first_tags(definitions, i).insert(tag_id));
        assert(part =~= fewer.insert(tag_id, theirs.tags[tag_id]));
        let list = definitions_needed(db, definitions, n);
        if needs_definition(db, definitions[i]) {
            assert(list.drop_last() =~= definitions_needed(db, definitions, i));
            assert(list.last() == tag_id);
        }
        let after = with_definitions(db, list, theirs.tags);
        assert(after.tags =~= newest_definitions(db.tags, part));
    }
}

/// Asking for the definitions that a peer's tag manifest calls for brings every tag up
/// to date: once the peer has answered, each has the newer of its two definitions, and
/// nothing else has changed.
pub proof fn law_requests_bring_definitions_up_to_date(
    db: DatabaseView,
    theirs: DatabaseView,
    definitions: Seq<TagManifestEntry>,
)
    requires
        is_tag_manifest(theirs, definitions),
        has_sound_tags(theirs),
    ensures
        with_definitions(
            db,
            definitions_needed(db, definitions, definitions.len() as int),
            theirs.tags,
        ) == (DatabaseView { tags: newest_definitions(db.tags, theirs.tags), ..db }),
{
    lemma_first_definitions(db, theirs, definitions, definitions.len() as int);
    assert(theirs.tags.restrict(first_tags(definitions, definitions.len() as int))
        =~= theirs.tags);
}

/// Two devices that bring each other's tags up to date define them alike afterwards,
/// provided that definitions with the same stamp are the same.
pub proof fn law_devices_agree_on_definitions(
    ours: Map<TagId, TagView>,
    theirs: Map<TagId, TagView>,
)
    requires
        forall|t: TagId| #[trigger]
            ours.contains_key(t) && theirs.contains_key(t) && ours[t].modified_at
                == theirs[t].modified_at ==> ours[t] == theirs[t],
    ensures
        newest_definitions(ours, theirs) == newest_definitions(theirs, ours),
{
    assert(newest_definitions(ours, theirs) =~= newest_definitions(theirs, ours));
}

/// Whether the latest version that a peer announces of a file is to be pulled: no version is
/// known here; or it is not known here, and the peer knows ours or observed its own later.
pub open spec fn is_ahead(db: DatabaseView, entry: ManifestEntry) -> bool {
    let ours = db.history(entry.file_id);
    let theirs = entry.history@;
    &&& theirs.len() > 0
    &&& {
        ||| ours.len() == 0
        ||| {
            &&& forall|k: int|
                0 <= k < ours.len() ==> (#[trigger] ours[k]).content_hash != theirs[theirs.len()
                    - 1].1@
            &&& {
                ||| exists|k: int|
                    0 <= k < theirs.len() && (#[trigger] theirs[k]).1@ == ours[ours.len()
                        - 1].content_hash
                ||| entry.latest_observed_at > ours[ours.len() - 1].observed_at
            }
        }
    }
}

/// What is pulled of an announced file: its latest version, to be placed as a change where
/// the file is known, and else as a new file at the announced path, without tags as yet.
pub open spec fn latest_of(db: DatabaseView, entry: ManifestEntry) -> WantedView {
    WantedView {
        file_id: entry.file_id,
        content_hash: entry.history@[entry.history@.len() - 1].1@,
        placement: if db.files.contains_key(entry.file_id) {
            PlacementView::Change
        } else {
            PlacementView::Create { logical_path: entry.logical_path, tags: Seq::empty() }
        },
    }
}

/// Whether `list` holds what is made of those of the first `n` things that are chosen, in
/// their order.
pub open spec fn picks<A, B>(
    things: Seq<A>,
    n: int,
    chosen: spec_fn(A) -> bool,
    made: spec_fn(A) -> B,
    list: Seq<B>,
) -> bool
    decreases n,
{
    if n <= 0 {
        list.len() == 0
    } else if chosen(things[n - 1]) {
        list.len() > 0 && list.last() == made(things[n - 1]) && picks(
            things,
            n - 1,
            chosen,
            made,
            list.drop_last(),
        )
    } else {
        picks(things, n - 1, chosen, made, list)
    }
}

proof fn lemma_is_ahead(db: DatabaseView, entry: ManifestEntry)
    ensures
        wanted_of(db, entry) == (if is_ahead(db, entry) {
            Some(latest_of(db, entry))
        } else {
            None
        }),
{
    let ours = db.history(entry.file_id);
    let theirs = entry.history@;
    let our_hashes = hashes(ours);
    let their_hashes = announced_hashes(theirs);
    if ours.len() > 0 && theirs.len() > 0 {
        let latest = their_hashes.last();
        assert(latest == theirs[theirs.len() - 1].1@);
        assert(our_hashes.last() == ours[ours.len() - 1].content_hash);
        assert(our_hashes.contains(latest) <==> exists|k: int|
            0 <= k < ours.len() && (#[trigger] ours[k]).content_hash == latest) by {
            if our_hashes.contains(latest) {
                let k = choose|k: int| 0 <= k < our_hashes.len() && our_hashes[k] == latest;
                assert(ours[k].content_hash == latest);
            }
            if exists|k: int| 0 <= k < ours.len() && (#[trigger] ours[k]).content_hash == latest {
                let k = choose|k: int|
                    0 <= k < ours.len() && (#[trigger] ours[k]).content_hash == latest;
                assert(our_hashes[k] == latest);
            }
        }
        let mine = our_hashes.last();
        assert(their_hashes.contains(mine) <==> exists|k: int|
            0 <= k < theirs.len() && (#[trigger] theirs[k]).1@ == mine) by {
            if their_hashes.contains(mine) {
                let k = choose|k: int| 0 <= k < their_hashes.len() && their_hashes[k] == mine;
                assert(theirs[k].1@ == mine);
            }
            if exists|k: int| 0 <= k < theirs.len() && (#[trigger] theirs[k]).1@ == mine {
                let k = choose|k: int| 0 <= k < theirs.len() && (#[trigger] theirs[k]).1@ == mine;
                assert(their_hashes[k] == mine);
            }
        }
    }
}

proof fn lemma_wanted_picks(db: DatabaseView, entries: Seq<ManifestEntry>, n: int)
    requires
        0 <= n <= entries.len(),
    ensures
        picks(
            entries,
            n,
            |e: ManifestEntry| is_ahead(db, e),
            |e: ManifestEntry| latest_of(db, e),
            wanted_of_first(db, entries, n),
        ),
    decreases n,
{
    if n > 0 {
        lemma_wanted_picks(db, entries, n - 1);
        lemma_is_ahead(db, entries[n - 1]);
        let before = wanted_of_first(db, entries, n - 1);
        if is_ahead(db, entries[n - 1]) {
            assert(before.push(latest_of(db, entries[n - 1])).drop_last() =~= before);
        }
    }
}

/// A peer's manifest has just those files pulled of which the peer is ahead, each once and
/// in order: the peer's latest version, placed by whether the file is known here.
pub proof fn law_what_is_pulled_of_a_manifest(db: DatabaseView, entries: Seq<ManifestEntry>)
    ensures
        picks(
            entries,
            entries.len() as int,
            |e: ManifestEntry| is_ahead(db, e),
            |e: ManifestEntry| latest_of(db, e),
            wanted_of_first(db, entries, entries.len() as int),
        ),
{
    lemma_wanted_picks(db, entries, entries.len() as int);
}

/// A decision says why: a file without a version here is unknown, one whose latest version
/// the peer knows is behind, and of two that know nothing of each other the one observed
/// later wins.
pub proof fn law_a_decision_says_why(db: DatabaseView, entry: ManifestEntry)
    requires
        entry.history@.len() > 0,
    ensures
        ({
            let ours = db.history(entry.file_id);
            &&& ours.len() == 0 ==> decision_on(db, entry) == ReconcileDecision::Request(
                RequestReason::UnknownFile,
            )
            &&& ours.len() > 0 ==> (decision_on(db, entry) matches ReconcileDecision::Request(
                reason,
            ) ==> reason == RequestReason::WeAreBehind)
            &&& decision_on(db, entry) matches ReconcileDecision::Divergent {
                ours_observed_at,
                request,
            } ==> ours_observed_at == ours.last().observed_at && request == (
            entry.latest_observed_at > ours.last().observed_at)
            &&& requests(decision_on(db, entry)) == is_ahead(db, entry)
        }),
{
    lemma_is_ahead(db, entry);
}

proof fn lemma_definitions_picks(db: DatabaseView, definitions: Seq<TagManifestEntry>, n: int)
    requires
        0 <= n <= definitions.len(),
    ensures
        picks(
            definitions,
            n,
            |d: TagManifestEntry|
                !db.tags.contains_key(d.tag_id) || d.modified_at > db.tags[d.tag_id].modified_at,
            |d: TagManifestEntry| d.tag_id,
            definitions_needed(db, definitions, n),
        ),
    decreases n,
{
    if n > 0 {
        lemma_definitions_picks(db, definitions, n - 1);
        let before = definitions_needed(db, definitions, n - 1);
        assert(before.push(definitions[n - 1].tag_id).drop_last() =~= before);
    }
}

/// A peer's tag manifest has just those definitions asked for that are unknown or newer than
/// ours, each once and in order.
pub proof fn law_which_definitions_are_asked_for(
    db: DatabaseView,
    definitions: Seq<TagManifestEntry>,
)
    ensures
        picks(
            definitions,
            definitions.len() as int,
            |d: TagManifestEntry|
                !db.tags.contains_key(d.tag_id) || d.modified_at > db.tags[d.tag_id].modified_at,
            |d: TagManifestEntry| d.tag_id,
            definitions_needed(db, definitions, definitions.len() as int),
        ),
{
    lemma_definitions_picks(db, definitions, definitions.len() as int);
}

/// What an announced relationship is about.
pub open spec fn key_of(entry: RelationshipManifestEntry, target: u128) -> EntryKey {
    EntryKey {
        tag_id: entry.tag_id,
        target,
        kind: match entry.kind {
            RelationshipKind::File => EntryType::File,
            RelationshipKind::Tag => EntryType::Tag,
        },
    }
}

/// Whether an announced relationship is unknown or newer than ours.
pub open spec fn is_newer(db: DatabaseView, entry: RelationshipManifestEntry) -> bool {
    match uuid_value(entry.target_id@) {
        Some(target) => {
            let key = key_of(entry, target);
            !db.entries.contains_key(key) || entry.modified_at > db.entries[key].modified_at
        },
        None => false,
    }
}

proof fn lemma_news_picks(db: DatabaseView, entries: Seq<RelationshipManifestEntry>, n: int)
    requires
        0 <= n <= entries.len(),
    ensures
        picks(
            entries,
            n,
            |e: RelationshipManifestEntry| is_newer(db, e),
            |e: RelationshipManifestEntry| change_of(e)->0,
            news(db, entries, n),
        ),
    decreases n,
{
    if n > 0 {
        lemma_news_picks(db, entries, n - 1);
        let before = news(db, entries, n - 1);
        let entry = entries[n - 1];
        match uuid_value(entry.target_id@) {
            Some(target) => {
                assert(entry_key(entry, target) == key_of(entry, target));
            },
            None => {},
        }
        assert(before.push(change_of(entry)->0).drop_last() =~= before);
    }
}

/// A peer's tag manifest leads to a change for each relationship that is unknown or newer
/// than ours, once and in order: a tagging where it holds and an untagging where it does
/// not, of a file or of a tag as it is announced, with the peer's stamp.
pub proof fn law_which_relationships_are_taken_over(
    db: DatabaseView,
    entries: Seq<RelationshipManifestEntry>,
    entry: RelationshipManifestEntry,
    target: u128,
)
    ensures
        picks(
            entries,
            entries.len() as int,
            |e: RelationshipManifestEntry| is_newer(db, e),
            |e: RelationshipManifestEntry| change_of(e)->0,
            news(db, entries, entries.len() as int),
        ),
        uuid_value(entry.target_id@) == Some(target) ==> (change_of(entry) matches Some(change)
            && relationship_of(change) == Some(
            (
                key_of(entry, target),
                EntryState { modified_at: entry.modified_at, deleted: entry.deleted },
            ),
        )),
        uuid_value(entry.target_id@) is None ==> change_of(entry) is None,
{
    lemma_news_picks(db, entries, entries.len() as int);
}

/// What a device announces of its files is what it has on record: each known file that has a
/// version, with its path, its versions in order and the time of the latest.
pub proof fn law_a_device_announces_what_it_has(
    db: DatabaseView,
    rows: Seq<ManifestRow>,
    entries: Seq<ManifestEntry>,
    file_id: FileId,
    i: int,
    k: int,
)
    requires
        is_manifest(db, rows),
        spells_rows(entries, rows),
    ensures
        (exists|j: int| 0 <= j < entries.len() && (#[trigger] entries[j]).file_id == file_id)
            <==> db.files.contains_key(file_id) && db.versions.contains_key(file_id),
        0 <= i < entries.len() ==> {
            let history = db.versions[entries[i].file_id];
            &&& entries[i].logical_path@ == db.files[entries[i].file_id]
            &&& entries[i].latest_observed_at == history[history.len() - 1].observed_at
            &&& entries[i].history@.len() == history.len()
            &&& 0 <= k < history.len() ==> entries[i].history@[k].0 == history[k].version_number
                && entries[i].history@[k].1@ == history[k].content_hash
        },
{
    law_a_manifest_says_what_is_on_record(db, rows, file_id, i, k);
    if exists|j: int| 0 <= j < rows.len() && (#[trigger] rows[j]).0 == file_id {
        let j = choose|j: int| 0 <= j < rows.len() && (#[trigger] rows[j]).0 == file_id;
        assert(entries[j].file_id == file_id);
    }
    if exists|j: int| 0 <= j < entries.len() && (#[trigger] entries[j]).file_id == file_id {
        let j = choose|j: int| 0 <= j < entries.len() && (#[trigger] entries[j]).file_id == file_id;
        assert(rows[j].0 == file_id);
    }
}

} // verus!
