//! The relational state of the daemon.

use std::collections::BTreeSet;

use tagnetd::database::short_ids::{normalise_id_prefix, resolve_id_prefix, PrefixResolution};
use tagnetd::database::{stamp, DatabaseError, FileDatabase, SubtagRule};
use tagnetd::ids::{FileId, TagId};
use tagnetd::state::{LogicalPath, RelationshipKind, RelationshipManifestEntry};

fn memory_db() -> FileDatabase {
    FileDatabase::new()
}

#[test]
fn logical_path_for_file_id_roundtrips() {
    let mut database = memory_db();
    let file_id = FileId::new();
    database
        .add_file(file_id, &LogicalPath::new("photos/cat.jpg"))
        .unwrap();

    assert_eq!(
        database.logical_path_for_file_id(file_id).unwrap(),
        LogicalPath::new("photos/cat.jpg")
    );
}

#[test]
fn logical_path_for_file_id_missing_is_not_found() {
    let mut database = memory_db();
    let missing = FileId::new();
    assert!(matches!(
        database.logical_path_for_file_id(missing),
        Err(DatabaseError::MissingFile)
    ));
}

#[test]
fn get_all_files_reports_latest_version() {
    let mut database = memory_db();
    let file_id = FileId::new();
    database
        .add_file(file_id, &LogicalPath::new("a.txt"))
        .unwrap();

    // Two versions; get_all_files must report the latest (higher
    // version_number), not the first.
    let v1 = database
        .record_version(file_id, "hash-v1", "local")
        .unwrap();
    let v2 = database
        .record_version(file_id, "hash-v2", "local")
        .unwrap();
    assert!(v2 > v1);

    let files = database.get_all_files().unwrap();
    assert_eq!(files.len(), 1);
    let info = &files[0];
    assert_eq!(info.file_id, file_id);
    assert_eq!(info.logical_path, LogicalPath::new("a.txt"));
    assert_eq!(info.content_hash, "hash-v2");
    assert_eq!(info.version_number, v2);
}

#[test]
fn reverting_to_an_old_hash_becomes_the_new_latest_version() {
    // Regression: reverting a file's content back to a hash it held earlier
    // must record a *new* latest version with that hash — not be treated as
    // a duplicate/no-op. The change-ingest path keys "do we already hold
    // this?" off `latest_version`, so this is the invariant it relies on:
    // an old hash reappearing is the current version again only after a new
    // version row is recorded.
    let mut database = memory_db();
    let file_id = FileId::new();
    database
        .add_file(file_id, &LogicalPath::new("a.txt"))
        .unwrap();

    database.record_version(file_id, "hash-A", "local").unwrap();
    database.record_version(file_id, "hash-B", "local").unwrap();
    // Current version is B, but A is still in history.
    assert_eq!(
        database
            .latest_version(file_id)
            .unwrap()
            .unwrap()
            .content_hash,
        "hash-B"
    );

    // Revert to A: a new version whose hash is the old A.
    let reverted = database.record_version(file_id, "hash-A", "local").unwrap();
    let latest = database.latest_version(file_id).unwrap().unwrap();
    assert_eq!(latest.content_hash, "hash-A");
    assert_eq!(latest.version_number, reverted);
    // History now has three entries: A, B, A.
    let history = database.version_history(file_id).unwrap();
    assert_eq!(
        history.iter().map(|(_, h)| h.as_str()).collect::<Vec<_>>(),
        vec!["hash-A", "hash-B", "hash-A"]
    );
}

#[test]
fn get_all_files_excludes_files_without_versions() {
    let mut database = memory_db();
    // A file row with no recorded version: the inner join drops it.
    database
        .add_file(FileId::new(), &LogicalPath::new("orphan.txt"))
        .unwrap();

    assert!(database.get_all_files().unwrap().is_empty());
}

#[test]
fn get_all_files_empty_when_no_files() {
    let mut database = memory_db();
    assert!(database.get_all_files().unwrap().is_empty());
}

/// Build a `FileId` from a 32-char hex string so tests can control the
/// exact prefix relationships between ids.
fn file_id_from_hex(hex: &str) -> FileId {
    FileId::from_string(hex).expect("valid hex uuid")
}

#[test]
fn shorten_file_id_single_file_needs_one_char() {
    let mut database = memory_db();
    let only = file_id_from_hex("00000000000000000000000000000001");
    database.add_file(only, &LogicalPath::new("a")).unwrap();

    // No neighbours -> a single character already uniquely identifies it.
    assert_eq!(database.shorten_file_id(only).unwrap(), 1);
}

#[test]
fn shorten_file_id_grows_prefix_to_disambiguate_neighbours() {
    let mut database = memory_db();
    // Three ids: two share the leading `abcd`, one is far away.
    let shared_a = file_id_from_hex("abcd000000000000000000000000000a");
    let shared_b = file_id_from_hex("abcd000000000000000000000000000b");
    let far = file_id_from_hex("ffff000000000000000000000000000f");
    for (id, name) in [(shared_a, "a"), (shared_b, "b"), (far, "c")] {
        database.add_file(id, &LogicalPath::new(name)).unwrap();
    }

    // shared_a and shared_b agree on `abcd00...000` up to the final hex
    // char, so they must be distinguished at the last differing position.
    let len_a = database.shorten_file_id(shared_a).unwrap();
    let len_b = database.shorten_file_id(shared_b).unwrap();
    let a = shared_a.to_string();
    let b = shared_b.to_string();
    // The prefix of each must exclude the other.
    assert!(!b.starts_with(&a[..len_a]));
    assert!(!a.starts_with(&b[..len_b]));

    // The far id only needs one char (`f`), since neither neighbour shares
    // its first character.
    assert_eq!(database.shorten_file_id(far).unwrap(), 1);
}

#[test]
fn shorten_file_id_missing_is_not_found() {
    let mut database = memory_db();
    assert!(matches!(
        database.shorten_file_id(FileId::new()),
        Err(DatabaseError::MissingFile)
    ));
}

#[test]
fn get_all_files_reports_short_id_length() {
    let mut database = memory_db();
    let shared_a = file_id_from_hex("abcd000000000000000000000000000a");
    let shared_b = file_id_from_hex("abcd000000000000000000000000000b");
    for (id, name) in [(shared_a, "a"), (shared_b, "b")] {
        database.add_file(id, &LogicalPath::new(name)).unwrap();
        database.record_version(id, "hash", "local").unwrap();
    }

    let files = database.get_all_files().unwrap();
    // Both ids share all but the final character, so the short id must be
    // the full length to disambiguate.
    for info in &files {
        let full = info.file_id.to_string();
        assert_eq!(info.short_id_length, full.len());
    }
}

/// A short id is told apart from all files, those without a version among them.
#[test]
fn listed_short_ids_are_unique_among_all_files() {
    let mut database = memory_db();
    let a = file_id_from_hex("abcd000000000000000000000000000a");
    let b = file_id_from_hex("abcd000000000000000000000000000b");
    database.add_file(a, &LogicalPath::new("a")).unwrap();
    database.record_version(a, "hash", "local").unwrap();
    database.add_file(b, &LogicalPath::new("b")).unwrap();
    let files = database.get_all_files().unwrap();
    assert_eq!(files.len(), 1);
    assert_eq!(files[0].file_id, a);
    assert_eq!(files[0].logical_path, LogicalPath::new("a"));
    assert_eq!(files[0].content_hash, "hash");
    assert_eq!(files[0].version_number, 1);
    assert_eq!(files[0].short_id_length, 32);
}

#[test]
fn resolve_file_id_prefix_unique_short_prefix() {
    let mut database = memory_db();
    let far_a = file_id_from_hex("aaaa000000000000000000000000000a");
    let far_b = file_id_from_hex("bbbb000000000000000000000000000b");
    database.add_file(far_a, &LogicalPath::new("a")).unwrap();
    database.add_file(far_b, &LogicalPath::new("b")).unwrap();

    // A single leading char is enough to pick each out.
    assert_eq!(database.resolve_file_id_prefix("a").unwrap(), far_a);
    assert_eq!(database.resolve_file_id_prefix("b").unwrap(), far_b);
}

#[test]
fn resolve_file_id_prefix_accepts_full_and_hyphenated_forms() {
    let mut database = memory_db();
    let id = file_id_from_hex("7f3a1b2c4d5e6f708192a3b4c5d6e7f8");
    database.add_file(id, &LogicalPath::new("a")).unwrap();

    // Full hex form.
    assert_eq!(
        database
            .resolve_file_id_prefix("7f3a1b2c4d5e6f708192a3b4c5d6e7f8")
            .unwrap(),
        id
    );
    // Hyphenated form (hyphens are stripped before matching).
    assert_eq!(
        database
            .resolve_file_id_prefix("7f3a1b2c-4d5e-6f70-8192-a3b4c5d6e7f8")
            .unwrap(),
        id
    );
}

#[test]
fn resolve_file_id_prefix_ambiguous_is_reported() {
    let mut database = memory_db();
    let shared_a = file_id_from_hex("abcd000000000000000000000000000a");
    let shared_b = file_id_from_hex("abcd000000000000000000000000000b");
    database.add_file(shared_a, &LogicalPath::new("a")).unwrap();
    database.add_file(shared_b, &LogicalPath::new("b")).unwrap();

    // `abcd` matches both.
    assert!(matches!(
        database.resolve_file_id_prefix("abcd"),
        Err(DatabaseError::AmbiguousIdPrefix(prefix)) if prefix == "abcd"
    ));
}

#[test]
fn resolve_file_id_prefix_unknown_is_missing() {
    let mut database = memory_db();
    database
        .add_file(
            file_id_from_hex("aaaa000000000000000000000000000a"),
            &LogicalPath::new("a"),
        )
        .unwrap();

    assert!(matches!(
        database.resolve_file_id_prefix("ffff"),
        Err(DatabaseError::MissingFile)
    ));
}

#[test]
fn resolve_file_id_prefix_rejects_non_hex() {
    let mut database = memory_db();
    // `zzzz` is not hex; normalisation fails and it resolves to nothing.
    assert!(matches!(
        database.resolve_file_id_prefix("zzzz"),
        Err(DatabaseError::MissingFile)
    ));
}

#[test]
fn shorten_then_resolve_roundtrips() {
    let mut database = memory_db();
    let shared_a = file_id_from_hex("abcd000000000000000000000000000a");
    let shared_b = file_id_from_hex("abcd000000000000000000000000000b");
    let far = file_id_from_hex("ffff000000000000000000000000000f");
    for (id, name) in [(shared_a, "a"), (shared_b, "b"), (far, "c")] {
        database.add_file(id, &LogicalPath::new(name)).unwrap();
        database.record_version(id, "hash", "local").unwrap();
    }

    // Each file's displayed short id must resolve back to exactly itself.
    for info in database.get_all_files().unwrap() {
        let full = info.file_id.to_string();
        let short = &full[..info.short_id_length];
        assert_eq!(
            database.resolve_file_id_prefix(short).unwrap(),
            info.file_id,
            "short id {short} should resolve to its own file"
        );
    }
}

// --- Tag short-id resolution ---------------------------------------------

/// Build a `TagId` from a 32-char hex string so tests can control the exact
/// prefix relationships between ids.
fn tag_id_from_hex(hex: &str) -> TagId {
    TagId::from_string(hex).expect("valid hex uuid")
}

#[test]
fn resolve_tag_id_prefix_unique_short_prefix() {
    let mut database = memory_db();
    let far_a = tag_id_from_hex("aaaa000000000000000000000000000a");
    let far_b = tag_id_from_hex("bbbb000000000000000000000000000b");
    database.add_tag(far_a, "a", "red", 1).unwrap();
    database.add_tag(far_b, "b", "red", 1).unwrap();

    assert_eq!(database.resolve_tag_id_prefix("a").unwrap(), far_a);
    assert_eq!(database.resolve_tag_id_prefix("b").unwrap(), far_b);
}

#[test]
fn resolve_tag_id_prefix_ambiguous_is_reported() {
    let mut database = memory_db();
    let shared_a = tag_id_from_hex("abcd000000000000000000000000000a");
    let shared_b = tag_id_from_hex("abcd000000000000000000000000000b");
    database.add_tag(shared_a, "a", "red", 1).unwrap();
    database.add_tag(shared_b, "b", "red", 1).unwrap();

    assert!(matches!(
        database.resolve_tag_id_prefix("abcd"),
        Err(DatabaseError::AmbiguousIdPrefix(prefix)) if prefix == "abcd"
    ));
}

#[test]
fn resolve_tag_id_prefix_unknown_is_missing() {
    let mut database = memory_db();
    database
        .add_tag(
            tag_id_from_hex("aaaa000000000000000000000000000a"),
            "a",
            "red",
            1,
        )
        .unwrap();

    assert!(matches!(
        database.resolve_tag_id_prefix("ffff"),
        Err(DatabaseError::MissingTag)
    ));
}

#[test]
fn shorten_then_resolve_tag_roundtrips() {
    let mut database = memory_db();
    let shared_a = tag_id_from_hex("abcd000000000000000000000000000a");
    let shared_b = tag_id_from_hex("abcd000000000000000000000000000b");
    let far = tag_id_from_hex("ffff000000000000000000000000000f");
    for (id, name) in [(shared_a, "a"), (shared_b, "b"), (far, "c")] {
        database.add_tag(id, name, "red", 1).unwrap();
    }

    // Each tag's displayed short id must resolve back to exactly itself.
    for tag in database.get_all_tags().unwrap() {
        let full = tag.id.to_string();
        let length = database.shorten_tag_id(tag.id).unwrap();
        let short = &full[..length];
        assert_eq!(
            database.resolve_tag_id_prefix(short).unwrap(),
            tag.id,
            "short id {short} should resolve to its own tag"
        );
    }
}

// --- Tag hierarchy (subtags) ---------------------------------------------

#[test]
fn tag_tag_then_subtag_ids_lists_children() {
    let mut database = memory_db();
    let parent = TagId::new();
    let child_a = TagId::new();
    let child_b = TagId::new();
    for (id, name) in [(parent, "parent"), (child_a, "a"), (child_b, "b")] {
        database.add_tag(id, name, "red", 1).unwrap();
    }

    database.tag_tag(parent, child_a, 10).unwrap();
    database.tag_tag(parent, child_b, 10).unwrap();

    let subtags: BTreeSet<TagId> = database
        .subtag_ids_for_tag(parent, SubtagRule::Exclude)
        .unwrap()
        .into_iter()
        .collect();
    assert_eq!(subtags, BTreeSet::from([child_a, child_b]));
}

#[test]
fn subtag_ids_include_walks_transitively() {
    let mut database = memory_db();
    let grandparent = TagId::new();
    let parent = TagId::new();
    let child = TagId::new();
    for (id, name) in [(grandparent, "gp"), (parent, "p"), (child, "c")] {
        database.add_tag(id, name, "red", 1).unwrap();
    }

    database.tag_tag(grandparent, parent, 10).unwrap();
    database.tag_tag(parent, child, 10).unwrap();

    // Direct only: just `parent`.
    let direct: BTreeSet<TagId> = database
        .subtag_ids_for_tag(grandparent, SubtagRule::Exclude)
        .unwrap()
        .into_iter()
        .collect();
    assert_eq!(direct, BTreeSet::from([parent]));

    // Transitive: `parent` and `child`.
    let transitive: BTreeSet<TagId> = database
        .subtag_ids_for_tag(grandparent, SubtagRule::Include)
        .unwrap()
        .into_iter()
        .collect();
    assert_eq!(transitive, BTreeSet::from([parent, child]));
}

#[test]
fn untag_tag_removes_child_from_subtags() {
    let mut database = memory_db();
    let parent = TagId::new();
    let child = TagId::new();
    database.add_tag(parent, "parent", "red", 1).unwrap();
    database.add_tag(child, "child", "red", 1).unwrap();

    database.tag_tag(parent, child, 10).unwrap();
    database.untag_tag(parent, child, 20).unwrap();

    let subtags: Vec<TagId> = database
        .subtag_ids_for_tag(parent, SubtagRule::Exclude)
        .unwrap()
        .into_iter()
        .collect();
    assert!(subtags.is_empty());
}

#[test]
fn tag_tag_rejects_self() {
    let mut database = memory_db();
    let tag = TagId::new();
    database.add_tag(tag, "t", "red", 1).unwrap();
    assert!(matches!(
        database.tag_tag(tag, tag, 10),
        Err(DatabaseError::CantTagItself)
    ));
}

// --- Tag last-writer-wins ------------------------------------------------

#[test]
fn add_tag_newer_modified_at_wins_older_is_noop() {
    let mut database = memory_db();
    let tag_id = TagId::new();

    database.add_tag(tag_id, "work", "red", 100).unwrap();
    // A newer definition overwrites.
    database.add_tag(tag_id, "job", "blue", 200).unwrap();
    let (name, color, modified_at) = database.tag_definition(tag_id).unwrap().unwrap();
    assert_eq!(
        (name.as_str(), color.as_str(), modified_at),
        ("job", "blue", 200)
    );

    // A stale definition (older modified_at) must not clobber.
    database.add_tag(tag_id, "stale", "green", 150).unwrap();
    let (name, _, modified_at) = database.tag_definition(tag_id).unwrap().unwrap();
    assert_eq!((name.as_str(), modified_at), ("job", 200));
}

#[test]
fn update_tag_name_respects_lww() {
    let mut database = memory_db();
    let tag_id = TagId::new();
    database.add_tag(tag_id, "work", "red", 100).unwrap();

    // Older rename loses.
    database.update_tag_name(tag_id, "old", 50).unwrap();
    assert_eq!(database.tag_definition(tag_id).unwrap().unwrap().0, "work");

    // Newer rename wins.
    database.update_tag_name(tag_id, "new", 300).unwrap();
    assert_eq!(database.tag_definition(tag_id).unwrap().unwrap().0, "new");
}

#[test]
fn duplicate_tag_names_coexist() {
    // UNIQUE(name) was relaxed: two tags may share a name.
    let mut database = memory_db();
    let a = TagId::new();
    let b = TagId::new();
    database.add_tag(a, "work", "red", 100).unwrap();
    database.add_tag(b, "work", "blue", 100).unwrap();

    assert!(database.tag_definition(a).unwrap().is_some());
    assert!(database.tag_definition(b).unwrap().is_some());
    let all: Vec<_> = database.get_all_tags().unwrap().into_iter().collect();
    assert_eq!(all.len(), 2);
}

#[test]
fn tag_file_then_untag_soft_deletes_and_hides_from_reads() {
    let mut database = memory_db();
    let file_id = FileId::new();
    let tag_id = TagId::new();
    database
        .add_file(file_id, &LogicalPath::new("a.txt"))
        .unwrap();

    database.tag_file(tag_id, file_id, 100).unwrap();
    let tags: Vec<_> = database
        .tag_ids_for_file(file_id, SubtagRule::Exclude)
        .unwrap()
        .into_iter()
        .collect();
    assert_eq!(tags, vec![tag_id]);

    // Untag soft-deletes: the read no longer sees it...
    database.untag_file(tag_id, file_id, 200).unwrap();
    let tags: Vec<_> = database
        .tag_ids_for_file(file_id, SubtagRule::Exclude)
        .unwrap()
        .into_iter()
        .collect();
    assert!(tags.is_empty());

    // ...but the tombstone row survives for reconciliation.
    let manifest = database.relationship_manifest_entries().unwrap();
    assert_eq!(manifest.len(), 1);
    assert!(manifest[0].deleted);
    assert_eq!(manifest[0].modified_at, 200);
}

#[test]
fn stale_untag_does_not_override_newer_tag() {
    let mut database = memory_db();
    let file_id = FileId::new();
    let tag_id = TagId::new();
    database
        .add_file(file_id, &LogicalPath::new("a.txt"))
        .unwrap();

    // Tag at t=200, then a stale untag at t=100 arrives out of order.
    database.tag_file(tag_id, file_id, 200).unwrap();
    database.untag_file(tag_id, file_id, 100).unwrap();

    // The tag must still be present (newer wins).
    let tags: Vec<_> = database
        .tag_ids_for_file(file_id, SubtagRule::Exclude)
        .unwrap()
        .into_iter()
        .collect();
    assert_eq!(tags, vec![tag_id]);
}

#[test]
fn retag_after_untag_revives_row() {
    let mut database = memory_db();
    let file_id = FileId::new();
    let tag_id = TagId::new();
    database
        .add_file(file_id, &LogicalPath::new("a.txt"))
        .unwrap();

    database.tag_file(tag_id, file_id, 100).unwrap();
    database.untag_file(tag_id, file_id, 200).unwrap();
    database.tag_file(tag_id, file_id, 300).unwrap();

    let tags: Vec<_> = database
        .tag_ids_for_file(file_id, SubtagRule::Exclude)
        .unwrap()
        .into_iter()
        .collect();
    assert_eq!(tags, vec![tag_id]);
    // Still a single row (revived, not duplicated).
    assert_eq!(database.relationship_manifest_entries().unwrap().len(), 1);
}

#[test]
fn apply_relationship_reconciles_tombstone_with_lww() {
    let mut database = memory_db();
    let file_id = FileId::new();
    let tag_id = TagId::new();
    database
        .add_file(file_id, &LogicalPath::new("a.txt"))
        .unwrap();

    // Locally the file is tagged at t=100.
    database.tag_file(tag_id, file_id, 100).unwrap();

    // A peer's manifest carries a newer tombstone (untagged at t=200).
    let incoming = RelationshipManifestEntry {
        tag_id,
        target_id: file_id.to_string(),
        kind: RelationshipKind::File,
        modified_at: 200,
        deleted: true,
    };
    database.apply_relationship(&incoming).unwrap();

    // The newer tombstone wins: the tag is now absent.
    let tags: Vec<_> = database
        .tag_ids_for_file(file_id, SubtagRule::Exclude)
        .unwrap()
        .into_iter()
        .collect();
    assert!(tags.is_empty());

    // A stale "present" (t=150) from another peer must not resurrect it.
    let stale = RelationshipManifestEntry {
        tag_id,
        target_id: file_id.to_string(),
        kind: RelationshipKind::File,
        modified_at: 150,
        deleted: false,
    };
    database.apply_relationship(&stale).unwrap();
    let tags: Vec<_> = database
        .tag_ids_for_file(file_id, SubtagRule::Exclude)
        .unwrap()
        .into_iter()
        .collect();
    assert!(tags.is_empty());
}

#[test]
fn tag_manifest_entries_reports_all_definitions() {
    let mut database = memory_db();
    let a = TagId::new();
    let b = TagId::new();
    database.add_tag(a, "one", "red", 111).unwrap();
    database.add_tag(b, "two", "blue", 222).unwrap();

    let mut entries = database.tag_manifest_entries().unwrap();
    entries.sort_by_key(|entry| entry.modified_at);
    assert_eq!(entries.len(), 2);
    assert_eq!(entries[0].modified_at, 111);
    assert_eq!(entries[1].modified_at, 222);
}

const T: TagId = TagId { value: 1 };
const U: TagId = TagId { value: 2 };
const F: FileId = FileId { value: 3 };
const G: FileId = FileId { value: 4 };

#[test]
fn files_and_tags_are_found_by_name() {
    let mut database = memory_db();
    database.add_file(G, &LogicalPath::new("a.txt")).unwrap();
    database.add_file(F, &LogicalPath::new("a.txt")).unwrap();
    database.add_tag(U, "work", "red", 1).unwrap();
    database.add_tag(T, "work", "red", 1).unwrap();
    assert_eq!(database.file_id_from_logical_path(&LogicalPath::new("a.txt")), Ok(F));
    assert_eq!(
        database.file_id_from_logical_path(&LogicalPath::new("b.txt")),
        Err(DatabaseError::MissingFile)
    );
    assert_eq!(database.tag_id_from_name("work"), Ok(T));
    assert_eq!(database.tag_id_from_name("Work"), Err(DatabaseError::MissingTag));
}

#[test]
fn a_removed_file_keeps_its_versions() {
    let mut database = memory_db();
    database.add_file(F, &LogicalPath::new("a.txt")).unwrap();
    assert_eq!(
        database.add_file(F, &LogicalPath::new("b.txt")),
        Err(DatabaseError::FailedToExecuteCommand)
    );
    assert_eq!(database.record_version_at(F, "h1", "local", 10), Ok(1));
    assert_eq!(database.record_version_at(F, "h2", "local", 5), Ok(2));
    database.update_file_logical_path(F, &LogicalPath::new("c.txt")).unwrap();
    assert_eq!(database.logical_path_for_file_id(F).unwrap().as_str(), "c.txt");
    let rows = database.manifest_entries().unwrap();
    assert_eq!(rows.len(), 1);
    assert_eq!(rows[0].1, vec![(1, "h1".to_owned()), (2, "h2".to_owned())]);
    assert_eq!((rows[0].0, rows[0].2, rows[0].3.as_str()), (F, 5, "c.txt"));
    assert_eq!(database.file_info_from_id(F).unwrap().version_number, 2);

    database.remove_file(F).unwrap();
    assert_eq!(database.file_exists(F), Ok(false));
    assert_eq!(database.file_info_from_id(F), Err(DatabaseError::MissingFile));
    assert_eq!(database.manifest_entries().unwrap().len(), 0);
    assert_eq!(database.version_history(F).unwrap().len(), 2);
    let hashes = database.latest_content_hashes().unwrap();
    assert_eq!(hashes.len(), 1);
    assert_eq!(hashes.get(F), Some(&"h2".to_owned()));
    assert_eq!(hashes.get(G), None);
}

#[test]
fn removing_a_tag_clears_its_relationships() {
    let mut database = memory_db();
    for (tag_id, name) in [(T, "t"), (U, "u")] {
        database.add_tag(tag_id, name, "red", 1).unwrap();
        database.tag_file(tag_id, F, 1).unwrap();
    }
    database.tag_tag(U, T, 1).unwrap();
    assert_eq!(database.tag_ids_for_subtag(T, SubtagRule::Exclude), Ok(vec![U]));
    database.remove_tag(T).unwrap();
    assert_eq!(database.tag_exists(T), Ok(false));
    assert_eq!(database.tag_modified_at(T), Ok(None));
    assert_eq!(database.tag_modified_at(U), Ok(Some(1)));
    let left = database.relationship_manifest_entries().unwrap();
    assert_eq!(left.len(), 1);
    assert_eq!((left[0].tag_id, left[0].target_id.as_str()), (U, F.to_string().as_str()));
    assert_eq!(
        database.relationship_modified_at(U, &F.to_string(), RelationshipKind::File.into()),
        Ok(Some(1))
    );
    assert_eq!(
        database.relationship_modified_at(T, &F.to_string(), RelationshipKind::File.into()),
        Ok(None)
    );
}

#[test]
fn definitions_need_a_name_and_a_color() {
    let mut database = memory_db();
    assert_eq!(database.add_tag(T, "", "red", 1), Err(DatabaseError::InvalidTagName));
    assert_eq!(database.add_tag(T, "t", "", 1), Err(DatabaseError::InvalidColor));
    database.add_tag(T, "t", "red", 1).unwrap();
    assert_eq!(database.update_tag_name(T, "", 2), Err(DatabaseError::InvalidTagName));
    assert_eq!(database.update_tag_color(T, "", 2), Err(DatabaseError::InvalidColor));
    database.update_tag_color(T, "blue", 3).unwrap();
    database.update_tag_color(T, "green", 3).unwrap();
    let tag = database.tag_from_id(T).unwrap();
    assert_eq!((tag.name.as_str(), tag.color.as_str()), ("t", "blue"));
    assert_eq!(database.tag_from_id(U), Err(DatabaseError::MissingTag));
}

/// Whatever the order in which definitions and states arrive, the newest stay.
#[test]
fn the_order_of_arrival_does_not_matter() {
    let state = |modified_at: i64, deleted: bool| RelationshipManifestEntry {
        tag_id: T,
        target_id: F.to_string(),
        kind: RelationshipKind::File,
        modified_at,
        deleted,
    };
    let mut one = memory_db();
    one.add_tag(T, "old", "red", 1).unwrap();
    one.add_tag(T, "new", "blue", 2).unwrap();
    one.apply_relationship(&state(5, false)).unwrap();
    one.apply_relationship(&state(7, true)).unwrap();
    let mut other = memory_db();
    other.apply_relationship(&state(7, true)).unwrap();
    other.apply_relationship(&state(5, false)).unwrap();
    other.add_tag(T, "new", "blue", 2).unwrap();
    other.add_tag(T, "old", "red", 1).unwrap();
    assert_eq!(one.get_all_tags(), other.get_all_tags());
    assert_eq!(one.relationship_manifest_entries(), other.relationship_manifest_entries());
    assert_eq!(one.relationship_manifest_entries(), Ok(vec![state(7, true)]));
    let unreadable = RelationshipManifestEntry { target_id: "x".to_owned(), ..state(9, false) };
    assert_eq!(
        one.apply_relationship(&unreadable),
        Err(DatabaseError::FailedToExecuteCommand)
    );
}

#[test]
fn typed_prefixes_are_normalised() {
    assert_eq!(normalise_id_prefix("A1-b2"), Some("a1b2".to_owned()));
    assert_eq!(normalise_id_prefix("xyz"), None);
    assert_eq!(normalise_id_prefix("--"), None);
    let ids = vec![0x10, 0x11, u128::MAX];
    let zeros = "0".repeat(30);
    assert!(matches!(
        resolve_id_prefix(&ids, "f"),
        PrefixResolution::Unique(text) if text == "f".repeat(32)
    ));
    assert!(matches!(
        resolve_id_prefix(&ids, &format!("{zeros}11")),
        PrefixResolution::Unique(text) if text == format!("{zeros}11")
    ));
    assert!(matches!(resolve_id_prefix(&ids, "0"), PrefixResolution::Ambiguous));
    assert!(matches!(resolve_id_prefix(&ids, "1"), PrefixResolution::NotFound));
}

#[test]
fn errors_are_shown_for_developers() {
    for error in [
        DatabaseError::UnableToOpenOrCreate,
        DatabaseError::FailedToExecuteCommand,
        DatabaseError::NonUtf8FilePath,
        DatabaseError::MissingFile,
        DatabaseError::MissingTag,
        DatabaseError::InvalidTagName,
        DatabaseError::InvalidColor,
        DatabaseError::CantTagItself,
        DatabaseError::AmbiguousIdPrefix("\"\\\n\u{1}é".to_owned()),
    ] {
        assert_eq!(error.to_debug_string(), format!("{error:?}"));
    }
}

#[test]
fn stamps_are_milliseconds() {
    assert_eq!(stamp(Some(1_600_000_000_000)), 1_600_000_000_000);
    assert_eq!(stamp(None), 0);
    assert_eq!(stamp(Some(u128::MAX)), -1);
}
