//! The main database: files, tags, relationships and version histories.
//!
//! Tag definitions and relationships carry a wall-clock stamp and follow the rule
//! that the last writer wins: a change applies only where its stamp is strictly newer
//! than the stored one. Relationships are never erased by untagging; they become
//! tombstones, so that an absence can win over a stale presence.

use vstd::prelude::*;
use crate::ids::{id_text, uuid_value, FileId, TagId};
use crate::state::{LogicalPath, MetadataFormat, RelationshipKind, RelationshipManifestEntry};
use crate::table::{has_key, Key, Table};
use crate::text::{joined, quote, quoted};
use crate::versions::{
    consecutive, history_in, log_invariant, version_views, FileVersion, VersionLog, VersionView,
    MAX_VERSIONS,
};

pub mod hierarchy;
pub mod laws;
pub mod manifests;
pub mod query;
pub mod short_ids;
pub mod sync_directory;

verus! {

/// A file's versions as `(version_number, content_hash)`, oldest first.
pub type VersionHistory = Vec<(i64, String)>;

/// Whether a walk of the tag hierarchy goes beyond the first step.
#[derive(Debug, Clone, Copy, PartialEq, Eq, Structural)]
pub enum SubtagRule {
    Include,
    Exclude,
}

/// What a relationship points at.
#[derive(Debug, Clone, Copy, PartialEq, Eq, Structural)]
pub enum EntryType {
    File,
    Tag,
}

impl EntryType {
    /// The number that stands for the type in a stored row.
    pub open spec fn code(self) -> i64 {
        match self {
            EntryType::File => 0,
            EntryType::Tag => 1,
        }
    }

    /// The number that stands for the type in a stored row.
    pub fn to_code(self) -> (r: i64)
        ensures
            r == self.code(),
    {
        match self {
            EntryType::File => 0,
            EntryType::Tag => 1,
        }
    }

    /// The type that a number in a stored row stands for. No other number is ever
    /// stored.
    pub fn from_code(code: i64) -> (r: Option<Self>)
        ensures
            match r {
                Some(entry_type) => entry_type.code() == code,
                None => code != EntryType::File.code() && code != EntryType::Tag.code(),
            },
    {
        match code {
            0 => Some(EntryType::File),
            1 => Some(EntryType::Tag),
            _ => None,
        }
    }
}

impl From<EntryType> for RelationshipKind {
    fn from(value: EntryType) -> (r: Self) {
        match value {
            EntryType::File => RelationshipKind::File,
            EntryType::Tag => RelationshipKind::Tag,
        }
    }
}

impl vstd::std_specs::convert::FromSpecImpl<EntryType> for RelationshipKind {
    open spec fn obeys_from_spec() -> bool {
        true
    }

    open spec fn from_spec(value: EntryType) -> Self {
        match value {
            EntryType::File => RelationshipKind::File,
            EntryType::Tag => RelationshipKind::Tag,
        }
    }
}

impl From<RelationshipKind> for EntryType {
    fn from(value: RelationshipKind) -> (r: Self) {
        match value {
            RelationshipKind::File => EntryType::File,
            RelationshipKind::Tag => EntryType::Tag,
        }
    }
}

impl vstd::std_specs::convert::FromSpecImpl<RelationshipKind> for EntryType {
    open spec fn obeys_from_spec() -> bool {
        true
    }

    open spec fn from_spec(value: RelationshipKind) -> Self {
        match value {
            RelationshipKind::File => EntryType::File,
            RelationshipKind::Tag => EntryType::Tag,
        }
    }
}

/// A tag as listings show it.
#[derive(Debug, Clone, PartialEq, Eq)]
pub struct Tag {
    pub id: TagId,
    pub name: String,
    pub color: String,
    pub metadata: Option<MetadataFormat>,
}

/// Why a database operation failed.
#[derive(Debug, Clone, PartialEq, Eq)]
pub enum DatabaseError {
    UnableToOpenOrCreate,
    FailedToExecuteCommand,
    NonUtf8FilePath,
    MissingFile,
    MissingTag,
    InvalidTagName,
    InvalidColor,
    CantTagItself,
    /// A short identifier fits more than one row. Holds the digits that were looked
    /// up.
    AmbiguousIdPrefix(String),
}

impl DatabaseError {
    /// The error as its variant is written.
    pub open spec fn debug_text(self) -> Seq<char> {
        match self {
            DatabaseError::UnableToOpenOrCreate => "UnableToOpenOrCreate"@,
            DatabaseError::FailedToExecuteCommand => "FailedToExecuteCommand"@,
            DatabaseError::NonUtf8FilePath => "NonUtf8FilePath"@,
            DatabaseError::MissingFile => "MissingFile"@,
            DatabaseError::MissingTag => "MissingTag"@,
            DatabaseError::InvalidTagName => "InvalidTagName"@,
            DatabaseError::InvalidColor => "InvalidColor"@,
            DatabaseError::CantTagItself => "CantTagItself"@,
            DatabaseError::AmbiguousIdPrefix(prefix) => "AmbiguousIdPrefix("@ + quoted(prefix@)
                + ")"@,
        }
    }

    /// The error as its variant is written.
    pub fn to_debug_string(&self) -> (r: String)
        ensures
            r@ == self.debug_text(),
    {
        match self {
            DatabaseError::UnableToOpenOrCreate => "UnableToOpenOrCreate".to_owned(),
            DatabaseError::FailedToExecuteCommand => "FailedToExecuteCommand".to_owned(),
            DatabaseError::NonUtf8FilePath => "NonUtf8FilePath".to_owned(),
            DatabaseError::MissingFile => "MissingFile".to_owned(),
            DatabaseError::MissingTag => "MissingTag".to_owned(),
            DatabaseError::InvalidTagName => "InvalidTagName".to_owned(),
            DatabaseError::InvalidColor => "InvalidColor".to_owned(),
            DatabaseError::CantTagItself => "CantTagItself".to_owned(),
            DatabaseError::AmbiguousIdPrefix(prefix) => {
                let text = quote(prefix.as_str());
                let opened = joined("AmbiguousIdPrefix(", text.as_str());
                joined(opened.as_str(), ")")
            },
        }
    }
}

/// `SystemTime::now` and `SystemTime::duration_since`: the milliseconds since the Unix
/// epoch, or `None` where the clock is set before it. Nothing is known of the value.
#[verifier::external_body]
fn clock_millis() -> (r: Option<u128>) {
    std::time::SystemTime::now().duration_since(std::time::UNIX_EPOCH).ok().map(
        |duration| duration.as_millis(),
    )
}

/// The stamp for a reading of the clock: its low 64 bits, or 0 for a clock that is set
/// before the epoch.
pub fn stamp(elapsed: Option<u128>) -> (r: i64)
    ensures
        r == match elapsed {
            Some(millis) => millis as i64,
            None => 0,
        },
{
    match elapsed {
        Some(millis) => #[verifier::truncate] (millis as i64),
        None => 0,
    }
}

/// Current wall-clock time in milliseconds since the Unix epoch. It stamps changes
/// that originate here; changes of peers keep their own stamp.
pub fn now_millis() -> (r: i64) {
    stamp(clock_millis())
}

/// The stored definition of a tag.
pub struct TagRow {
    pub name: String,
    pub color: String,
    pub modified_at: i64,
}

/// The mathematical value of a [`TagRow`].
#[verifier::ext_equal]
pub struct TagView {
    pub name: Seq<char>,
    pub color: Seq<char>,
    pub modified_at: i64,
}

impl View for TagRow {
    type V = TagView;

    open spec fn view(&self) -> TagView {
        TagView { name: self.name@, color: self.color@, modified_at: self.modified_at }
    }
}

/// A relationship: which tag stands on which file or tag.
#[derive(Debug, Clone, Copy, PartialEq, Eq, Structural)]
pub struct EntryKey {
    pub tag_id: TagId,
    pub target: u128,
    pub kind: EntryType,
}

/// The state of a relationship.
#[derive(Debug, Clone, Copy, PartialEq, Eq, Structural)]
pub struct EntryState {
    pub modified_at: i64,
    pub deleted: bool,
}

impl Key for EntryKey {
    open spec fn precedes(self, other: Self) -> bool {
        ||| self.tag_id.value < other.tag_id.value
        ||| self.tag_id.value == other.tag_id.value && self.target < other.target
        ||| self.tag_id.value == other.tag_id.value && self.target == other.target && self.kind
            == EntryType::File && other.kind == EntryType::Tag
    }

    proof fn lemma_asymmetric(a: Self, b: Self) {
    }

    proof fn lemma_transitive(a: Self, b: Self, c: Self) {
    }

    proof fn lemma_total(a: Self, b: Self) {
    }

    fn before(&self, other: &Self) -> (r: bool) {
        if self.tag_id.value != other.tag_id.value {
            self.tag_id.value < other.tag_id.value
        } else if self.target != other.target {
            self.target < other.target
        } else {
            self.kind == EntryType::File && other.kind == EntryType::Tag
        }
    }
}

/// The relationship of `tag_id` to a file.
pub open spec fn file_key(tag_id: TagId, file_id: FileId) -> EntryKey {
    EntryKey { tag_id, target: file_id.value, kind: EntryType::File }
}

/// The relationship of `tag_id` to its subtag.
pub open spec fn subtag_key(tag_id: TagId, subtag_id: TagId) -> EntryKey {
    EntryKey { tag_id, target: subtag_id.value, kind: EntryType::Tag }
}

/// The mathematical value of the database.
#[verifier::ext_equal]
pub struct DatabaseView {
    /// The logical path of each known file.
    pub files: Map<FileId, Seq<char>>,
    /// The definition of each known tag.
    pub tags: Map<TagId, TagView>,
    /// The state of each relationship ever seen, tombstones among them.
    pub entries: Map<EntryKey, EntryState>,
    /// The recorded versions, oldest first. They outlive the file.
    pub versions: Map<FileId, Seq<VersionView>>,
}

impl DatabaseView {
    /// The recorded versions of a file.
    pub open spec fn history(self, file_id: FileId) -> Seq<VersionView> {
        history_in(self.versions, file_id)
    }

    /// Whether a file is known and has a recorded version.
    pub open spec fn listed(self, file_id: FileId) -> bool {
        self.files.contains_key(file_id) && self.versions.contains_key(file_id)
    }

    /// Whether a relationship holds.
    pub open spec fn live(self, key: EntryKey) -> bool {
        self.entries.contains_key(key) && !self.entries[key].deleted
    }

    /// The database after a version was appended.
    pub open spec fn with_version(
        self,
        file_id: FileId,
        content_hash: Seq<char>,
        observed_at: i64,
        origin: Seq<char>,
    ) -> DatabaseView {
        let history = self.history(file_id);
        DatabaseView {
            versions: self.versions.insert(
                file_id,
                history.push(
                    VersionView {
                        file_id,
                        content_hash,
                        observed_at,
                        version_number: (history.len() + 1) as i64,
                        origin,
                    },
                ),
            ),
            ..self
        }
    }

    /// The database after a definition of a tag arrived: it is taken over where the
    /// tag is unknown or the definition is strictly newer.
    pub open spec fn with_tag(self, tag_id: TagId, definition: TagView) -> DatabaseView {
        if self.tags.contains_key(tag_id) && self.tags[tag_id].modified_at
            >= definition.modified_at {
            self
        } else {
            DatabaseView { tags: self.tags.insert(tag_id, definition), ..self }
        }
    }

    /// The database after the state of a relationship arrived: it is taken over where
    /// the relationship is unknown or the state is strictly newer.
    pub open spec fn with_entry(self, key: EntryKey, state: EntryState) -> DatabaseView {
        if self.entries.contains_key(key) && self.entries[key].modified_at >= state.modified_at {
            self
        } else {
            DatabaseView { entries: self.entries.insert(key, state), ..self }
        }
    }

    /// The database after a relationship was taken back: only one that is known and
    /// older becomes a tombstone.
    pub open spec fn without_entry(self, key: EntryKey, modified_at: i64) -> DatabaseView {
        if self.entries.contains_key(key) && self.entries[key].modified_at < modified_at {
            DatabaseView {
                entries: self.entries.insert(key, EntryState { modified_at, deleted: true }),
                ..self
            }
        } else {
            self
        }
    }

    /// The database after a tag and every relationship that mentions it was erased.
    pub open spec fn without_tag(self, tag_id: TagId) -> DatabaseView {
        DatabaseView {
            tags: self.tags.remove(tag_id),
            entries: self.entries.remove_keys(Set::new(|key: EntryKey| mentions(key, tag_id))),
            ..self
        }
    }
}

/// Whether a relationship has `tag_id` as its tag or its subtag.
pub open spec fn mentions(key: EntryKey, tag_id: TagId) -> bool {
    key.tag_id == tag_id || (key.target == tag_id.value && key.kind == EntryType::Tag)
}

/// The main database.
pub struct FileDatabase {
    files: Table<FileId, LogicalPath>,
    tags: Table<TagId, TagRow>,
    entries: Table<EntryKey, EntryState>,
    versions: VersionLog,
}

impl FileDatabase {
    pub closed spec fn view(&self) -> DatabaseView {
        DatabaseView {
            files: self.files@.map_values(|p: LogicalPath| p@),
            tags: self.tags@.map_values(|t: TagRow| t@),
            entries: self.entries@,
            versions: self.versions@,
        }
    }

    /// An empty database.
    pub fn new() -> (r: Self)
        ensures
            r@.files == Map::<FileId, Seq<char>>::empty(),
            r@.tags == Map::<TagId, TagView>::empty(),
            r@.entries == Map::<EntryKey, EntryState>::empty(),
            r@.versions == Map::<FileId, Seq<VersionView>>::empty(),
    {
        let r = FileDatabase {
            files: Table::new(),
            tags: Table::new(),
            entries: Table::new(),
            versions: VersionLog::new(),
        };
        assert(r@.files =~= Map::<FileId, Seq<char>>::empty());
        assert(r@.tags =~= Map::<TagId, TagView>::empty());
        r
    }

    /// Appends a version of `file_id`, observed at `observed_at`, and returns its
    /// number: one more than that of the latest version, or 1.
    pub fn record_version_at(
        &mut self,
        file_id: FileId,
        content_hash: &str,
        origin: &str,
        observed_at: i64,
    ) -> (r: Result<i64, DatabaseError>)
        ensures
            match r {
                Ok(number) => {
                    &&& old(self)@.history(file_id).len() < MAX_VERSIONS
                    &&& number == old(self)@.history(file_id).len() + 1
                    &&& final(self)@ == old(self)@.with_version(
                        file_id,
                        content_hash@,
                        observed_at,
                        origin@,
                    )
                },
                Err(error) => {
                    &&& error == DatabaseError::FailedToExecuteCommand
                    &&& old(self)@.history(file_id).len() >= MAX_VERSIONS
                    &&& final(self)@ == old(self)@
                },
            },
            consecutive(file_id, old(self)@.history(file_id)),
            consecutive(file_id, final(self)@.history(file_id)),
    {
        match self.versions.append(file_id, content_hash, observed_at, origin) {
            Some(number) => {
                assert(number < i64::MAX || number == i64::MAX);
                Ok(number)
            },
            None => Err(DatabaseError::FailedToExecuteCommand),
        }
    }

    /// Appends a version of `file_id`, observed now, and returns its number.
    pub fn record_version(&mut self, file_id: FileId, content_hash: &str, origin: &str) -> (r:
        Result<i64, DatabaseError>)
        ensures
            match r {
                Ok(number) => {
                    &&& old(self)@.history(file_id).len() < MAX_VERSIONS
                    &&& number == old(self)@.history(file_id).len() + 1
                    &&& exists|observed_at: i64|
                        final(self)@ == #[trigger] old(self)@.with_version(
                            file_id,
                            content_hash@,
                            observed_at,
                            origin@,
                        )
                },
                Err(error) => {
                    &&& error == DatabaseError::FailedToExecuteCommand
                    &&& old(self)@.history(file_id).len() >= MAX_VERSIONS
                    &&& final(self)@ == old(self)@
                },
            },
            consecutive(file_id, old(self)@.history(file_id)),
            consecutive(file_id, final(self)@.history(file_id)),
    {
        let observed_at: i64 = now_millis();
        self.record_version_at(file_id, content_hash, origin, observed_at)
    }

    /// The latest version of a file, if one was recorded.
    pub fn latest_version(&self, file_id: FileId) -> (r: Result<
        Option<FileVersion>,
        DatabaseError,
    >)
        ensures
            match r {
                Ok(Some(version)) => self@.history(file_id).len() > 0 && version@
                    == self@.history(file_id).last(),
                Ok(None) => self@.history(file_id).len() == 0,
                Err(_) => false,
            },
            consecutive(file_id, self@.history(file_id)),
    {
        match self.versions.history(file_id) {
            Some(list) => {
                let version = list[list.len() - 1].duplicate();
                assert(version_views(list@).last() == list@.last()@);
                Ok(Some(version))
            },
            None => Ok(None),
        }
    }

    /// All versions of a file, oldest first.
    pub fn version_history(&self, file_id: FileId) -> (r: Result<VersionHistory, DatabaseError>)
        ensures
            r matches Ok(list) && list@.len() == self@.history(file_id).len() && forall|i: int|
                0 <= i < list@.len() ==> (#[trigger] list@[i]).0 == self@.history(
                    file_id,
                )[i].version_number && list@[i].1@ == self@.history(file_id)[i].content_hash,
            consecutive(file_id, self@.history(file_id)),
    {
        let mut out: VersionHistory = Vec::new();
        match self.versions.history(file_id) {
            Some(list) => {
                let mut i: usize = 0;
                while i < list.len()
                    invariant
                        i <= list.len(),
                        out@.len() == i,
                        self@.history(file_id) == version_views(list@),
                        forall|j: int|
                            0 <= j < i ==> (#[trigger] out@[j]).0 == self@.history(
                                file_id,
                            )[j].version_number && out@[j].1@ == self@.history(
                                file_id,
                            )[j].content_hash,
                    decreases list.len() - i,
                {
                    out.push((list[i].version_number, list[i].content_hash.clone()));
                    i = i + 1;
                }
            },
            None => {},
        }
        Ok(out)
    }

    /// The content hash of the latest version of every file that has one.
    pub fn latest_content_hashes(&self) -> (r: Result<Table<FileId, String>, DatabaseError>)
        ensures
            r matches Ok(hashes) && (forall|f: FileId| #[trigger]
                hashes@.contains_key(f) <==> self@.versions.contains_key(f)) && forall|f: FileId|
             #[trigger]
                hashes@.contains_key(f) ==> hashes@[f]@ == self@.history(f).last().content_hash,
    {
        let mut hashes: Table<FileId, String> = Table::new();
        let n: usize = self.versions.len();
        let mut i: usize = 0;
        while i < n
            invariant
                i <= n,
                n == self.versions.files().len(),
                log_invariant(self.versions@),
                forall|f: FileId| #[trigger]
                    hashes@.contains_key(f) <==> self.versions.files().take(i as int).contains(f),
                forall|f: FileId| #[trigger]
                    hashes@.contains_key(f) ==> hashes@[f]@ == self@.history(
                        f,
                    ).last().content_hash,
            decreases n - i,
        {
            let file_id = self.versions.file_at(i);
            let ghost files = self.versions.files();
            match self.versions.history(file_id) {
                Some(list) => {
                    let hash = list[list.len() - 1].content_hash.clone();
                    assert(version_views(list@).last() == list@.last()@);
                    hashes.insert(file_id, hash);
                },
                None => {},
            }
            proof {
                let before = files.take(i as int);
                let after = files.take(i + 1);
                assert(after =~= before.push(file_id));
                assert forall|f: FileId| #[trigger] hashes@.contains_key(f) <==> after.contains(
                    f,
                ) by {
                    if after.contains(f) && f != file_id {
                        let j = choose|j: int| 0 <= j < after.len() && after[j] == f;
                        assert(before[j] == f);
                    }
                    if before.contains(f) {
                        let j = choose|j: int| 0 <= j < before.len() && before[j] == f;
                        assert(after[j] == f);
                    }
                    assert(after[i as int] == file_id);
                }
            }
            i = i + 1;
        }
        assert(self.versions.files().take(i as int) =~= self.versions.files());
        Ok(hashes)
    }

    /// Whether a file is known.
    pub fn file_exists(&self, file_id: FileId) -> (r: Result<bool, DatabaseError>)
        ensures
            r == Ok::<bool, DatabaseError>(self@.files.contains_key(file_id)),
    {
        Ok(self.files.contains(file_id))
    }

    /// Whether a tag is known.
    pub fn tag_exists(&self, tag_id: TagId) -> (r: Result<bool, DatabaseError>)
        ensures
            r == Ok::<bool, DatabaseError>(self@.tags.contains_key(tag_id)),
    {
        Ok(self.tags.contains(tag_id))
    }

    /// Adds a file. A file that is already known is an error, and nothing changes.
    pub fn add_file(&mut self, file_id: FileId, logical_path: &LogicalPath) -> (r: Result<
        (),
        DatabaseError,
    >)
        ensures
            match r {
                Ok(()) => {
                    &&& !old(self)@.files.contains_key(file_id)
                    &&& final(self)@ == (DatabaseView {
                        files: old(self)@.files.insert(file_id, logical_path@),
                        ..old(self)@
                    })
                },
                Err(error) => {
                    &&& error == DatabaseError::FailedToExecuteCommand
                    &&& old(self)@.files.contains_key(file_id)
                    &&& final(self)@ == old(self)@
                },
            },
    {
        if self.files.contains(file_id) {
            return Err(DatabaseError::FailedToExecuteCommand);
        }
        self.files.insert(file_id, logical_path.duplicate());
        assert(self@.files =~= old(self)@.files.insert(file_id, logical_path@));
        Ok(())
    }

    /// Moves a file to another logical path. An unknown file is left unknown.
    pub fn update_file_logical_path(&mut self, file_id: FileId, logical_path: &LogicalPath) -> (r:
        Result<(), DatabaseError>)
        ensures
            r is Ok,
            final(self)@ == (DatabaseView {
                files: if old(self)@.files.contains_key(file_id) {
                    old(self)@.files.insert(file_id, logical_path@)
                } else {
                    old(self)@.files
                },
                ..old(self)@
            }),
    {
        if self.files.contains(file_id) {
            self.files.insert(file_id, logical_path.duplicate());
            assert(self@.files =~= old(self)@.files.insert(file_id, logical_path@));
        }
        Ok(())
    }

    /// Forgets a file. Its versions stay recorded.
    pub fn remove_file(&mut self, file_id: FileId) -> (r: Result<(), DatabaseError>)
        ensures
            r is Ok,
            final(self)@ == (DatabaseView {
                files: old(self)@.files.remove(file_id),
                ..old(self)@
            }),
    {
        let _ = self.files.remove(file_id);
        assert(self@.files =~= old(self)@.files.remove(file_id));
        Ok(())
    }

    /// Adds a tag, or takes over its definition where this one is strictly newer.
    pub fn add_tag(&mut self, tag_id: TagId, name: &str, color: &str, modified_at: i64) -> (r:
        Result<(), DatabaseError>)
        ensures
            match r {
                Ok(()) => {
                    &&& name@.len() > 0 && color@.len() > 0
                    &&& final(self)@ == old(self)@.with_tag(
                        tag_id,
                        (TagView { name: name@, color: color@, modified_at }),
                    )
                },
                Err(error) => {
                    &&& final(self)@ == old(self)@
                    &&& if name@.len() == 0 {
                        error == DatabaseError::InvalidTagName
                    } else {
                        color@.len() == 0 && error == DatabaseError::InvalidColor
                    }
                },
            },
    {
        if name.is_empty() {
            return Err(DatabaseError::InvalidTagName);
        }
        if color.is_empty() {
            return Err(DatabaseError::InvalidColor);
        }
        let newer = match self.tags.get(tag_id) {
            Some(row) => modified_at > row.modified_at,
            None => true,
        };
        if newer {
            let row = TagRow { name: name.to_owned(), color: color.to_owned(), modified_at };
            self.tags.insert(tag_id, row);
            assert(self@.tags =~= old(self)@.tags.insert(tag_id, row@));
        }
        Ok(())
    }

    /// Renames a tag where the change is strictly newer than the definition. An
    /// unknown tag is left unknown.
    pub fn update_tag_name(&mut self, tag_id: TagId, name: &str, modified_at: i64) -> (r: Result<
        (),
        DatabaseError,
    >)
        ensures
            match r {
                Ok(()) => {
                    &&& name@.len() > 0
                    &&& final(self)@ == if old(self)@.tags.contains_key(tag_id) {
                        old(self)@.with_tag(
                            tag_id,
                            (TagView { name: name@, modified_at, ..old(self)@.tags[tag_id] }),
                        )
                    } else {
                        old(self)@
                    }
                },
                Err(error) => {
                    &&& error == DatabaseError::InvalidTagName
                    &&& name@.len() == 0
                    &&& final(self)@ == old(self)@
                },
            },
    {
        if name.is_empty() {
            return Err(DatabaseError::InvalidTagName);
        }
        let color: Option<String> = match self.tags.get(tag_id) {
            Some(row) => if modified_at > row.modified_at {
                Some(row.color.clone())
            } else {
                None
            },
            None => None,
        };
        if let Some(color) = color {
            let row = TagRow { name: name.to_owned(), color, modified_at };
            self.tags.insert(tag_id, row);
            assert(self@.tags =~= old(self)@.tags.insert(tag_id, row@));
        }
        Ok(())
    }

    /// Recolours a tag where the change is strictly newer than the definition. An
    /// unknown tag is left unknown.
    pub fn update_tag_color(&mut self, tag_id: TagId, color: &str, modified_at: i64) -> (r: Result<
        (),
        DatabaseError,
    >)
        ensures
            match r {
                Ok(()) => {
                    &&& color@.len() > 0
                    &&& final(self)@ == if old(self)@.tags.contains_key(tag_id) {
                        old(self)@.with_tag(
                            tag_id,
                            (TagView { color: color@, modified_at, ..old(self)@.tags[tag_id] }),
                        )
                    } else {
                        old(self)@
                    }
                },
                Err(error) => {
                    &&& error == DatabaseError::InvalidColor
                    &&& color@.len() == 0
                    &&& final(self)@ == old(self)@
                },
            },
    {
        if color.is_empty() {
            return Err(DatabaseError::InvalidColor);
        }
        let name: Option<String> = match self.tags.get(tag_id) {
            Some(row) => if modified_at > row.modified_at {
                Some(row.name.clone())
            } else {
                None
            },
            None => None,
        };
        if let Some(name) = name {
            let row = TagRow { name, color: color.to_owned(), modified_at };
            self.tags.insert(tag_id, row);
            assert(self@.tags =~= old(self)@.tags.insert(tag_id, row@));
        }
        Ok(())
    }

    /// Erases a tag and every relationship that mentions it.
    pub fn remove_tag(&mut self, tag_id: TagId) -> (r: Result<(), DatabaseError>)
        ensures
            r is Ok,
            final(self)@ == old(self)@.without_tag(tag_id),
    {
        let _ = self.tags.remove(tag_id);
        assert(self@.tags =~= old(self)@.tags.remove(tag_id));
        let mut kept: Table<EntryKey, EntryState> = Table::new();
        let n: usize = self.entries.len();
        let ghost rows = self.entries.rows();
        let mut i: usize = 0;
        while i < n
            invariant
                i <= n,
                n == rows.len(),
                rows == self.entries.rows(),
                self.entries.well_formed(),
                forall|k: EntryKey| #[trigger]
                    kept@.contains_key(k) <==> !mentions(k, tag_id) && has_key(
                        rows.take(i as int),
                        k,
                    ),
                forall|k: EntryKey| #[trigger]
                    kept@.contains_key(k) ==> self.entries@.contains_key(k) && kept@[k]
                        == self.entries@[k],
            decreases n - i,
        {
            let key = self.entries.key_at(i);
            let state = *self.entries.value_at(i);
            let ghost before = rows.take(i as int);
            let ghost after = rows.take(i + 1);
            if !(key.tag_id == tag_id || (key.target == tag_id.value && key.kind
                == EntryType::Tag)) {
                kept.insert(key, state);
            }
            proof {
                assert forall|k: EntryKey| has_key(after, k) <==> (k == key || has_key(
                    before,
                    k,
                )) by {
                    if has_key(after, k) && k != key {
                        let j = choose|j: int| 0 <= j < after.len() && (#[trigger] after[j]).0 == k;
                        assert(before[j].0 == k);
                    }
                    if has_key(before, k) {
                        let j = choose|j: int|
                            0 <= j < before.len() && (#[trigger] before[j]).0 == k;
                        assert(after[j].0 == k);
                    }
                    assert(after[i as int].0 == key);
                }
            }
            i = i + 1;
        }
        assert(rows.take(i as int) =~= rows);
        proof {
            let gone = Set::new(|key: EntryKey| mentions(key, tag_id));
            assert(kept@ =~= old(self)@.entries.remove_keys(gone));
        }
        self.entries = kept;
        Ok(())
    }

    /// Puts a tag on a file.
    pub fn tag_file(&mut self, tag_id: TagId, file_id: FileId, modified_at: i64) -> (r: Result<
        (),
        DatabaseError,
    >)
        ensures
            r is Ok,
            final(self)@ == old(self)@.with_entry(
                file_key(tag_id, file_id),
                (EntryState { modified_at, deleted: false }),
            ),
    {
        self.upsert_entry(
            EntryKey { tag_id, target: file_id.value, kind: EntryType::File },
            EntryState { modified_at, deleted: false },
        );
        Ok(())
    }

    /// Makes a tag a subtag of another. A tag is not its own subtag.
    pub fn tag_tag(&mut self, tag_id: TagId, subtag_id: TagId, modified_at: i64) -> (r: Result<
        (),
        DatabaseError,
    >)
        ensures
            match r {
                Ok(()) => {
                    &&& tag_id != subtag_id
                    &&& final(self)@ == old(self)@.with_entry(
                        subtag_key(tag_id, subtag_id),
                        (EntryState { modified_at, deleted: false }),
                    )
                },
                Err(error) => {
                    &&& error == DatabaseError::CantTagItself
                    &&& tag_id == subtag_id
                    &&& final(self)@ == old(self)@
                },
            },
    {
        if tag_id == subtag_id {
            return Err(DatabaseError::CantTagItself);
        }
        self.upsert_entry(
            EntryKey { tag_id, target: subtag_id.value, kind: EntryType::Tag },
            EntryState { modified_at, deleted: false },
        );
        Ok(())
    }

    /// Takes a tag off a file.
    pub fn untag_file(&mut self, tag_id: TagId, file_id: FileId, modified_at: i64) -> (r: Result<
        (),
        DatabaseError,
    >)
        ensures
            r is Ok,
            final(self)@ == old(self)@.without_entry(file_key(tag_id, file_id), modified_at),
    {
        self.untag_entry(
            EntryKey { tag_id, target: file_id.value, kind: EntryType::File },
            modified_at,
        );
        Ok(())
    }

    /// Makes a tag no longer a subtag of another.
    pub fn untag_tag(&mut self, tag_id: TagId, subtag_id: TagId, modified_at: i64) -> (r: Result<
        (),
        DatabaseError,
    >)
        ensures
            r is Ok,
            final(self)@ == old(self)@.without_entry(subtag_key(tag_id, subtag_id), modified_at),
    {
        self.untag_entry(
            EntryKey { tag_id, target: subtag_id.value, kind: EntryType::Tag },
            modified_at,
        );
        Ok(())
    }

    fn upsert_entry(&mut self, key: EntryKey, state: EntryState)
        ensures
            final(self)@ == old(self)@.with_entry(key, state),
    {
        let newer = match self.entries.get(key) {
            Some(stored) => state.modified_at > stored.modified_at,
            None => true,
        };
        if newer {
            self.entries.insert(key, state);
        }
    }

    fn untag_entry(&mut self, key: EntryKey, modified_at: i64)
        ensures
            final(self)@ == old(self)@.without_entry(key, modified_at),
    {
        let older = match self.entries.get(key) {
            Some(stored) => modified_at > stored.modified_at,
            None => false,
        };
        if older {
            self.entries.insert(key, EntryState { modified_at, deleted: true });
        }
    }

    /// Takes over the state of a relationship from a manifest, where it is strictly
    /// newer. The target is the text of an identifier: different spellings of one
    /// identifier name one relationship, and a target that spells none is an error, with
    /// nothing changed.
    pub fn apply_relationship(&mut self, entry: &RelationshipManifestEntry) -> (r: Result<
        (),
        DatabaseError,
    >)
        ensures
            match uuid_value(entry.target_id@) {
                Some(target) => {
                    &&& r is Ok
                    &&& final(self)@ == old(self)@.with_entry(
                        entry_key(*entry, target),
                        (EntryState { modified_at: entry.modified_at, deleted: entry.deleted }),
                    )
                },
                None => {
                    &&& r == Err::<(), DatabaseError>(DatabaseError::FailedToExecuteCommand)
                    &&& final(self)@ == old(self)@
                },
            },
            forall|target: u128|
                entry.target_id@ == #[trigger] id_text(target) ==> final(self)@
                    == old(self)@.with_entry(
                    entry_key(*entry, target),
                    (EntryState { modified_at: entry.modified_at, deleted: entry.deleted }),
                ),
    {
        match FileId::from_string(entry.target_id.as_str()) {
            Some(target) => {
                let kind: EntryType = EntryType::from(entry.kind);
                self.upsert_entry(
                    EntryKey { tag_id: entry.tag_id, target: target.value, kind },
                    EntryState { modified_at: entry.modified_at, deleted: entry.deleted },
                );
                Ok(())
            },
            None => Err(DatabaseError::FailedToExecuteCommand),
        }
    }

    /// The stamp of a relationship, if it is known.
    pub fn relationship_modified_at(&self, tag_id: TagId, target_id: &str, kind: EntryType) -> (r:
        Result<Option<i64>, DatabaseError>)
        ensures
            r == Ok::<Option<i64>, DatabaseError>(
                match uuid_value(target_id@) {
                    Some(target) => {
                        let key = (EntryKey { tag_id, target, kind });
                        if self@.entries.contains_key(key) {
                            Some(self@.entries[key].modified_at)
                        } else {
                            None
                        }
                    },
                    None => None,
                },
            ),
    {
        match FileId::from_string(target_id) {
            Some(target) => match self.entries.get(
                EntryKey { tag_id, target: target.value, kind },
            ) {
                Some(state) => Ok(Some(state.modified_at)),
                None => Ok(None),
            },
            None => Ok(None),
        }
    }

    /// The stamp of a tag's definition, if the tag is known.
    pub fn tag_modified_at(&self, tag_id: TagId) -> (r: Result<Option<i64>, DatabaseError>)
        ensures
            r == Ok::<Option<i64>, DatabaseError>(
                if self@.tags.contains_key(tag_id) {
                    Some(self@.tags[tag_id].modified_at)
                } else {
                    None
                },
            ),
    {
        match self.tags.get(tag_id) {
            Some(row) => Ok(Some(row.modified_at)),
            None => Ok(None),
        }
    }

    /// The name, colour and stamp of a tag, if it is known.
    pub fn tag_definition(&self, tag_id: TagId) -> (r: Result<
        Option<(String, String, i64)>,
        DatabaseError,
    >)
        ensures
            match r {
                Ok(Some((name, color, modified_at))) => self@.tags.contains_key(tag_id)
                    && self@.tags[tag_id] == (TagView { name: name@, color: color@, modified_at }),
                Ok(None) => !self@.tags.contains_key(tag_id),
                Err(_) => false,
            },
    {
        match self.tags.get(tag_id) {
            Some(row) => Ok(Some((row.name.clone(), row.color.clone(), row.modified_at))),
            None => Ok(None),
        }
    }

    /// The tag with an identifier.
    pub fn tag_from_id(&self, tag_id: TagId) -> (r: Result<Tag, DatabaseError>)
        ensures
            match r {
                Ok(tag) => self@.tags.contains_key(tag_id) && is_tag_row(self@, tag_id, tag),
                Err(error) => !self@.tags.contains_key(tag_id) && error
                    == DatabaseError::MissingTag,
            },
    {
        match self.tags.get(tag_id) {
            Some(row) => Ok(
                Tag {
                    id: tag_id,
                    name: row.name.clone(),
                    color: row.color.clone(),
                    metadata: None,
                },
            ),
            None => Err(DatabaseError::MissingTag),
        }
    }

    /// All tags, in ascending order of their identifiers.
    pub fn get_all_tags(&self) -> (r: Result<Vec<Tag>, DatabaseError>)
        ensures
            r matches Ok(list) && (forall|i: int, j: int|
                0 <= i < j < list@.len() ==> (#[trigger] list@[i]).id.value < (
                #[trigger] list@[j]).id.value) && (forall|t: TagId| #[trigger]
                self@.tags.contains_key(t) <==> exists|i: int|
                    0 <= i < list@.len() && (#[trigger] list@[i]).id == t) && forall|i: int|
                0 <= i < list@.len() ==> is_tag_row(self@, list@[i].id, #[trigger] list@[i]),
    {
        let mut list: Vec<Tag> = Vec::new();
        let n: usize = self.tags.len();
        let ghost rows = self.tags.rows();
        let mut i: usize = 0;
        while i < n
            invariant
                i <= n,
                n == rows.len(),
                rows == self.tags.rows(),
                self.tags.well_formed(),
                list@.len() == i,
                forall|j: int|
                    0 <= j < i ==> (#[trigger] list@[j]).id == rows[j].0 && is_tag_row(
                        self@,
                        rows[j].0,
                        list@[j],
                    ),
            decreases n - i,
        {
            let id = self.tags.key_at(i);
            let row = self.tags.value_at(i);
            list.push(Tag { id, name: row.name.clone(), color: row.color.clone(), metadata: None });
            i = i + 1;
        }
        proof {
            assert forall|a: int, b: int| 0 <= a < b < list@.len() implies (
            #[trigger] list@[a]).id.value < (#[trigger] list@[b]).id.value by {
                assert(rows[a].0.precedes(rows[b].0));
            }
            assert forall|t: TagId| #[trigger] self@.tags.contains_key(t) implies exists|k: int|
                0 <= k < list@.len() && (#[trigger] list@[k]).id == t by {
                assert(has_key(rows, t));
                let k = choose|k: int| 0 <= k < rows.len() && (#[trigger] rows[k]).0 == t;
                assert(list@[k].id == t);
            }
        }
        Ok(list)
    }

    /// The file with a logical path: of several, the one with the least identifier.
    pub fn file_id_from_logical_path(&self, logical_path: &LogicalPath) -> (r: Result<
        FileId,
        DatabaseError,
    >)
        ensures
            match r {
                Ok(file_id) => {
                    &&& self@.files.contains_key(file_id)
                    &&& self@.files[file_id] == logical_path@
                    &&& forall|f: FileId| #[trigger]
                        self@.files.contains_key(f) && self@.files[f] == logical_path@
                            ==> file_id.value <= f.value
                },
                Err(error) => {
                    &&& error == DatabaseError::MissingFile
                    &&& forall|f: FileId| #[trigger]
                        self@.files.contains_key(f) ==> self@.files[f] != logical_path@
                },
            },
    {
        let n: usize = self.files.len();
        let ghost rows = self.files.rows();
        let mut i: usize = 0;
        while i < n
            invariant
                i <= n,
                n == rows.len(),
                rows == self.files.rows(),
                self.files.well_formed(),
                forall|j: int| 0 <= j < i ==> (#[trigger] rows[j]).1@ != logical_path@,
            decreases n - i,
        {
            if self.files.value_at(i).text == logical_path.text {
                let file_id = self.files.key_at(i);
                proof {
                    assert forall|f: FileId| #[trigger]
                        self@.files.contains_key(f) && self@.files[f]
                            == logical_path@ implies file_id.value <= f.value by {
                        assert(has_key(rows, f));
                        let k = choose|k: int| 0 <= k < rows.len() && (#[trigger] rows[k]).0 == f;
                        if i < k {
                            assert(rows[i as int].0.precedes(rows[k].0));
                        }
                    }
                }
                return Ok(file_id);
            }
            i = i + 1;
        }
        proof {
            assert forall|f: FileId| #[trigger] self@.files.contains_key(f) implies self@.files[f]
                != logical_path@ by {
                assert(has_key(rows, f));
                let k = choose|k: int| 0 <= k < rows.len() && (#[trigger] rows[k]).0 == f;
            }
        }
        Err(DatabaseError::MissingFile)
    }

    /// The tag with a name: of several, the one with the least identifier.
    pub fn tag_id_from_name(&self, name: &str) -> (r: Result<TagId, DatabaseError>)
        ensures
            match r {
                Ok(tag_id) => {
                    &&& self@.tags.contains_key(tag_id)
                    &&& self@.tags[tag_id].name == name@
                    &&& forall|t: TagId| #[trigger]
                        self@.tags.contains_key(t) && self@.tags[t].name == name@ ==> tag_id.value
                            <= t.value
                },
                Err(error) => {
                    &&& error == DatabaseError::MissingTag
                    &&& forall|t: TagId| #[trigger]
                        self@.tags.contains_key(t) ==> self@.tags[t].name != name@
                },
            },
    {
        let wanted = name.to_owned();
        let n: usize = self.tags.len();
        let ghost rows = self.tags.rows();
        let mut i: usize = 0;
        while i < n
            invariant
                i <= n,
                n == rows.len(),
                rows == self.tags.rows(),
                self.tags.well_formed(),
                wanted@ == name@,
                forall|j: int| 0 <= j < i ==> (#[trigger] rows[j]).1.name@ != name@,
            decreases n - i,
        {
            if self.tags.value_at(i).name == wanted {
                let tag_id = self.tags.key_at(i);
                proof {
                    assert forall|t: TagId| #[trigger]
                        self@.tags.contains_key(t) && self@.tags[t].name
                            == name@ implies tag_id.value <= t.value by {
                        assert(has_key(rows, t));
                        let k = choose|k: int| 0 <= k < rows.len() && (#[trigger] rows[k]).0 == t;
                        if i < k {
                            assert(rows[i as int].0.precedes(rows[k].0));
                        }
                    }
                }
                return Ok(tag_id);
            }
            i = i + 1;
        }
        proof {
            assert forall|t: TagId| #[trigger] self@.tags.contains_key(t) implies self@.tags[t].name
                != name@ by {
                assert(has_key(rows, t));
                let k = choose|k: int| 0 <= k < rows.len() && (#[trigger] rows[k]).0 == t;
            }
        }
        Err(DatabaseError::MissingTag)
    }

    /// The logical path of a file.
    pub fn logical_path_for_file_id(&self, file_id: FileId) -> (r: Result<
        LogicalPath,
        DatabaseError,
    >)
        ensures
            match r {
                Ok(path) => self@.files.contains_key(file_id) && self@.files[file_id] == path@,
                Err(error) => !self@.files.contains_key(file_id) && error
                    == DatabaseError::MissingFile,
            },
    {
        match self.files.get(file_id) {
            Some(path) => Ok(path.duplicate()),
            None => Err(DatabaseError::MissingFile),
        }
    }
}

/// Whether `tag` is the row of `tag_id`.
pub open spec fn is_tag_row(db: DatabaseView, tag_id: TagId, tag: Tag) -> bool {
    &&& tag.id == tag_id
    &&& tag.metadata is None
    &&& db.tags.contains_key(tag_id)
    &&& db.tags[tag_id].name == tag.name@
    &&& db.tags[tag_id].color == tag.color@
}

/// The relationship that a manifest entry with target `target` speaks of.
pub open spec fn entry_key(entry: RelationshipManifestEntry, target: u128) -> EntryKey {
    EntryKey {
        tag_id: entry.tag_id,
        target,
        kind: match entry.kind {
            RelationshipKind::File => EntryType::File,
            RelationshipKind::Tag => EntryType::Tag,
        },
    }
}

} // verus!
