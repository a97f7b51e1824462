//! The vocabulary that daemons share: paths, changes, manifests and frames.

use vstd::prelude::*;
use crate::ids::{FileId, RequestId, TagId, TransferId};

verus! {

/// A file's name in the shared namespace, independent of where its bytes lie.
#[derive(Debug, Clone, PartialEq, Eq)]
pub struct LogicalPath {
    pub text: String,
}

impl View for LogicalPath {
    type V = Seq<char>;

    open spec fn view(&self) -> Seq<char> {
        self.text@
    }
}

impl LogicalPath {
    pub fn new(text: &str) -> (r: Self)
        ensures
            r@ == text@,
    {
        LogicalPath { text: text.to_owned() }
    }

    pub fn as_str(&self) -> (r: &str)
        ensures
            r@ == self@,
    {
        self.text.as_str()
    }

    pub fn duplicate(&self) -> (r: Self)
        ensures
            r == *self,
    {
        LogicalPath { text: self.text.clone() }
    }
}

/// Where a file's bytes lie, relative to the root of a sync directory.
#[derive(Debug, Clone, PartialEq, Eq)]
pub struct PhysicalPath {
    pub text: String,
}

impl View for PhysicalPath {
    type V = Seq<char>;

    open spec fn view(&self) -> Seq<char> {
        self.text@
    }
}

impl PhysicalPath {
    pub fn new(text: &str) -> (r: Self)
        ensures
            r@ == text@,
    {
        PhysicalPath { text: text.to_owned() }
    }

    pub fn as_str(&self) -> (r: &str)
        ensures
            r@ == self@,
    {
        self.text.as_str()
    }

    pub fn duplicate(&self) -> (r: Self)
        ensures
            r == *self,
    {
        PhysicalPath { text: self.text.clone() }
    }
}

/// Metadata attached to a tag or to a relationship. It is carried on the wire and
/// not stored.
#[derive(Debug, Clone, PartialEq, Eq)]
pub struct MetadataFormat {
    pub text: String,
}

/// What a listing says of a file.
#[derive(Debug, Clone, PartialEq, Eq)]
pub struct FileInfo {
    pub file_id: FileId,
    pub logical_path: LogicalPath,
    pub content_hash: String,
    pub version_number: i64,
    /// How many leading digits of the identifier tell the file apart.
    pub short_id_length: usize,
}

/// What a relationship points at.
#[derive(Debug, Clone, Copy, PartialEq, Eq, Structural)]
pub enum RelationshipKind {
    File,
    Tag,
}

/// A file's part of a manifest: its whole version history, oldest first.
#[derive(Debug, Clone, PartialEq, Eq)]
pub struct ManifestEntry {
    pub file_id: FileId,
    pub history: Vec<(i64, String)>,
    pub latest_observed_at: i64,
    pub logical_path: LogicalPath,
}

/// A tag definition's part of a manifest.
#[derive(Debug, Clone, Copy, PartialEq, Eq, Structural)]
pub struct TagManifestEntry {
    pub tag_id: TagId,
    pub modified_at: i64,
}

/// A relationship's part of a manifest, tombstones among them.
#[derive(Debug, Clone, PartialEq, Eq)]
pub struct RelationshipManifestEntry {
    pub tag_id: TagId,
    pub target_id: String,
    pub kind: RelationshipKind,
    pub modified_at: i64,
    pub deleted: bool,
}

/// A change to the shared state. It carries no file content.
#[derive(Debug, Clone, PartialEq, Eq)]
pub enum Change {
    FileMetadataAdded {
        file_id: FileId,
        logical_path: LogicalPath,
        content_hash: String,
        tags: Vec<TagId>,
    },
    FileMetadataChanged { file_id: FileId, content_hash: String },
    FileMoved { file_id: FileId, logical_path: LogicalPath },
    FileDeleted { file_id: FileId, deleted_at: i64 },
    TagAdded {
        tag_id: TagId,
        tag_name: String,
        color: String,
        metadata: Option<MetadataFormat>,
        modified_at: i64,
    },
    TagRenamed { tag_id: TagId, tag_name: String, modified_at: i64 },
    TagRecolored { tag_id: TagId, color: String, modified_at: i64 },
    TagChanged { tag_id: TagId, metadata: Option<MetadataFormat>, modified_at: i64 },
    TagRemoved { tag_id: TagId, modified_at: i64 },
    FileTagged {
        file_id: FileId,
        tag_id: TagId,
        metadata: Option<MetadataFormat>,
        modified_at: i64,
    },
    FileTagChanged {
        file_id: FileId,
        tag_id: TagId,
        metadata: Option<MetadataFormat>,
        modified_at: i64,
    },
    FileUntagged { file_id: FileId, tag_id: TagId, modified_at: i64 },
    TagTagged {
        taggee_id: TagId,
        tag_id: TagId,
        metadata: Option<MetadataFormat>,
        modified_at: i64,
    },
    TagTagChanged {
        taggee_id: TagId,
        tag_id: TagId,
        metadata: Option<MetadataFormat>,
        modified_at: i64,
    },
    TagUntagged { taggee_id: TagId, tag_id: TagId, modified_at: i64 },
}

/// The mathematical value of a [`Change`].
#[verifier::ext_equal]
pub enum ChangeView {
    /// A new file, with the sequence of its tags.
    FileMetadataAdded {
        file_id: FileId,
        logical_path: LogicalPath,
        content_hash: String,
        tags: Seq<TagId>,
    },
    /// Any other change, which holds no vector.
    Other(Change),
}

impl View for Change {
    type V = ChangeView;

    open spec fn view(&self) -> ChangeView {
        match *self {
            Change::FileMetadataAdded { file_id, logical_path, content_hash, tags } =>
                ChangeView::FileMetadataAdded { file_id, logical_path, content_hash, tags: tags@ },
            other => ChangeView::Other(other),
        }
    }
}

/// A copy of a list of tags.
pub fn copy_tags(tags: &Vec<TagId>) -> (r: Vec<TagId>)
    ensures
        r@ == tags@,
{
    let mut out: Vec<TagId> = Vec::new();
    let mut i: usize = 0;
    while i < tags.len()
        invariant
            i <= tags.len(),
            out@ == tags@.take(i as int),
        decreases tags.len() - i,
    {
        out.push(tags[i]);
        i = i + 1;
        assert(tags@.take(i as int) =~= tags@.take(i - 1).push(tags@[i - 1]));
    }
    assert(tags@.take(i as int) =~= tags@);
    out
}

fn copy_metadata(metadata: &Option<MetadataFormat>) -> (r: Option<MetadataFormat>)
    ensures
        r == *metadata,
{
    match metadata {
        Some(m) => Some(MetadataFormat { text: m.text.clone() }),
        None => None,
    }
}

impl Change {
    /// A copy of the change.
    pub fn duplicate(&self) -> (r: Self)
        ensures
            r@ == self@,
    {
        match self {
            Change::FileMetadataAdded { file_id, logical_path, content_hash, tags } =>
                Change::FileMetadataAdded {
                    file_id: *file_id,
                    logical_path: logical_path.duplicate(),
                    content_hash: content_hash.clone(),
                    tags: copy_tags(tags),
                },
            Change::FileMetadataChanged { file_id, content_hash } => Change::FileMetadataChanged {
                file_id: *file_id,
                content_hash: content_hash.clone(),
            },
            Change::FileMoved { file_id, logical_path } => Change::FileMoved {
                file_id: *file_id,
                logical_path: logical_path.duplicate(),
            },
            Change::FileDeleted { file_id, deleted_at } => Change::FileDeleted {
                file_id: *file_id,
                deleted_at: *deleted_at,
            },
            Change::TagAdded { tag_id, tag_name, color, metadata, modified_at } =>
                Change::TagAdded {
                    tag_id: *tag_id,
                    tag_name: tag_name.clone(),
                    color: color.clone(),
                    metadata: copy_metadata(metadata),
                    modified_at: *modified_at,
                },
            Change::TagRenamed { tag_id, tag_name, modified_at } => Change::TagRenamed {
                tag_id: *tag_id,
                tag_name: tag_name.clone(),
                modified_at: *modified_at,
            },
            Change::TagRecolored { tag_id, color, modified_at } => Change::TagRecolored {
                tag_id: *tag_id,
                color: color.clone(),
                modified_at: *modified_at,
            },
            Change::TagChanged { tag_id, metadata, modified_at } => Change::TagChanged {
                tag_id: *tag_id,
                metadata: copy_metadata(metadata),
                modified_at: *modified_at,
            },
            Change::TagRemoved { tag_id, modified_at } => Change::TagRemoved {
                tag_id: *tag_id,
                modified_at: *modified_at,
            },
            Change::FileTagged { file_id, tag_id, metadata, modified_at } => Change::FileTagged {
                file_id: *file_id,
                tag_id: *tag_id,
                metadata: copy_metadata(metadata),
                modified_at: *modified_at,
            },
            Change::FileTagChanged { file_id, tag_id, metadata, modified_at } =>
                Change::FileTagChanged {
                    file_id: *file_id,
                    tag_id: *tag_id,
                    metadata: copy_metadata(metadata),
                    modified_at: *modified_at,
                },
            Change::FileUntagged { file_id, tag_id, modified_at } => Change::FileUntagged {
                file_id: *file_id,
                tag_id: *tag_id,
                modified_at: *modified_at,
            },
            Change::TagTagged { taggee_id, tag_id, metadata, modified_at } => Change::TagTagged {
                taggee_id: *taggee_id,
                tag_id: *tag_id,
                metadata: copy_metadata(metadata),
                modified_at: *modified_at,
            },
            Change::TagTagChanged { taggee_id, tag_id, metadata, modified_at } =>
                Change::TagTagChanged {
                    taggee_id: *taggee_id,
                    tag_id: *tag_id,
                    metadata: copy_metadata(metadata),
                    modified_at: *modified_at,
                },
            Change::TagUntagged { taggee_id, tag_id, modified_at } => Change::TagUntagged {
                taggee_id: *taggee_id,
                tag_id: *tag_id,
                modified_at: *modified_at,
            },
        }
    }
}

/// Where a change came from.
#[derive(Debug, Clone, PartialEq, Eq)]
pub enum ChangeOrigin {
    /// A sync directory of this device, or the empty path for the user interface.
    Local { directory_path: String },
    /// A peer, by its public key.
    Peer { public_key: String },
}

/// A message of the synchronisation protocol between peers.
#[derive(Debug, Clone, PartialEq, Eq)]
pub enum SyncMessage {
    Manifest { entries: Vec<ManifestEntry> },
    TagManifest {
        definitions: Vec<TagManifestEntry>,
        relationships: Vec<RelationshipManifestEntry>,
    },
    TagRequest { tag_id: TagId },
    TagNotFound { tag_id: TagId },
    FetchRequest { request_id: RequestId, file_id: FileId, expected_hash: String },
    FetchFound { request_id: RequestId, file_id: FileId, content_hash: String, size: u64 },
    FetchMissing { request_id: RequestId },
    TransferStart { transfer_id: TransferId, file_id: FileId, content_hash: String },
    TransferChunkRequest { transfer_id: TransferId, offset: u64 },
    TransferChunk { transfer_id: TransferId, offset: u64, bytes: Vec<u8>, last: bool },
    TransferAbort { transfer_id: TransferId, reason: String },
}

/// A message on a peer link.
#[derive(Debug, Clone, PartialEq, Eq)]
pub enum Frame {
    Change(Change),
    Sync(SyncMessage),
}

} // verus!
