//! The messages that flow through the daemon.
//!
//! Whoever waits for an answer is named by a number.

use vstd::prelude::*;
use crate::file_bytes::FileBytes;
use crate::ids::{FileId, TagId};
use crate::state::{Change, ChangeOrigin, LogicalPath};

verus! {

/// A change on its way into the daemon.
#[derive(Debug)]
pub enum Ingest {
    /// A change that originates here and brings the bytes along.
    Content(ContentChange),
    /// A change without bytes; every change of a peer is one.
    Meta(Change),
}

/// A change that brings the bytes along.
#[derive(Debug)]
pub enum ContentChange {
    FileAdded {
        file_id: FileId,
        logical_path: LogicalPath,
        content: FileBytes,
        content_hash: String,
        tags: Vec<TagId>,
    },
    FileChanged { file_id: FileId, content: FileBytes, content_hash: String },
}

impl Ingest {
    /// Lifts a change of the wire onto the bus. It has no bytes.
    pub fn from_change(change: Change) -> (r: Self)
        ensures
            r == Ingest::Meta(change),
    {
        Ingest::Meta(change)
    }
}

/// How arrived bytes are placed into sync directories.
#[derive(Debug)]
pub enum MaterializePlacement {
    /// A new file: it is created in each directory that wants it.
    Create { logical_path: LogicalPath, tags: Vec<TagId> },
    /// A known file: it is overwritten where it is held.
    Change,
}

/// The mathematical value of a [`MaterializePlacement`].
#[verifier::ext_equal]
pub enum PlacementView {
    Create { logical_path: LogicalPath, tags: Seq<TagId> },
    Change,
}

impl View for MaterializePlacement {
    type V = PlacementView;

    open spec fn view(&self) -> PlacementView {
        match *self {
            MaterializePlacement::Create { logical_path, tags } => PlacementView::Create {
                logical_path,
                tags: tags@,
            },
            MaterializePlacement::Change => PlacementView::Change,
        }
    }
}

/// A message on the daemon's ingest bus.
#[derive(Debug)]
pub enum DaemonMessage {
    /// A change to apply.
    Change(Ingest, ChangeOrigin),
    /// A request for a file's bytes, answered to `respond_to`.
    Fetch { file_id: FileId, expected_hash: String, respond_to: u64 },
    /// Bytes that arrived over a transfer, verified against `content_hash`, to be placed.
    Materialize {
        file_id: FileId,
        content: FileBytes,
        content_hash: String,
        origin: ChangeOrigin,
        placement: MaterializePlacement,
    },
    /// Look again at where a file belongs, and seek its bytes where they are wanted and not
    /// held.
    ReconcilePlacement { file_id: FileId },
    /// Record a file and a version of it that a peer's manifest announced, and pass the
    /// announcement on.
    CatalogFile {
        file_id: FileId,
        logical_path: LogicalPath,
        content_hash: String,
        origin: ChangeOrigin,
    },
    /// A client serves the bytes of a file on demand: a new one where there is a
    /// logical path, and otherwise a known one.
    AnnounceProvided {
        file_id: FileId,
        logical_path: Option<LogicalPath>,
        content_hash: String,
        size: u64,
        tags: Vec<TagId>,
    },
}

impl DaemonMessage {
    /// A change of the wire as a message.
    pub fn change(change: Change, origin: ChangeOrigin) -> (r: Self)
        ensures
            r == DaemonMessage::Change(Ingest::Meta(change), origin),
    {
        DaemonMessage::Change(Ingest::from_change(change), origin)
    }
}

/// A command to the session of a peer.
#[derive(Debug)]
pub enum PeerCommand {
    /// Pull a file from the peer and place it.
    StartReceive { file_id: FileId, content_hash: String, placement: MaterializePlacement },
}

/// Why an on-demand fetch failed.
#[derive(Debug, Clone, Copy, PartialEq, Eq, Structural)]
pub enum FetchError {
    /// No connected peer holds the wanted content.
    NotAvailable,
    /// The overall deadline passed.
    TimedOut,
    /// The daemon is shutting down.
    ShuttingDown,
}

impl FetchError {
    /// The error in words.
    pub open spec fn text(self) -> Seq<char> {
        match self {
            FetchError::NotAvailable => "file not available from any connected peer"@,
            FetchError::TimedOut => "fetch timed out"@,
            FetchError::ShuttingDown => "runtime is shutting down"@,
        }
    }

    /// The error in words.
    pub fn to_string(&self) -> (r: String)
        ensures
            r@ == self.text(),
    {
        match self {
            FetchError::NotAvailable => "file not available from any connected peer".to_owned(),
            FetchError::TimedOut => "fetch timed out".to_owned(),
            FetchError::ShuttingDown => "runtime is shutting down".to_owned(),
        }
    }
}

} // verus!
