//! What a device is configured to synchronise, and with whom.

use vstd::prelude::*;

pub mod laws;

use crate::ids::{id_text, FileId, TagId};
use crate::state::{copy_tags, LogicalPath, PhysicalPath};
use crate::text::{joined, same_text};

verus! {

/// A peer.
#[derive(Debug, Clone, PartialEq, Eq)]
pub struct Peer {
    /// IP address and port. `None` leaves it to the peer to connect.
    pub address: Option<(String, u16)>,
    /// A label for log messages. Identity rests on `public_key` alone.
    pub name: String,
    pub public_key: String,
}

/// What a sync directory holds.
#[derive(Debug, Clone, PartialEq, Eq)]
pub enum SyncType {
    /// Every file, stored under its identifier.
    Universal {
        /// Keep the bytes of deleted files in this directory, so that a deletion can
        /// be undone.
        keep_deleted_files: bool,
    },
    /// The files that carry all of `tags`, laid out by logical path.
    TagBased { tags: Vec<TagId> },
}

/// The mathematical value of a [`SyncType`].
#[verifier::ext_equal]
pub enum SyncTypeView {
    Universal { keep_deleted_files: bool },
    TagBased { tags: Seq<TagId> },
}

impl View for SyncType {
    type V = SyncTypeView;

    open spec fn view(&self) -> SyncTypeView {
        match *self {
            SyncType::Universal { keep_deleted_files } => SyncTypeView::Universal {
                keep_deleted_files,
            },
            SyncType::TagBased { tags } => SyncTypeView::TagBased { tags: tags@ },
        }
    }
}

/// Where a directory of a type stores a file: under its identifier, or under its
/// logical path.
pub open spec fn placement(kind: SyncTypeView, logical_path: Seq<char>, file_id: FileId) -> Seq<
    char,
> {
    match kind {
        SyncTypeView::Universal { .. } => id_text(file_id.value),
        SyncTypeView::TagBased { .. } => logical_path,
    }
}

/// Why a configuration could not be had.
#[derive(Debug, Clone, PartialEq, Eq)]
pub enum ConfigurationError {
    /// The file could not be read.
    Read { path: String, source: String },
    /// It is no valid configuration.
    Parse(String),
}

impl ConfigurationError {
    /// The error in words.
    pub open spec fn text(self) -> Seq<char> {
        match self {
            ConfigurationError::Read { path, source } => "failed to read configuration file "@
                + path@ + ": "@ + source@,
            ConfigurationError::Parse(error) => "failed to parse configuration JSON: "@ + error@,
        }
    }

    /// The error in words.
    pub fn to_string(&self) -> (r: String)
        ensures
            r@ == self.text(),
    {
        match self {
            ConfigurationError::Read { path, source } => {
                let mut out = joined("failed to read configuration file ", path.as_str());
                out.append(": ");
                out.append(source.as_str());
                out
            },
            ConfigurationError::Parse(error) => joined(
                "failed to parse configuration JSON: ",
                error.as_str(),
            ),
        }
    }
}

/// Whether a list holds every tag of another.
pub open spec fn has_all(wanted: Seq<TagId>, tags: Seq<TagId>) -> bool {
    forall|t: TagId| #[trigger] wanted.contains(t) ==> tags.contains(t)
}

/// Whether a directory of a type wants a file with `tags`.
pub open spec fn wants(kind: SyncTypeView, tags: Seq<TagId>) -> bool {
    match kind {
        SyncTypeView::Universal { .. } => true,
        SyncTypeView::TagBased { tags: wanted } => has_all(wanted, tags),
    }
}

/// Whether every tag that a directory asks for is among the tags of a file.
pub fn contains_all_tags(sync_directory_tags: &Vec<TagId>, file_tags: &Vec<TagId>) -> (r: bool)
    ensures
        r == has_all(sync_directory_tags@, file_tags@),
{
    let mut i: usize = 0;
    while i < sync_directory_tags.len()
        invariant
            i <= sync_directory_tags.len(),
            forall|j: int| 0 <= j < i ==> file_tags@.contains(#[trigger] sync_directory_tags@[j]),
        decreases sync_directory_tags.len() - i,
    {
        if !crate::database::query::contains_tag(file_tags, sync_directory_tags[i]) {
            assert(sync_directory_tags@.contains(sync_directory_tags@[i as int]));
            return false;
        }
        i = i + 1;
    }
    true
}

impl SyncType {
    /// Where a directory of this type stores a file.
    pub fn physical_for(&self, logical_path: &LogicalPath, file_id: FileId) -> (r: PhysicalPath)
        ensures
            r@ == placement(self@, logical_path@, file_id),
    {
        match self {
            SyncType::Universal { .. } => PhysicalPath { text: file_id.to_string() },
            SyncType::TagBased { .. } => PhysicalPath::new(logical_path.as_str()),
        }
    }

    /// Whether a directory of this type wants a file with `tags`.
    pub fn wants(&self, tags: &Vec<TagId>) -> (r: bool)
        ensures
            r == wants(self@, tags@),
    {
        match self {
            SyncType::Universal { .. } => true,
            SyncType::TagBased { tags: wanted } => contains_all_tags(wanted, tags),
        }
    }
}

/// Directories for special purposes.
#[derive(Debug, Clone, Copy, PartialEq, Eq, Structural)]
pub enum SpecialType {
    Upload,
    Copy,
}

/// A synchronised directory of this device.
#[derive(Debug, Clone, PartialEq, Eq)]
pub struct SyncDirectory {
    pub path: String,
    pub sync_type: SyncType,
}

/// A tag whose definition is to exist on startup. It is a floor, not an override: it
/// creates the tag where it is missing and yields to every later change.
#[derive(Debug, Clone, PartialEq, Eq)]
pub struct TagDeclaration {
    pub id: TagId,
    pub name: String,
    /// May be empty.
    pub color: String,
}

/// What a device is configured to synchronise, and with whom.
#[derive(Debug, Clone, PartialEq, Eq)]
pub struct Configuration {
    pub sync_directories: Vec<SyncDirectory>,
    /// Port to listen on, if any.
    pub listen_port: Option<u16>,
    pub peers: Vec<Peer>,
    pub tags: Vec<TagDeclaration>,
}

/// The tags of all directories in turn.
pub open spec fn all_tags(directories: Seq<SyncDirectory>) -> Seq<TagId>
    decreases directories.len(),
{
    if directories.len() == 0 {
        Seq::empty()
    } else {
        all_tags(directories.drop_last()) + (match directories.last().sync_type@ {
            SyncTypeView::Universal { .. } => Seq::empty(),
            SyncTypeView::TagBased { tags } => tags,
        })
    }
}

/// What a device with some directories wants from peers as a whole.
pub open spec fn external_type(directories: Seq<SyncDirectory>) -> SyncTypeView {
    if exists|i: int| 0 <= i < directories.len() && is_universal(#[trigger] directories[i]) {
        SyncTypeView::Universal { keep_deleted_files: false }
    } else {
        SyncTypeView::TagBased { tags: all_tags(directories) }
    }
}

/// Whether a directory is universal.
pub open spec fn is_universal(directory: SyncDirectory) -> bool {
    directory.sync_type is Universal
}

impl Configuration {
    /// An example.
    pub fn new_example() -> (r: Self)
        ensures
            r.peers@.len() == 1,
            r.peers@[0].public_key@ == "public-key"@,
            r.peers@[0].name@ == "test"@,
            r.peers@[0].address matches Some((ip, port)) && ip@ == "192.168.188.10"@ && port
                == 2468,
            r.listen_port == Some(3468u16),
            r.sync_directories@.len() == 2,
            r.sync_directories@[0].path@ == "/tmp/tagnet-testcloud"@,
            r.sync_directories@[0].sync_type@ == (SyncTypeView::Universal {
                keep_deleted_files: false,
            }),
            r.sync_directories@[1].path@ == "/tmp/tagnet-testcloud-2"@,
            r.sync_directories@[1].sync_type@ == (SyncTypeView::TagBased {
                tags: Seq::<TagId>::empty(),
            }),
            r.tags@.len() == 0,
    {
        let mut peers: Vec<Peer> = Vec::new();
        peers.push(
            Peer {
                address: Some(("192.168.188.10".to_owned(), 2468)),
                name: "test".to_owned(),
                public_key: "public-key".to_owned(),
            },
        );
        let mut sync_directories: Vec<SyncDirectory> = Vec::new();
        sync_directories.push(
            SyncDirectory {
                path: "/tmp/tagnet-testcloud".to_owned(),
                sync_type: SyncType::Universal { keep_deleted_files: false },
            },
        );
        sync_directories.push(
            SyncDirectory {
                path: "/tmp/tagnet-testcloud-2".to_owned(),
                sync_type: SyncType::TagBased { tags: Vec::new() },
            },
        );
        Configuration { sync_directories, listen_port: Some(3468), peers, tags: Vec::new() }
    }

    /// The label of the first peer with a public key, or the key itself.
    pub fn peer_name<'a>(&'a self, public_key: &'a str) -> (r: &'a str)
        ensures
            match first_peer(self.peers@, public_key@, 0) {
                Some(i) => r@ == self.peers@[i].name@,
                None => r@ == public_key@,
            },
            r@ == shown_name(self.peers@, public_key@),
    {
        let mut i: usize = 0;
        while i < self.peers.len()
            invariant
                i <= self.peers.len(),
                first_peer(self.peers@, public_key@, 0) == first_peer(
                    self.peers@,
                    public_key@,
                    i as int,
                ),
            decreases self.peers.len() - i,
        {
            if same_text(self.peers[i].public_key.as_str(), public_key) {
                return self.peers[i].name.as_str();
            }
            i = i + 1;
        }
        public_key
    }

    /// What this device as a whole wants from peers: everything where one of its
    /// directories is universal, and otherwise the tags of all directories.
    pub fn get_external_sync_type(&self) -> (r: SyncType)
        ensures
            r@ == if exists|i: int|
                0 <= i < self.sync_directories@.len() && is_universal(
                    #[trigger] self.sync_directories@[i],
                ) {
                SyncTypeView::Universal { keep_deleted_files: false }
            } else {
                SyncTypeView::TagBased { tags: all_tags(self.sync_directories@) }
            },
            r@ == external_type(self.sync_directories@),
    {
        let mut tags: Vec<TagId> = Vec::new();
        let mut i: usize = 0;
        assert(self.sync_directories@.take(0) =~= Seq::<SyncDirectory>::empty());
        while i < self.sync_directories.len()
            invariant
                i <= self.sync_directories.len(),
                tags@ == all_tags(self.sync_directories@.take(i as int)),
                forall|j: int| 0 <= j < i ==> !is_universal(#[trigger] self.sync_directories@[j]),
            decreases self.sync_directories.len() - i,
        {
            proof {
                let next = self.sync_directories@.take(i + 1);
                assert(next.drop_last() =~= self.sync_directories@.take(i as int));
                assert(next.last() == self.sync_directories@[i as int]);
            }
            match &self.sync_directories[i].sync_type {
                SyncType::Universal { .. } => {
                    assert(is_universal(self.sync_directories@[i as int]));
                    return SyncType::Universal { keep_deleted_files: false };
                },
                SyncType::TagBased { tags: more } => {
                    let mut copy = copy_tags(more);
                    tags.append(&mut copy);
                },
            }
            i = i + 1;
        }
        assert(self.sync_directories@.take(i as int) =~= self.sync_directories@);
        SyncType::TagBased { tags }
    }
}

/// The position, from `i` on, of the first peer with a public key.
pub open spec fn first_peer(peers: Seq<Peer>, public_key: Seq<char>, i: int) -> Option<int>
    decreases peers.len() - i,
{
    if i < 0 || i >= peers.len() {
        None
    } else if peers[i].public_key@ == public_key {
        Some(i)
    } else {
        first_peer(peers, public_key, i + 1)
    }
}

/// The text that a peer with a public key is shown as.
pub open spec fn shown_name(peers: Seq<Peer>, public_key: Seq<char>) -> Seq<char> {
    match first_peer(peers, public_key, 0) {
        Some(i) => peers[i].name@,
        None => public_key,
    }
}

/// Figures on a connection. None are kept yet.
#[derive(Debug, Clone, Copy, PartialEq, Eq, Structural)]
pub struct ConnectionStatistics {}

/// The live state of a configured peer. Channels are named by numbers.
#[derive(Debug, PartialEq, Eq)]
pub struct RuntimePeer {
    pub sync_type: Option<SyncType>,
    pub statistics: ConnectionStatistics,
    /// The queue of frames to the peer, while a connection is established.
    pub outbound: Option<u64>,
    /// The queue of commands to the peer's session, set and cleared with `outbound`.
    pub commands: Option<u64>,
}

impl RuntimePeer {
    /// A peer without a connection.
    pub fn new() -> (r: Self)
        ensures
            r.sync_type is None,
            r.outbound is None,
            r.commands is None,
    {
        RuntimePeer {
            sync_type: None,
            statistics: ConnectionStatistics {  },
            outbound: None,
            commands: None,
        }
    }
}

impl Default for RuntimePeer {
    fn default() -> (r: Self)
        ensures
            r.sync_type is None,
            r.outbound is None,
            r.commands is None,
    {
        RuntimePeer::new()
    }
}

/// The live state of all configured peers, by public key.
#[derive(Debug, PartialEq, Eq)]
pub struct RuntimeConfiguration {
    pub peers: Vec<(String, RuntimePeer)>,
}

/// The position, from `i` on, of the entry of a public key.
pub open spec fn entry_of(
    peers: Seq<(String, RuntimePeer)>,
    public_key: Seq<char>,
    i: int,
) -> Option<int>
    decreases peers.len() - i,
{
    if i < 0 || i >= peers.len() {
        None
    } else if peers[i].0@ == public_key {
        Some(i)
    } else {
        entry_of(peers, public_key, i + 1)
    }
}

impl RuntimeConfiguration {
    /// Whether no two entries have the same public key.
    pub open spec fn distinct(&self) -> bool {
        forall|i: int, j: int|
            0 <= i < j < self.peers@.len() ==> (#[trigger] self.peers@[i]).0@ != (
            #[trigger] self.peers@[j]).0@
    }

    /// Whether a peer is configured.
    pub open spec fn knows(&self, public_key: Seq<char>) -> bool {
        entry_of(self.peers@, public_key, 0) is Some
    }

    /// The queue of frames to a peer.
    pub open spec fn outbound(&self, public_key: Seq<char>) -> Option<u64> {
        match entry_of(self.peers@, public_key, 0) {
            Some(i) => self.peers@[i].1.outbound,
            None => None,
        }
    }

    /// The queue of commands to a peer's session.
    pub open spec fn commands(&self, public_key: Seq<char>) -> Option<u64> {
        match entry_of(self.peers@, public_key, 0) {
            Some(i) => self.peers@[i].1.commands,
            None => None,
        }
    }

    /// One entry without a connection for each public key of the configuration.
    pub fn new(configuration: &Configuration) -> (r: Self)
        ensures
            r.distinct(),
            forall|key: Seq<char>| #[trigger]
                r.knows(key) <==> first_peer(configuration.peers@, key, 0) is Some,
            forall|key: Seq<char>| #[trigger] r.outbound(key) is None,
            forall|key: Seq<char>| #[trigger] r.commands(key) is None,
    {
        let mut r = RuntimeConfiguration { peers: Vec::new() };
        let mut i: usize = 0;
        while i < configuration.peers.len()
            invariant
                i <= configuration.peers.len(),
                r.distinct(),
                forall|j: int|
                    0 <= j < r.peers@.len() ==> (#[trigger] r.peers@[j]).1.outbound is None
                        && r.peers@[j].1.commands is None,
                forall|key: Seq<char>| #[trigger]
                    has_entry(r.peers@, key) <==> is_among(configuration.peers@, i as int, key),
            decreases configuration.peers.len() - i,
        {
            let key = configuration.peers[i].public_key.clone();
            let found = r.position(key.as_str());
            let ghost before = r.peers@;
            proof {
                lemma_entry_of(before, key@, 0);
            }
            if found.is_none() {
                r.peers.push((key, RuntimePeer::new()));
                assert(r.peers@.drop_last() =~= before);
            }
            proof {
                lemma_added(before, r.peers@, key@);
                assert forall|other: Seq<char>| #[trigger] has_entry(r.peers@, other) <==> is_among(
                    configuration.peers@,
                    i + 1,
                    other,
                ) by {
                    assert(has_entry(before, other) <==> is_among(
                        configuration.peers@,
                        i as int,
                        other,
                    ));
                    lemma_among_next(configuration.peers@, i as int, other);
                }
            }
            i = i + 1;
        }
        proof {
            assert forall|key: Seq<char>| #[trigger] r.knows(key) <==> first_peer(
                configuration.peers@,
                key,
                0,
            ) is Some by {
                lemma_entry_of(r.peers@, key, 0);
                lemma_first_peer(configuration.peers@, key, 0);
                assert(has_entry(r.peers@, key) <==> is_among(
                    configuration.peers@,
                    i as int,
                    key,
                ));
            }
            assert forall|key: Seq<char>| #[trigger] r.outbound(key) is None by {
                lemma_entry_of(r.peers@, key, 0);
            }
            assert forall|key: Seq<char>| #[trigger] r.commands(key) is None by {
                lemma_entry_of(r.peers@, key, 0);
            }
        }
        r
    }

    /// The position of the entry of a public key.
    pub fn position(&self, public_key: &str) -> (r: Option<usize>)
        ensures
            match r {
                Some(i) => i < self.peers@.len() && entry_of(self.peers@, public_key@, 0) == Some(
                    i as int,
                ),
                None => entry_of(self.peers@, public_key@, 0) is None,
            },
    {
        let mut i: usize = 0;
        while i < self.peers.len()
            invariant
                i <= self.peers.len(),
                entry_of(self.peers@, public_key@, 0) == entry_of(
                    self.peers@,
                    public_key@,
                    i as int,
                ),
            decreases self.peers.len() - i,
        {
            if same_text(self.peers[i].0.as_str(), public_key) {
                return Some(i);
            }
            i = i + 1;
        }
        None
    }

    /// The queue of frames to a peer, if it is connected.
    pub fn peer_outbound(&self, public_key: &str) -> (r: Option<u64>)
        ensures
            r == self.outbound(public_key@),
    {
        match self.position(public_key) {
            Some(i) => self.peers[i].1.outbound,
            None => None,
        }
    }

    /// The queue of commands to a peer's session, if it is connected.
    pub fn peer_commands(&self, public_key: &str) -> (r: Option<u64>)
        ensures
            r == self.commands(public_key@),
    {
        match self.position(public_key) {
            Some(i) => self.peers[i].1.commands,
            None => None,
        }
    }
}

spec fn has_entry(peers: Seq<(String, RuntimePeer)>, key: Seq<char>) -> bool {
    exists|j: int| 0 <= j < peers.len() && (#[trigger] peers[j]).0@ == key
}

spec fn is_among(peers: Seq<Peer>, n: int, key: Seq<char>) -> bool {
    exists|k: int| 0 <= k < n && (#[trigger] peers[k]).public_key@ == key
}

proof fn lemma_among_next(peers: Seq<Peer>, n: int, key: Seq<char>)
    requires
        0 <= n < peers.len(),
    ensures
        is_among(peers, n + 1, key) <==> is_among(peers, n, key) || peers[n].public_key@ == key,
{
    if is_among(peers, n + 1, key) && peers[n].public_key@ != key {
        let k = choose|k: int| 0 <= k < n + 1 && (#[trigger] peers[k]).public_key@ == key;
        assert(0 <= k < n);
    }
}

/// Adding an entry for a key unless there is one.
proof fn lemma_added(
    before: Seq<(String, RuntimePeer)>,
    after: Seq<(String, RuntimePeer)>,
    key: Seq<char>,
)
    requires
        forall|i: int, j: int|
            0 <= i < j < before.len() ==> (#[trigger] before[i]).0@ != (#[trigger] before[j]).0@,
        if has_entry(before, key) {
            after == before
        } else {
            after.len() == before.len() + 1 && after.drop_last() == before && after.last().0@
                == key
        },
    ensures
        forall|i: int, j: int|
            0 <= i < j < after.len() ==> (#[trigger] after[i]).0@ != (#[trigger] after[j]).0@,
        forall|other: Seq<char>| #[trigger]
            has_entry(after, other) <==> has_entry(before, other) || other == key,
{
    if !has_entry(before, key) {
        assert forall|i: int| 0 <= i < before.len() implies #[trigger] after[i] == before[i] by {
            assert(after.drop_last()[i] == after[i]);
        }
        assert forall|i: int, j: int| 0 <= i < j < after.len() implies (#[trigger] after[i]).0@ != (
        #[trigger] after[j]).0@ by {
            assert(after[i] == before[i]);
            if j < before.len() {
                assert(after[j] == before[j]);
            }
        }
        assert forall|other: Seq<char>| #[trigger] has_entry(after, other) <==> has_entry(
            before,
            other,
        ) || other == key by {
            if has_entry(before, other) {
                let j = choose|j: int| 0 <= j < before.len() && (#[trigger] before[j]).0@ == other;
                assert(after[j].0@ == other);
            }
            assert(after[before.len() as int].0@ == key);
            if has_entry(after, other) && other != key {
                let j = choose|j: int| 0 <= j < after.len() && (#[trigger] after[j]).0@ == other;
                assert(before[j].0@ == other);
            }
        }
    }
}

/// What [`entry_of`] finds.
pub proof fn lemma_entry_of(peers: Seq<(String, RuntimePeer)>, key: Seq<char>, i: int)
    requires
        0 <= i <= peers.len(),
    ensures
        match entry_of(peers, key, i) {
            Some(k) => i <= k < peers.len() && peers[k].0@ == key,
            None => forall|k: int| i <= k < peers.len() ==> (#[trigger] peers[k]).0@ != key,
        },
    decreases peers.len() - i,
{
    if i < peers.len() && peers[i].0@ != key {
        lemma_entry_of(peers, key, i + 1);
    }
}

/// What [`first_peer`] finds.
pub proof fn lemma_first_peer(peers: Seq<Peer>, key: Seq<char>, i: int)
    requires
        0 <= i <= peers.len(),
    ensures
        match first_peer(peers, key, i) {
            Some(k) => i <= k < peers.len() && peers[k].public_key@ == key,
            None => forall|k: int| i <= k < peers.len() ==> (#[trigger] peers[k]).public_key@
                != key,
        },
    decreases peers.len() - i,
{
    if i < peers.len() && peers[i].public_key@ != key {
        lemma_first_peer(peers, key, i + 1);
    }
}

} // verus!
