//! The session with a connected peer: what each frame, command and finished transfer
//! calls for.

use vstd::prelude::*;

pub mod laws;

use crate::bus::{
    DaemonMessage, FetchError, Ingest, MaterializePlacement, PeerCommand, PlacementView,
};
use crate::configuration::{entry_of, Configuration, RuntimeConfiguration, RuntimePeer};
use crate::database::manifests::{
    is_manifest, is_relationship_manifest, is_tag_manifest, ManifestRow,
};
use crate::database::short_ids::is_listing;
use crate::database::{DatabaseView, EntryKey, FileDatabase};
use crate::fetch::{
    fetch_views, FetchAction, FetchesView, FoundAction, FoundThen, PendingFetches, ReplyView,
};
use crate::file_bytes::FileBytes;
use crate::ids::{FileId, RequestId, TagId, TransferId};
use crate::pipeline::{
    after_message, announcement, catalogued_as, has_room, is_missing, is_told, is_wanted,
    law_a_catalogued_version_is_announced_once, law_a_missed_version_is_sought,
    law_recorded_content_is_only_placed, receives, tags_on, ActionView,
};
use crate::reconcile::{
    build_local_manifest, build_local_tag_manifest, build_tag_request_response,
    definitions_needed, lemma_changed_files_are_known, news, reconcile_peer_manifest,
    reconcile_peer_tag_manifest, spells_rows, wanted_of, wanted_of_first, WantedFile, WantedView,
};
use crate::state::{
    Change, ChangeOrigin, ChangeView, FileInfo, Frame, LogicalPath, ManifestEntry, SyncMessage,
};
use crate::table::Table;
use crate::text::same_text;
use crate::transfer::{ReceiveOutcome, TransferMessage};

verus! {

/// Why a file is pulled, and what becomes of its bytes.
#[derive(Debug)]
pub enum ReceiverPurpose {
    /// They are placed in the sync directories.
    Materialize {
        file_id: FileId,
        content_hash: String,
        origin: ChangeOrigin,
        placement: MaterializePlacement,
    },
    /// They answer an on-demand fetch.
    Fetch { then: FoundThen },
}

/// A file to pull over this link.
#[derive(Debug)]
pub struct Pull {
    pub file_id: FileId,
    pub content_hash: String,
    /// The size, or 0 where it is not known.
    pub expected_size: u64,
    pub purpose: ReceiverPurpose,
}

/// What a frame calls for.
#[derive(Debug)]
pub enum SessionStep {
    /// Nothing.
    Nothing,
    /// Put a message on the ingest bus.
    Enqueue(DaemonMessage),
    /// Pull files, each under a fresh transfer that [`PeerSession::opened`] is told.
    Pulls(Vec<Pull>),
    /// Put messages on the ingest bus that record what the peer announced, and then pull
    /// the files.
    Reconcile { catalog: Vec<DaemonMessage>, pulls: Vec<Pull> },
    /// Look for a file in the sync directories, for [`answer_request`].
    CheckLocal { request_id: RequestId, file_id: FileId, expected_hash: String },
    /// Look for a file in the sync directories, for [`PeerSession::serve_transfer`].
    ReadForTransfer { transfer_id: TransferId, file_id: FileId, content_hash: String },
    /// Carry out what the fetch subsystem says.
    Fetch(Vec<FetchAction>),
    /// Ask the peer for definitions of tags, and put changes on the ingest bus.
    Tags { requests: Vec<TagId>, changes: Vec<Change> },
    /// Send a frame to the peer.
    Send(Frame),
    /// Hand a message to the endpoint of a transfer.
    Deliver { transfer_id: TransferId, message: TransferMessage },
}

/// What a finished transfer calls for.
#[derive(Debug)]
pub enum CompletionStep {
    /// Nothing.
    Nothing,
    /// Put a message on the ingest bus.
    Enqueue(DaemonMessage),
    /// Answer a waiter.
    Answer { waiter: u64, result: Result<FileBytes, FetchError> },
    /// Send a message to another peer.
    Tell { public_key: String, message: SyncMessage },
}

/// Who serves a transfer that the peer opened.
#[derive(Debug)]
pub enum ServeStep {
    /// A file at hand.
    Content(FileBytes),
    /// A client, over the control connection with a number.
    Provider(u64),
    /// Nobody: the peer is told so.
    Refuse(Frame),
}

/// The place of a session among those with the same peer.
#[derive(Debug, Clone, Copy, PartialEq, Eq, Structural)]
pub enum SessionSlot {
    /// Changes for the peer go out through this session.
    Owner,
    /// Another session is live: this one only takes in.
    InboundOnly,
    /// The peer is not configured: the connection is dropped.
    Unknown,
}

/// The entries with the channels of one of them set.
pub open spec fn with_channels(
    peers: Seq<(String, RuntimePeer)>,
    at: int,
    outbound: Option<u64>,
    commands: Option<u64>,
) -> Seq<(String, RuntimePeer)> {
    peers.update(at, (peers[at].0, RuntimePeer { outbound, commands, ..peers[at].1 }))
}

/// The entries once a session has registered its channels, and the place that it has.
pub open spec fn after_install(
    peers: Seq<(String, RuntimePeer)>,
    public_key: Seq<char>,
    outbound: u64,
    commands: u64,
    occupant_closed: bool,
) -> (Seq<(String, RuntimePeer)>, SessionSlot) {
    match entry_of(peers, public_key, 0) {
        None => (peers, SessionSlot::Unknown),
        Some(i) => if peers[i].1.outbound is None || occupant_closed {
            (with_channels(peers, i, Some(outbound), Some(commands)), SessionSlot::Owner)
        } else {
            (peers, SessionSlot::InboundOnly)
        },
    }
}

/// The entries once a session has taken its channels back.
pub open spec fn after_clear(
    peers: Seq<(String, RuntimePeer)>,
    public_key: Seq<char>,
    owns_outbound: bool,
    outbound: u64,
) -> Seq<(String, RuntimePeer)> {
    match entry_of(peers, public_key, 0) {
        Some(i) if owns_outbound && peers[i].1.outbound == Some(outbound) => with_channels(
            peers,
            i,
            None,
            None,
        ),
        _ => peers,
    }
}

/// Registers the channels of a new session, unless a live one holds the place.
/// `occupant_closed` says whether the channel that holds it is closed.
pub fn install_session(
    runtime: &mut RuntimeConfiguration,
    public_key: &str,
    outbound: u64,
    commands: u64,
    occupant_closed: bool,
) -> (r: SessionSlot)
    ensures
        match entry_of(old(runtime).peers@, public_key@, 0) {
            None => r == SessionSlot::Unknown && final(runtime).peers@ == old(runtime).peers@,
            Some(i) => if old(runtime).peers@[i].1.outbound is None || occupant_closed {
                &&& r == SessionSlot::Owner
                &&& final(runtime).peers@ == with_channels(
                    old(runtime).peers@,
                    i,
                    Some(outbound),
                    Some(commands),
                )
            } else {
                r == SessionSlot::InboundOnly && final(runtime).peers@ == old(runtime).peers@
            },
        },
        (final(runtime).peers@, r) == after_install(
            old(runtime).peers@,
            public_key@,
            outbound,
            commands,
            occupant_closed,
        ),
{
    match runtime.position(public_key) {
        Some(i) => {
            if runtime.peers[i].1.outbound.is_none() || occupant_closed {
                set_channels(runtime, i, Some(outbound), Some(commands));
                SessionSlot::Owner
            } else {
                SessionSlot::InboundOnly
            }
        },
        None => SessionSlot::Unknown,
    }
}

fn set_channels(
    runtime: &mut RuntimeConfiguration,
    at: usize,
    outbound: Option<u64>,
    commands: Option<u64>,
)
    requires
        at < old(runtime).peers@.len(),
    ensures
        final(runtime).peers@ == with_channels(
            old(runtime).peers@,
            at as int,
            outbound,
            commands,
        ),
{
    let ghost before = runtime.peers@;
    let entry = runtime.peers.remove(at);
    let (key, mut peer) = entry;
    peer.outbound = outbound;
    peer.commands = commands;
    runtime.peers.insert(at, (key, peer));
    assert(runtime.peers@ =~= with_channels(before, at as int, outbound, commands));
}

/// Takes the channels of a session back, where they are still its own.
pub fn clear_outbound_if_owned(
    runtime: &mut RuntimeConfiguration,
    public_key: &str,
    owns_outbound: bool,
    outbound: u64,
)
    ensures
        match entry_of(old(runtime).peers@, public_key@, 0) {
            Some(i) if owns_outbound && old(runtime).peers@[i].1.outbound == Some(outbound) =>
                final(runtime).peers@ == with_channels(old(runtime).peers@, i, None, None),
            _ => final(runtime).peers@ == old(runtime).peers@,
        },
        final(runtime).peers@ == after_clear(
            old(runtime).peers@,
            public_key@,
            owns_outbound,
            outbound,
        ),
{
    if !owns_outbound {
        return;
    }
    match runtime.position(public_key) {
        Some(i) => {
            let own = match runtime.peers[i].1.outbound {
                Some(current) => current == outbound,
                None => false,
            };
            if own {
                set_channels(runtime, i, None, None);
            }
        },
        None => {},
    }
}

/// Setting channels changes no public key.
proof fn lemma_same_entries(
    peers: Seq<(String, RuntimePeer)>,
    at: int,
    outbound: Option<u64>,
    commands: Option<u64>,
    key: Seq<char>,
    i: int,
)
    requires
        0 <= at < peers.len(),
        0 <= i <= peers.len(),
    ensures
        entry_of(with_channels(peers, at, outbound, commands), key, i) == entry_of(peers, key, i),
    decreases peers.len() - i,
{
    if i < peers.len() {
        lemma_same_entries(peers, at, outbound, commands, key, i + 1);
    }
}

/// A session that gives its place up leaves it free, and one that another session has
/// replaced leaves that one's channels alone.
pub proof fn law_a_place_has_one_owner(
    peers: Seq<(String, RuntimePeer)>,
    at: int,
    key: Seq<char>,
    outbound: u64,
    commands: u64,
)
    requires
        0 <= at < peers.len(),
        entry_of(peers, key, 0) == Some(at),
    ensures
        ({
            let installed = with_channels(peers, at, Some(outbound), Some(commands));
            let cleared = with_channels(installed, at, None, None);
            &&& entry_of(installed, key, 0) == Some(at)
            &&& installed[at].1.outbound == Some(outbound)
            &&& entry_of(cleared, key, 0) == Some(at)
            &&& cleared[at].1.outbound is None
            &&& cleared[at].1.commands is None
        }),
{
    lemma_same_entries(peers, at, Some(outbound), Some(commands), key, 0);
    let installed = with_channels(peers, at, Some(outbound), Some(commands));
    lemma_same_entries(installed, at, None, None, key, 0);
}

/// Whether frames open a session: the tags come first, and then the files.
pub open spec fn opens_session(
    db: DatabaseView,
    keys: Seq<EntryKey>,
    frames: Seq<Frame>,
) -> bool {
    &&& frames.len() == 2
    &&& frames[0] matches Frame::Sync(SyncMessage::TagManifest { definitions, relationships })
        && is_tag_manifest(db, definitions@) && is_relationship_manifest(
        db,
        keys,
        relationships@,
    )
    &&& frames[1] matches Frame::Sync(SyncMessage::Manifest { entries }) && exists|
        rows: Seq<ManifestRow>,
    | #[trigger]
        is_manifest(db, rows) && spells_rows(entries@, rows)
}

/// The frames that open a session: first the tags, so that files find their
/// directories, then the files.
pub fn opening_frames(database: &FileDatabase) -> (r: Vec<Frame>)
    ensures
        r@.len() == 2,
        r@[0] matches Frame::Sync(SyncMessage::TagManifest { definitions, relationships })
            && is_tag_manifest(database@, definitions@) && is_relationship_manifest(
            database@,
            database.entry_keys(),
            relationships@,
        ),
        r@[1] matches Frame::Sync(SyncMessage::Manifest { entries }) && exists|
            rows: Seq<ManifestRow>,
        | #[trigger]
            is_manifest(database@, rows) && spells_rows(entries@, rows),
        opens_session(database@, database.entry_keys(), r@),
{
    let mut frames: Vec<Frame> = Vec::new();
    match build_local_tag_manifest(database) {
        Ok((definitions, relationships)) => {
            frames.push(Frame::Sync(SyncMessage::TagManifest { definitions, relationships }));
        },
        Err(_) => {},
    }
    match build_local_manifest(database) {
        Ok(entries) => {
            frames.push(Frame::Sync(SyncMessage::Manifest { entries }));
        },
        Err(_) => {},
    }
    frames
}

/// Whether a pull fetches a wanted file of a peer.
pub open spec fn is_pull_of(pull: Pull, wanted: WantedView, public_key: Seq<char>) -> bool {
    &&& pull.file_id == wanted.file_id
    &&& pull.content_hash@ == wanted.content_hash
    &&& pull.expected_size == 0
    &&& pull.purpose matches ReceiverPurpose::Materialize {
        file_id,
        content_hash,
        origin,
        placement,
    } && {
        &&& file_id == wanted.file_id
        &&& content_hash@ == wanted.content_hash
        &&& origin matches ChangeOrigin::Peer { public_key: key } && key@ == public_key
        &&& placement@ == wanted.placement
    }
}

/// Whether pulls fetch wanted files, one for one.
pub open spec fn are_pulls_of(
    pulls: Seq<Pull>,
    wanted: Seq<WantedView>,
    public_key: Seq<char>,
) -> bool {
    &&& pulls.len() == wanted.len()
    &&& forall|i: int|
        0 <= i < pulls.len() ==> is_pull_of(#[trigger] pulls[i], wanted[i], public_key)
}

/// Whether a message hands the record of a wanted file to the change pipeline, the only
/// writer of the database.
pub open spec fn is_record_of(
    message: DaemonMessage,
    wanted: WantedView,
    db: DatabaseView,
    public_key: Seq<char>,
) -> bool {
    message matches DaemonMessage::CatalogFile { file_id, logical_path, content_hash, origin } && {
        &&& file_id == wanted.file_id
        &&& logical_path@ == match wanted.placement {
            PlacementView::Create { logical_path, .. } => logical_path@,
            PlacementView::Change => db.files[wanted.file_id],
        }
        &&& content_hash@ == wanted.content_hash
        &&& origin matches ChangeOrigin::Peer { public_key: key } && key@ == public_key
    }
}

/// Whether messages hand the records of wanted files over, one for one.
pub open spec fn are_records_of(
    messages: Seq<DaemonMessage>,
    wanted: Seq<WantedView>,
    db: DatabaseView,
    public_key: Seq<char>,
) -> bool {
    &&& messages.len() == wanted.len()
    &&& forall|i: int|
        0 <= i < messages.len() ==> is_record_of(
            #[trigger] messages[i],
            wanted[i],
            db,
            public_key,
        )
}

/// A look at where each of some files belongs, in their order.
pub open spec fn sweep_of(list: Seq<FileInfo>) -> Seq<DaemonMessage> {
    list.map_values(
        |info: FileInfo| DaemonMessage::ReconcilePlacement { file_id: info.file_id },
    )
}

/// Looks again at where each listed file belongs, in ascending order of their identifiers.
/// A session does so when it opens.
pub fn opening_sweep(database: &FileDatabase) -> (r: Vec<DaemonMessage>)
    ensures
        exists|list: Seq<FileInfo>| #[trigger]
            is_listing(database@, list) && r@ == sweep_of(list),
{
    let mut out: Vec<DaemonMessage> = Vec::new();
    let list: Vec<FileInfo> = match database.get_all_files() {
        Ok(list) => list,
        Err(_) => Vec::new(),
    };
    let ghost wanted = sweep_of(list@);
    let mut i: usize = 0;
    while i < list.len()
        invariant
            i <= list.len(),
            wanted == sweep_of(list@),
            out@ == wanted.take(i as int),
        decreases list.len() - i,
    {
        out.push(DaemonMessage::ReconcilePlacement { file_id: list[i].file_id });
        i = i + 1;
        assert(wanted.take(i as int) =~= wanted.take(i - 1).push(wanted[i - 1]));
    }
    assert(wanted.take(i as int) =~= wanted);
    out
}

/// Whether a change announces a wanted file.
pub open spec fn announces(change: ChangeView, wanted: WantedView) -> bool {
    match wanted.placement {
        PlacementView::Create { logical_path: path, tags: carried } => {
            &&& change matches ChangeView::FileMetadataAdded {
                file_id,
                logical_path,
                content_hash,
                tags,
            }
            &&& file_id == wanted.file_id
            &&& logical_path@ == path@
            &&& content_hash@ == wanted.content_hash
            &&& tags == carried
        },
        PlacementView::Change => {
            &&& change matches ChangeView::Other(
                Change::FileMetadataChanged { file_id, content_hash },
            )
            &&& file_id == wanted.file_id
            &&& content_hash@ == wanted.content_hash
        },
    }
}

/// A file acquired through a manifest is announced: the record that the session hands to
/// the change pipeline for an entry of a peer's manifest has every other connected peer
/// told of the file, and the arrival of its bytes tells nobody again.
pub proof fn law_a_pulled_file_is_announced(
    configuration: Configuration,
    runtime: RuntimeConfiguration,
    db: DatabaseView,
    entry: ManifestEntry,
    public_key: Seq<char>,
    record: DaemonMessage,
    arrival: DaemonMessage,
    now: i64,
    later: i64,
    here: ChangeOrigin,
    i: int,
)
    requires
        wanted_of(db, entry) matches Some(wanted) && is_record_of(record, wanted, db, public_key),
        has_room(db, entry.file_id),
        record matches DaemonMessage::CatalogFile { file_id, content_hash, .. } && (arrival
            matches DaemonMessage::Materialize { file_id: f, content_hash: h, .. } && f == file_id
            && h == content_hash),
        0 <= i < configuration.peers@.len(),
        configuration.peers@[i].public_key@ != public_key,
        runtime.outbound(configuration.peers@[i].public_key@) is Some,
    ensures
        ({
            let wanted = wanted_of(db, entry)->0;
            let (catalogued, first) = after_message(
                configuration,
                runtime,
                db,
                record,
                now,
                here,
            );
            let second = after_message(
                configuration,
                runtime,
                catalogued,
                arrival,
                later,
                here,
            ).1;
            &&& exists|change: ChangeView| #[trigger]
                announces(change, wanted) && is_told(
                    first,
                    configuration.peers@[i].public_key@,
                    change,
                )
            &&& forall|k: int| 0 <= k < second.len() ==> !(#[trigger] second[k] is Send)
        }),
{
    match (record, arrival) {
        (
            DaemonMessage::CatalogFile { file_id, logical_path, content_hash, origin },
            DaemonMessage::Materialize { content, origin: source, placement, .. },
        ) => {
            let peer = configuration.peers@[i];
            assert(receives(runtime, origin, peer));
            law_a_catalogued_version_is_announced_once(
                configuration,
                runtime,
                db,
                file_id,
                logical_path,
                content_hash,
                origin,
                content@,
                placement@,
                now,
                later,
                i,
            );
            let change = announcement(
                file_id,
                content_hash,
                catalogued_as(db, file_id, logical_path),
            );
            assert(announces(change, wanted_of(db, entry)->0));
            let catalogued = after_message(configuration, runtime, db, record, now, here).0;
            law_recorded_content_is_only_placed(
                configuration,
                runtime,
                catalogued,
                file_id,
                content@,
                content_hash,
                source,
                placement@,
                later,
            );
        },
        _ => {},
    }
}

/// A pull that failed is made good: the next session opens with a look at the file, which
/// has the peers asked for its latest version, where some directory wants it and what is
/// held of it is another content or nothing.
pub proof fn law_a_failed_pull_is_made_good(
    configuration: Configuration,
    runtime: RuntimeConfiguration,
    db: DatabaseView,
    list: Seq<FileInfo>,
    file_id: FileId,
    held: Option<Seq<char>>,
    now: i64,
    here: ChangeOrigin,
)
    requires
        is_listing(db, list),
        db.files.contains_key(file_id),
        db.history(file_id).len() > 0,
        is_wanted(configuration, tags_on(db, file_id)),
        held != Some(db.history(file_id).last().content_hash),
    ensures
        sweep_of(list).contains(DaemonMessage::ReconcilePlacement { file_id }),
        after_message(
            configuration,
            runtime,
            db,
            DaemonMessage::ReconcilePlacement { file_id },
            now,
            here,
        ).1.contains(
            ActionView::Seek {
                file_id,
                expected_hash: db.history(file_id).last().content_hash,
                logical_path: db.files[file_id],
                tags: tags_on(db, file_id),
            },
        ),
        is_missing(held, db.history(file_id).last().content_hash),
{
    assert(db.listed(file_id));
    let k = choose|k: int| 0 <= k < list.len() && (#[trigger] list[k]).file_id == file_id;
    assert(sweep_of(list)[k] == (DaemonMessage::ReconcilePlacement { file_id }));
    law_a_missed_version_is_sought(configuration, runtime, db, file_id, held, now, here);
}

/// The mathematical value of a session.
#[verifier::ext_equal]
pub struct SessionView {
    pub public_key: Seq<char>,
    /// The transfers on this link.
    pub transfers: Set<TransferId>,
}

/// The session with a connected peer.
pub struct PeerSession {
    public_key: String,
    transfers: Table<TransferId, ()>,
}

/// Whether a frame of the peer is taken in as it should be: what the session, the fetches and
/// the next step are then.
pub open spec fn frame_handled(
    before: SessionView,
    after: SessionView,
    runtime: RuntimeConfiguration,
    db: DatabaseView,
    fetches: FetchesView,
    fetches_after: FetchesView,
    frame: Frame,
    step: SessionStep,
) -> bool {
    &&& after.public_key == before.public_key
    &&& after.transfers == before.transfers || (frame matches Frame::Sync(
        SyncMessage::TransferAbort { .. },
    ))
    &&& fetches_after == fetches || (frame matches Frame::Sync(SyncMessage::FetchFound { .. }))
        || (frame matches Frame::Sync(SyncMessage::FetchMissing { .. }))
    &&& match frame {
        Frame::Change(change) => step matches SessionStep::Enqueue(
            DaemonMessage::Change(Ingest::Meta(c), ChangeOrigin::Peer { public_key }),
        ) && c == change && public_key@ == before.public_key,
        Frame::Sync(SyncMessage::Manifest { entries }) => if runtime.outbound(
            before.public_key,
        ) is Some {
            let wanted = wanted_of_first(db, entries@, entries@.len() as int);
            step matches SessionStep::Reconcile { catalog, pulls } && are_records_of(
                catalog@,
                wanted,
                db,
                before.public_key,
            ) && are_pulls_of(pulls@, wanted, before.public_key)
        } else {
            step is Nothing
        },
        Frame::Sync(SyncMessage::TagManifest { definitions, relationships }) =>
            if runtime.outbound(before.public_key) is Some {
                step matches SessionStep::Tags { requests, changes } && requests@
                    == definitions_needed(
                    db,
                    definitions@,
                    definitions@.len() as int,
                ) && changes@ == news(
                    db,
                    relationships@,
                    relationships@.len() as int,
                )
            } else {
                step is Nothing
            },
        Frame::Sync(SyncMessage::TagRequest { tag_id }) => if runtime.outbound(
            before.public_key,
        ) is Some {
            step matches SessionStep::Send(frame) && match frame {
                Frame::Change(
                    Change::TagAdded { tag_id: id, tag_name, color, metadata, modified_at },
                ) => {
                    &&& id == tag_id
                    &&& metadata is None
                    &&& db.tags.contains_key(tag_id)
                    &&& db.tags[tag_id].name == tag_name@
                    &&& db.tags[tag_id].color == color@
                    &&& db.tags[tag_id].modified_at == modified_at
                },
                Frame::Sync(SyncMessage::TagNotFound { tag_id: id }) => id == tag_id
                    && !db.tags.contains_key(tag_id),
                _ => false,
            }
        } else {
            step is Nothing
        },
        Frame::Sync(SyncMessage::TagNotFound { .. }) => step is Nothing,
        Frame::Sync(SyncMessage::FetchRequest { request_id, file_id, expected_hash }) => step
            == (SessionStep::CheckLocal { request_id, file_id, expected_hash }),
        Frame::Sync(SyncMessage::FetchFound { request_id, file_id, content_hash, size }) =>
            if fetches.table.contains_key(request_id)
                && fetches.table[request_id].expected_hash == content_hash@ {
                &&& fetches_after == (FetchesView {
                    table: fetches.table.remove(request_id),
                    ..fetches
                })
                &&& step matches SessionStep::Pulls(pulls) && pulls@.len() == 1 && {
                    let pull = pulls@[0];
                    &&& pull.file_id == file_id
                    &&& pull.content_hash@ == content_hash@
                    &&& pull.expected_size == size
                    &&& pull.purpose matches ReceiverPurpose::Fetch { then }
                        && match fetches.table[request_id].reply_to {
                        ReplyView::Local(waiter) => then == FoundThen::DeliverLocal(waiter),
                        ReplyView::Peer(parent) => then matches FoundThen::RelayUp {
                            parent_peer,
                            request_id: relayed,
                            file_id: relayed_file,
                            content_hash: relayed_hash,
                            size: relayed_size,
                        } && parent_peer@ == parent && relayed == request_id
                            && relayed_file == file_id && relayed_hash@ == content_hash@
                            && relayed_size == size,
                    }
                }
            } else {
                step is Nothing && fetches_after == fetches
            },
        Frame::Sync(SyncMessage::FetchMissing { request_id }) => step matches
            SessionStep::Fetch(actions) && is_missing_taken_in(
            fetches,
            fetches_after,
            runtime,
            before.public_key,
            request_id,
            actions@,
        ),
        Frame::Sync(
            SyncMessage::TransferStart { transfer_id, file_id, content_hash },
        ) => step == (SessionStep::ReadForTransfer { transfer_id, file_id, content_hash }),
        Frame::Sync(sync) => after_transfer_frame(before, after, sync, step),
    }
}

/// Whether the outcome of a transfer is taken in as it should be: what the fetches and the
/// next step are then.
pub open spec fn completion_handled(
    runtime: RuntimeConfiguration,
    fetches: FetchesView,
    fetches_after: FetchesView,
    purpose: ReceiverPurpose,
    outcome: ReceiveOutcome,
    step: CompletionStep,
) -> bool {
    match (purpose, outcome) {
        (
            ReceiverPurpose::Materialize { file_id, content_hash, origin, placement },
            ReceiveOutcome::Complete(content),
        ) => fetches_after == fetches && step == CompletionStep::Enqueue(
            DaemonMessage::Materialize {
                file_id,
                content,
                content_hash,
                origin,
                placement,
            },
        ),
        (ReceiverPurpose::Materialize { .. }, ReceiveOutcome::Failed(_)) => {
            &&& fetches_after == fetches
            &&& step is Nothing
        },
        (
            ReceiverPurpose::Fetch { then: FoundThen::DeliverLocal(waiter) },
            ReceiveOutcome::Complete(content),
        ) => fetches_after == fetches && step == (CompletionStep::Answer {
            waiter,
            result: Ok(content),
        }),
        (
            ReceiverPurpose::Fetch { then: FoundThen::DeliverLocal(waiter) },
            ReceiveOutcome::Failed(_),
        ) => fetches_after == fetches && step == (CompletionStep::Answer {
            waiter,
            result: Err(FetchError::NotAvailable),
        }),
        (
            ReceiverPurpose::Fetch {
                then: FoundThen::RelayUp {
                    parent_peer,
                    request_id,
                    file_id,
                    content_hash,
                    size,
                },
            },
            ReceiveOutcome::Complete(content),
        ) => {
            &&& fetches_after == (FetchesView {
                cache: fetches.cache.insert((file_id, content_hash@), content),
                ..fetches
            })
            &&& if runtime.outbound(parent_peer@) is Some {
                step == (CompletionStep::Tell {
                    public_key: parent_peer,
                    message: SyncMessage::FetchFound {
                        request_id,
                        file_id,
                        content_hash,
                        size,
                    },
                })
            } else {
                step is Nothing
            }
        },
        (
            ReceiverPurpose::Fetch {
                then: FoundThen::RelayUp { parent_peer, request_id, .. },
            },
            ReceiveOutcome::Failed(_),
        ) => fetches_after == fetches && if runtime.outbound(parent_peer@) is Some {
            step == (CompletionStep::Tell {
                public_key: parent_peer,
                message: SyncMessage::FetchMissing { request_id },
            })
        } else {
            step is Nothing
        },
    }
}

/// Whether a transfer that the peer opened is served as it should be: what the session and the
/// fetches are then, and who serves it.
pub open spec fn transfer_served(
    before: SessionView,
    after: SessionView,
    fetches: FetchesView,
    fetches_after: FetchesView,
    transfer_id: TransferId,
    file_id: FileId,
    content_hash: Seq<char>,
    found: Option<(FileBytes, String)>,
    step: ServeStep,
) -> bool {
    let key = (file_id, content_hash);
    let held = found matches Some((_, hash)) && hash@ == content_hash;
    &&& after.public_key == before.public_key
    &&& if held {
        &&& step == ServeStep::Content((found->0).0)
        &&& fetches_after == fetches
        &&& after.transfers == before.transfers.insert(transfer_id)
    } else if fetches.providers.contains_key(key) {
        &&& step == ServeStep::Provider(fetches.providers[key])
        &&& fetches_after == fetches
        &&& after.transfers == before.transfers.insert(transfer_id)
    } else if fetches.cache.contains_key(key) {
        &&& step == ServeStep::Content(fetches.cache[key])
        &&& fetches_after == (FetchesView { cache: fetches.cache.remove(key), ..fetches })
        &&& after.transfers == before.transfers.insert(transfer_id)
    } else {
        &&& step matches ServeStep::Refuse(
            Frame::Sync(SyncMessage::TransferAbort { transfer_id: id, reason }),
        ) && id == transfer_id && reason@ == "file not available"@
        &&& fetches_after == fetches
        &&& after == before
    }
}

impl PeerSession {
    pub closed spec fn view(&self) -> SessionView {
        SessionView { public_key: self.public_key@, transfers: self.transfers@.dom() }
    }

    pub fn new(public_key: &str) -> (r: Self)
        ensures
            r@.public_key == public_key@,
            r@.transfers == Set::<TransferId>::empty(),
    {
        let r = PeerSession { public_key: public_key.to_owned(), transfers: Table::new() };
        assert(r@.transfers =~= Set::<TransferId>::empty());
        r
    }

    /// Notes a transfer that was opened.
    pub fn opened(&mut self, transfer_id: TransferId)
        ensures
            final(self)@ == (SessionView {
                transfers: old(self)@.transfers.insert(transfer_id),
                ..old(self)@
            }),
    {
        self.transfers.insert(transfer_id, ());
        assert(self@.transfers =~= old(self)@.transfers.insert(transfer_id));
    }

    /// Notes that the endpoint of a transfer is gone.
    pub fn closed(&mut self, transfer_id: TransferId)
        ensures
            final(self)@ == (SessionView {
                transfers: old(self)@.transfers.remove(transfer_id),
                ..old(self)@
            }),
    {
        let _ = self.transfers.remove(transfer_id);
        assert(self@.transfers =~= old(self)@.transfers.remove(transfer_id));
    }

    /// The pull of a file that the peer announced.
    fn pull(&self, file_id: FileId, content_hash: String, placement: MaterializePlacement) -> (r:
        Pull)
        ensures
            is_pull_of(
                r,
                (WantedView { file_id, content_hash: content_hash@, placement: placement@ }),
                self@.public_key,
            ),
    {
        Pull {
            file_id,
            content_hash: content_hash.clone(),
            expected_size: 0,
            purpose: ReceiverPurpose::Materialize {
                file_id,
                content_hash,
                origin: ChangeOrigin::Peer { public_key: self.public_key.clone() },
                placement,
            },
        }
    }

    /// Takes in a command of the change pipeline.
    pub fn on_command(&self, command: PeerCommand) -> (r: Pull)
        ensures
            match command {
                PeerCommand::StartReceive { file_id, content_hash, placement } => is_pull_of(
                    r,
                    (WantedView { file_id, content_hash: content_hash@, placement: placement@ }),
                    self@.public_key,
                ),
            },
    {
        match command {
            PeerCommand::StartReceive { file_id, content_hash, placement } => self.pull(
                file_id,
                content_hash,
                placement,
            ),
        }
    }

    /// The record of a wanted file, for the change pipeline.
    fn record_of(&self, file: &WantedFile, database: &FileDatabase) -> (r: DaemonMessage)
        requires
            file.placement is Change ==> database@.files.contains_key(file.file_id),
        ensures
            is_record_of(r, file@, database@, self@.public_key),
    {
        let logical_path = match &file.placement {
            MaterializePlacement::Create { logical_path, .. } => logical_path.duplicate(),
            MaterializePlacement::Change => match database.logical_path_for_file_id(file.file_id) {
                Ok(path) => path,
                Err(_) => LogicalPath::new(""),
            },
        };
        DaemonMessage::CatalogFile {
            file_id: file.file_id,
            logical_path,
            content_hash: file.content_hash.clone(),
            origin: ChangeOrigin::Peer { public_key: self.public_key.clone() },
        }
    }

    /// The records and the pulls of wanted files.
    fn take_up(&self, wanted: Vec<WantedFile>, database: &FileDatabase) -> (r: (
        Vec<DaemonMessage>,
        Vec<Pull>,
    ))
        requires
            forall|i: int|
                0 <= i < wanted@.len() && (#[trigger] wanted@[i]).placement is Change
                    ==> database@.files.contains_key(wanted@[i].file_id),
        ensures
            ({
                let views = wanted@.map_values(|w: WantedFile| w@);
                &&& are_records_of(r.0@, views, database@, self@.public_key)
                &&& are_pulls_of(r.1@, views, self@.public_key)
            }),
    {
        let ghost views = wanted@.map_values(|w: WantedFile| w@);
        let ghost all = wanted@;
        let mut left = wanted;
        let n: usize = left.len();
        let mut catalog: Vec<DaemonMessage> = Vec::new();
        let mut pulls: Vec<Pull> = Vec::new();
        let mut i: usize = 0;
        while i < n
            invariant
                i <= n,
                n == all.len(),
                views == all.map_values(|w: WantedFile| w@),
                left@ == all.skip(i as int),
                forall|k: int|
                    0 <= k < all.len() && (#[trigger] all[k]).placement is Change
                        ==> database@.files.contains_key(all[k].file_id),
                are_records_of(catalog@, views.take(i as int), database@, self@.public_key),
                are_pulls_of(pulls@, views.take(i as int), self@.public_key),
            decreases n - i,
        {
            assert(left@[0] == all[i as int]);
            let file = left.remove(0);
            assert(left@ =~= all.skip(i + 1));
            assert(views.take(i + 1) =~= views.take(i as int).push(views[i as int]));
            catalog.push(self.record_of(&file, database));
            let pull = self.pull(file.file_id, file.content_hash, file.placement);
            pulls.push(pull);
            i = i + 1;
        }
        assert(views.take(i as int) =~= views);
        (catalog, pulls)
    }

    /// Takes in a frame of the peer.
    pub fn on_frame(
        &mut self,
        frame: Frame,
        runtime: &RuntimeConfiguration,
        database: &FileDatabase,
        fetches: &mut PendingFetches,
    ) -> (r: SessionStep)
        ensures
            final(self)@.public_key == old(self)@.public_key,
            final(self)@.transfers == old(self)@.transfers || (frame matches Frame::Sync(
                SyncMessage::TransferAbort { .. },
            )),
            final(fetches)@ == old(fetches)@ || (frame matches Frame::Sync(
                SyncMessage::FetchFound { .. },
            )) || (frame matches Frame::Sync(SyncMessage::FetchMissing { .. })),
            match frame {
                Frame::Change(change) => r matches SessionStep::Enqueue(
                    DaemonMessage::Change(Ingest::Meta(c), ChangeOrigin::Peer { public_key }),
                ) && c == change && public_key@ == old(self)@.public_key,
                Frame::Sync(SyncMessage::Manifest { entries }) => if runtime.outbound(
                    old(self)@.public_key,
                ) is Some {
                    let wanted = wanted_of_first(database@, entries@, entries@.len() as int);
                    r matches SessionStep::Reconcile { catalog, pulls } && are_records_of(
                        catalog@,
                        wanted,
                        database@,
                        old(self)@.public_key,
                    ) && are_pulls_of(pulls@, wanted, old(self)@.public_key)
                } else {
                    r is Nothing
                },
                Frame::Sync(SyncMessage::TagManifest { definitions, relationships }) =>
                    if runtime.outbound(old(self)@.public_key) is Some {
                        r matches SessionStep::Tags { requests, changes } && requests@
                            == definitions_needed(
                            database@,
                            definitions@,
                            definitions@.len() as int,
                        ) && changes@ == news(
                            database@,
                            relationships@,
                            relationships@.len() as int,
                        )
                    } else {
                        r is Nothing
                    },
                Frame::Sync(SyncMessage::TagRequest { tag_id }) => if runtime.outbound(
                    old(self)@.public_key,
                ) is Some {
                    r matches SessionStep::Send(frame) && match frame {
                        Frame::Change(
                            Change::TagAdded { tag_id: id, tag_name, color, metadata, modified_at },
                        ) => {
                            &&& id == tag_id
                            &&& metadata is None
                            &&& database@.tags.contains_key(tag_id)
                            &&& database@.tags[tag_id].name == tag_name@
                            &&& database@.tags[tag_id].color == color@
                            &&& database@.tags[tag_id].modified_at == modified_at
                        },
                        Frame::Sync(SyncMessage::TagNotFound { tag_id: id }) => id == tag_id
                            && !database@.tags.contains_key(tag_id),
                        _ => false,
                    }
                } else {
                    r is Nothing
                },
                Frame::Sync(SyncMessage::TagNotFound { .. }) => r is Nothing,
                Frame::Sync(SyncMessage::FetchRequest { request_id, file_id, expected_hash }) => r
                    == (SessionStep::CheckLocal { request_id, file_id, expected_hash }),
                Frame::Sync(SyncMessage::FetchFound { request_id, file_id, content_hash, size }) =>
                    if old(fetches)@.table.contains_key(request_id)
                        && old(fetches)@.table[request_id].expected_hash == content_hash@ {
                        &&& final(fetches)@ == (FetchesView {
                            table: old(fetches)@.table.remove(request_id),
                            ..old(fetches)@
                        })
                        &&& r matches SessionStep::Pulls(pulls) && pulls@.len() == 1 && {
                            let pull = pulls@[0];
                            &&& pull.file_id == file_id
                            &&& pull.content_hash@ == content_hash@
                            &&& pull.expected_size == size
                            &&& pull.purpose matches ReceiverPurpose::Fetch { then }
                                && match old(fetches)@.table[request_id].reply_to {
                                ReplyView::Local(waiter) => then == FoundThen::DeliverLocal(waiter),
                                ReplyView::Peer(parent) => then matches FoundThen::RelayUp {
                                    parent_peer,
                                    request_id: relayed,
                                    file_id: relayed_file,
                                    content_hash: relayed_hash,
                                    size: relayed_size,
                                } && parent_peer@ == parent && relayed == request_id
                                    && relayed_file == file_id && relayed_hash@ == content_hash@
                                    && relayed_size == size,
                            }
                        }
                    } else {
                        r is Nothing && final(fetches)@ == old(fetches)@
                    },
                Frame::Sync(SyncMessage::FetchMissing { request_id }) => r matches
                    SessionStep::Fetch(actions) && is_missing_taken_in(
                    old(fetches)@,
                    final(fetches)@,
                    *runtime,
                    old(self)@.public_key,
                    request_id,
                    actions@,
                ),
                Frame::Sync(
                    SyncMessage::TransferStart { transfer_id, file_id, content_hash },
                ) => r == (SessionStep::ReadForTransfer { transfer_id, file_id, content_hash }),
                Frame::Sync(sync) => after_transfer_frame(old(self)@, final(self)@, sync, r),
            },
            frame_handled(
                old(self)@,
                final(self)@,
                *runtime,
                database@,
                old(fetches)@,
                final(fetches)@,
                frame,
                r,
            ),
    {
        match frame {
            Frame::Change(change) => SessionStep::Enqueue(
                DaemonMessage::change(
                    change,
                    ChangeOrigin::Peer { public_key: self.public_key.clone() },
                ),
            ),
            Frame::Sync(sync) => match sync {
                SyncMessage::Manifest { entries } => {
                    if runtime.peer_outbound(self.public_key.as_str()).is_none() {
                        return SessionStep::Nothing;
                    }
                    let wanted = reconcile_peer_manifest(&entries, database);
                    proof {
                        let views = wanted@.map_values(|w: WantedFile| w@);
                        lemma_changed_files_are_known(
                            database@,
                            entries@,
                            entries@.len() as int,
                        );
                        assert forall|i: int|
                            0 <= i < wanted@.len() && (
                            #[trigger] wanted@[i]).placement is Change implies database@.files.contains_key(
                            wanted@[i].file_id,
                        ) by {
                            assert(views[i] == wanted@[i]@);
                        }
                    }
                    let (catalog, pulls) = self.take_up(wanted, database);
                    SessionStep::Reconcile { catalog, pulls }
                },
                SyncMessage::TagManifest { definitions, relationships } => {
                    if runtime.peer_outbound(self.public_key.as_str()).is_none() {
                        return SessionStep::Nothing;
                    }
                    let found = reconcile_peer_tag_manifest(
                        &definitions,
                        &relationships,
                        database,
                    );
                    SessionStep::Tags { requests: found.requests, changes: found.changes }
                },
                SyncMessage::TagRequest { tag_id } => {
                    if runtime.peer_outbound(self.public_key.as_str()).is_none() {
                        return SessionStep::Nothing;
                    }
                    SessionStep::Send(build_tag_request_response(tag_id, database))
                },
                SyncMessage::TagNotFound { .. } => SessionStep::Nothing,
                SyncMessage::FetchRequest { request_id, file_id, expected_hash } =>
                    SessionStep::CheckLocal { request_id, file_id, expected_hash },
                SyncMessage::FetchFound { request_id, file_id, content_hash, size } => {
                    match fetches.handle_incoming_found(
                        self.public_key.as_str(),
                        request_id,
                        file_id,
                        content_hash,
                        size,
                    ) {
                        Some(
                            FoundAction::Receive {
                                from_peer: _,
                                file_id,
                                expected_hash,
                                expected_size,
                                then,
                            },
                        ) => {
                            let mut pulls: Vec<Pull> = Vec::new();
                            pulls.push(
                                Pull {
                                    file_id,
                                    content_hash: expected_hash,
                                    expected_size,
                                    purpose: ReceiverPurpose::Fetch { then },
                                },
                            );
                            SessionStep::Pulls(pulls)
                        },
                        None => SessionStep::Nothing,
                    }
                },
                SyncMessage::FetchMissing { request_id } => SessionStep::Fetch(
                    fetches.handle_incoming_missing(runtime, self.public_key.as_str(), request_id),
                ),
                SyncMessage::TransferStart { transfer_id, file_id, content_hash } =>
                    SessionStep::ReadForTransfer { transfer_id, file_id, content_hash },
                other => match TransferMessage::from_sync(other) {
                    Some((transfer_id, message)) => {
                        if !self.transfers.contains(transfer_id) {
                            return SessionStep::Nothing;
                        }
                        let is_abort = match &message {
                            TransferMessage::Abort { .. } => true,
                            _ => false,
                        };
                        if is_abort {
                            self.closed(transfer_id);
                        }
                        SessionStep::Deliver { transfer_id, message }
                    },
                    None => SessionStep::Nothing,
                },
            },
        }
    }

    /// Takes in the outcome of a transfer that this session pulled.
    pub fn on_completed(
        &mut self,
        transfer_id: TransferId,
        purpose: ReceiverPurpose,
        outcome: ReceiveOutcome,
        runtime: &RuntimeConfiguration,
        fetches: &mut PendingFetches,
    ) -> (r: CompletionStep)
        ensures
            final(self)@ == (SessionView {
                transfers: old(self)@.transfers.remove(transfer_id),
                ..old(self)@
            }),
            match (purpose, outcome) {
                (
                    ReceiverPurpose::Materialize { file_id, content_hash, origin, placement },
                    ReceiveOutcome::Complete(content),
                ) => final(fetches)@ == old(fetches)@ && r == CompletionStep::Enqueue(
                    DaemonMessage::Materialize {
                        file_id,
                        content,
                        content_hash,
                        origin,
                        placement,
                    },
                ),
                (ReceiverPurpose::Materialize { .. }, ReceiveOutcome::Failed(_)) => {
                    &&& final(fetches)@ == old(fetches)@
                    &&& r is Nothing
                },
                (
                    ReceiverPurpose::Fetch { then: FoundThen::DeliverLocal(waiter) },
                    ReceiveOutcome::Complete(content),
                ) => final(fetches)@ == old(fetches)@ && r == (CompletionStep::Answer {
                    waiter,
                    result: Ok(content),
                }),
                (
                    ReceiverPurpose::Fetch { then: FoundThen::DeliverLocal(waiter) },
                    ReceiveOutcome::Failed(_),
                ) => final(fetches)@ == old(fetches)@ && r == (CompletionStep::Answer {
                    waiter,
                    result: Err(FetchError::NotAvailable),
                }),
                (
                    ReceiverPurpose::Fetch {
                        then: FoundThen::RelayUp {
                            parent_peer,
                            request_id,
                            file_id,
                            content_hash,
                            size,
                        },
                    },
                    ReceiveOutcome::Complete(content),
                ) => {
                    &&& final(fetches)@ == (FetchesView {
                        cache: old(fetches)@.cache.insert((file_id, content_hash@), content),
                        ..old(fetches)@
                    })
                    &&& if runtime.outbound(parent_peer@) is Some {
                        r == (CompletionStep::Tell {
                            public_key: parent_peer,
                            message: SyncMessage::FetchFound {
                                request_id,
                                file_id,
                                content_hash,
                                size,
                            },
                        })
                    } else {
                        r is Nothing
                    }
                },
                (
                    ReceiverPurpose::Fetch {
                        then: FoundThen::RelayUp { parent_peer, request_id, .. },
                    },
                    ReceiveOutcome::Failed(_),
                ) => final(fetches)@ == old(fetches)@ && if runtime.outbound(parent_peer@) is Some {
                    r == (CompletionStep::Tell {
                        public_key: parent_peer,
                        message: SyncMessage::FetchMissing { request_id },
                    })
                } else {
                    r is Nothing
                },
            },
            completion_handled(
                *runtime,
                old(fetches)@,
                final(fetches)@,
                purpose,
                outcome,
                r,
            ),
    {
        self.closed(transfer_id);
        match (purpose, outcome) {
            (
                ReceiverPurpose::Materialize { file_id, content_hash, origin, placement },
                ReceiveOutcome::Complete(content),
            ) => CompletionStep::Enqueue(
                DaemonMessage::Materialize { file_id, content, content_hash, origin, placement },
            ),
            (ReceiverPurpose::Materialize { .. }, ReceiveOutcome::Failed(_)) =>
                CompletionStep::Nothing,
            (
                ReceiverPurpose::Fetch { then: FoundThen::DeliverLocal(waiter) },
                ReceiveOutcome::Complete(content),
            ) => CompletionStep::Answer { waiter, result: Ok(content) },
            (
                ReceiverPurpose::Fetch { then: FoundThen::DeliverLocal(waiter) },
                ReceiveOutcome::Failed(_),
            ) => CompletionStep::Answer { waiter, result: Err(FetchError::NotAvailable) },
            (
                ReceiverPurpose::Fetch {
                    then: FoundThen::RelayUp {
                        parent_peer,
                        request_id,
                        file_id,
                        content_hash,
                        size,
                    },
                },
                ReceiveOutcome::Complete(content),
            ) => {
                fetches.cache_relay_file(file_id, content_hash.clone(), content);
                if runtime.peer_outbound(parent_peer.as_str()).is_some() {
                    CompletionStep::Tell {
                        public_key: parent_peer,
                        message: SyncMessage::FetchFound {
                            request_id,
                            file_id,
                            content_hash,
                            size,
                        },
                    }
                } else {
                    CompletionStep::Nothing
                }
            },
            (
                ReceiverPurpose::Fetch {
                    then: FoundThen::RelayUp { parent_peer, request_id, .. },
                },
                ReceiveOutcome::Failed(_),
            ) => {
                if runtime.peer_outbound(parent_peer.as_str()).is_some() {
                    CompletionStep::Tell {
                        public_key: parent_peer,
                        message: SyncMessage::FetchMissing { request_id },
                    }
                } else {
                    CompletionStep::Nothing
                }
            },
        }
    }

    /// Finds who serves a transfer that the peer opened: a sync directory that holds
    /// the wanted content, else a client that provides it, else a file kept for this
    /// peer, which is kept no longer then.
    pub fn serve_transfer(
        &mut self,
        fetches: &mut PendingFetches,
        transfer_id: TransferId,
        file_id: FileId,
        content_hash: &str,
        found: Option<(FileBytes, String)>,
    ) -> (r: ServeStep)
        ensures
            ({
                let key = (file_id, content_hash@);
                let before = old(fetches)@;
                match found {
                    Some((content, hash)) if hash@ == content_hash@ => r == ServeStep::Content(
                        content,
                    ) && final(fetches)@ == before,
                    _ => if before.providers.contains_key(key) {
                        r == ServeStep::Provider(before.providers[key]) && final(fetches)@
                            == before
                    } else if before.cache.contains_key(key) {
                        r == ServeStep::Content(before.cache[key]) && final(fetches)@ == (
                        FetchesView { cache: before.cache.remove(key), ..before })
                    } else {
                        &&& final(fetches)@ == before
                        &&& r matches ServeStep::Refuse(
                            Frame::Sync(SyncMessage::TransferAbort { transfer_id: id, reason }),
                        ) && id == transfer_id && reason@ == "file not available"@
                    },
                }
            }),
            final(self)@ == (if r is Refuse {
                old(self)@
            } else {
                SessionView { transfers: old(self)@.transfers.insert(transfer_id), ..old(self)@ }
            }),
            transfer_served(
                old(self)@,
                final(self)@,
                old(fetches)@,
                final(fetches)@,
                transfer_id,
                file_id,
                content_hash@,
                found,
                r,
            ),
    {
        match found {
            Some((content, hash)) => {
                if same_text(hash.as_str(), content_hash) {
                    self.opened(transfer_id);
                    return ServeStep::Content(content);
                }
            },
            None => {},
        }
        if let Some(connection) = fetches.provider_for(file_id, content_hash) {
            self.opened(transfer_id);
            return ServeStep::Provider(connection);
        }
        let ghost before = fetches@;
        match fetches.take_fetch_cached(file_id, content_hash) {
            Some(content) => {
                self.opened(transfer_id);
                ServeStep::Content(content)
            },
            None => {
                assert(before.cache.remove((file_id, content_hash@)) =~= before.cache);
                ServeStep::Refuse(
                    Frame::Sync(
                        SyncMessage::TransferAbort {
                            transfer_id,
                            reason: "file not available".to_owned(),
                        },
                    ),
                )
            },
        }
    }
}

/// What a peer's word that a content is missing does to the fetches.
pub open spec fn is_missing_taken_in(
    before: FetchesView,
    after: FetchesView,
    runtime: RuntimeConfiguration,
    from: Seq<char>,
    request_id: RequestId,
    actions: Seq<FetchAction>,
) -> bool {
    if before.table.contains_key(request_id) {
        let entry = before.table[request_id];
        let left = entry.children.remove(from);
        if left =~= Set::empty() {
            &&& after == (FetchesView { table: before.table.remove(request_id), ..before })
            &&& fetch_views(actions) == crate::fetch::reported_missing(
                runtime,
                request_id,
                entry.reply_to,
            )
        } else {
            &&& after == (FetchesView {
                table: before.table.insert(
                    request_id,
                    crate::fetch::PendingView { children: left, ..entry },
                ),
                ..before
            })
            &&& actions.len() == 0
        }
    } else {
        after == before && actions.len() == 0
    }
}

/// What a frame of a running transfer does: it goes to the endpoint of its transfer,
/// and an abort ends that. A frame of an unknown transfer is ignored.
pub open spec fn after_transfer_frame(
    before: SessionView,
    after: SessionView,
    sync: SyncMessage,
    step: SessionStep,
) -> bool {
    match sync {
        SyncMessage::TransferChunkRequest { transfer_id, offset } =>
            if before.transfers.contains(transfer_id) {
                step == (SessionStep::Deliver {
                    transfer_id,
                    message: TransferMessage::ChunkRequest { offset },
                })
            } else {
                step is Nothing
            },
        SyncMessage::TransferChunk { transfer_id, offset, bytes, last } =>
            if before.transfers.contains(transfer_id) {
                step == (SessionStep::Deliver {
                    transfer_id,
                    message: TransferMessage::Chunk { offset, bytes, last },
                })
            } else {
                step is Nothing
            },
        SyncMessage::TransferAbort { transfer_id, reason } => if before.transfers.contains(
            transfer_id,
        ) {
            &&& step == (SessionStep::Deliver {
                transfer_id,
                message: TransferMessage::Abort { reason },
            })
            &&& after.transfers == before.transfers.remove(transfer_id)
        } else {
            step is Nothing && after.transfers == before.transfers
        },
        _ => true,
    }
}

/// The size of a file where what is held of it is the wanted content.
pub open spec fn size_held(found: Option<(u64, String)>, expected_hash: Seq<char>) -> Option<u64> {
    match found {
        Some((size, hash)) if hash@ == expected_hash => Some(size),
        _ => None,
    }
}

/// Answers a relayed fetch, given what the sync directories hold of the file: its
/// size and the hash of its content.
pub fn answer_request(
    fetches: &mut PendingFetches,
    runtime: &RuntimeConfiguration,
    from_public_key: &str,
    request_id: RequestId,
    file_id: FileId,
    expected_hash: String,
    found: Option<(u64, String)>,
) -> (r: Vec<FetchAction>)
    ensures
        ({
            let from = from_public_key@;
            let keys = crate::fetch::asked(*runtime, Some(from));
            match found {
                Some((size, hash)) if hash@ == expected_hash@ => final(fetches)@ == old(fetches)@
                    && fetch_views(r@) == crate::fetch::if_connected(
                    *runtime,
                    from,
                    (crate::fetch::FetchActionView::Found {
                        to: from,
                        request_id,
                        file_id,
                        content_hash: expected_hash@,
                        size,
                    }),
                ),
                _ => if keys.len() == 0 {
                    final(fetches)@ == old(fetches)@ && fetch_views(r@)
                        == crate::fetch::if_connected(
                        *runtime,
                        from,
                        (crate::fetch::FetchActionView::Missing { to: from, request_id }),
                    )
                } else {
                    &&& fetch_views(r@) == crate::fetch::flooded(
                        keys,
                        request_id,
                        file_id,
                        expected_hash@,
                    )
                    &&& final(fetches)@ == (if old(fetches)@.table.contains_key(request_id) {
                        old(fetches)@
                    } else {
                        FetchesView {
                            table: old(fetches)@.table.insert(
                                request_id,
                                crate::fetch::PendingView {
                                    file_id,
                                    expected_hash: expected_hash@,
                                    reply_to: ReplyView::Peer(from),
                                    children: keys.to_set(),
                                },
                            ),
                            ..old(fetches)@
                        }
                    })
                },
            }
        }),
        (final(fetches)@, fetch_views(r@)) == crate::fetch::after_request(
            old(fetches)@,
            *runtime,
            from_public_key@,
            request_id,
            file_id,
            expected_hash@,
            size_held(found, expected_hash@),
        ),
{
    let local_size: Option<u64> = match found {
        Some((size, hash)) => if same_text(hash.as_str(), expected_hash.as_str()) {
            Some(size)
        } else {
            None
        },
        None => None,
    };
    fetches.handle_incoming_request(
        runtime,
        from_public_key,
        request_id,
        file_id,
        expected_hash,
        local_size,
    )
}

} // verus!
