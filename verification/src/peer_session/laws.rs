//! What a session with a peer is for: what it takes in, what it asks for, and whom it serves.

use vstd::prelude::*;
use super::{
    after_clear, after_install, after_transfer_frame, completion_handled, frame_handled,
    is_missing_taken_in, is_pull_of, is_record_of, opens_session, size_held, sweep_of,
    transfer_served, CompletionStep, Pull, ReceiverPurpose, ServeStep, SessionSlot,
    SessionStep, SessionView,
};
use crate::bus::{DaemonMessage, FetchError, Ingest, PlacementView};
use crate::configuration::{entry_of, lemma_entry_of, RuntimeConfiguration};
use crate::database::laws::law_tag_manifests_say_what_is_on_record;
use crate::database::manifests::{is_manifest, ManifestRow};
use crate::database::short_ids::is_listing;
use crate::database::{DatabaseView, EntryKey};
use crate::fetch::{after_missing, fetch_views, FetchesView, FoundThen, ReplyView};
use crate::file_bytes::FileBytes;
use crate::ids::{id_text, FileId, RequestId, TagId, TransferId};
use crate::reconcile::laws::{
    is_ahead, is_newer, latest_of, law_a_device_announces_what_it_has,
    law_what_is_pulled_of_a_manifest,
    law_which_definitions_are_asked_for, law_which_relationships_are_taken_over, picks,
};
use crate::reconcile::{change_of, spells_rows, wanted_of_first, WantedView};
use crate::state::{
    Change, ChangeOrigin, FileInfo, Frame, ManifestEntry, RelationshipManifestEntry, SyncMessage,
    TagManifestEntry,
};
use crate::transfer::{ReceiveOutcome, TransferMessage};

verus! {

/// A change of the peer goes onto the bus as it came, as one of that peer.
pub proof fn law_a_change_goes_onto_the_bus(
    before: SessionView,
    after: SessionView,
    runtime: RuntimeConfiguration,
    db: DatabaseView,
    fetches: FetchesView,
    fetches_after: FetchesView,
    change: Change,
    step: SessionStep,
)
    requires
        frame_handled(
            before,
            after,
            runtime,
            db,
            fetches,
            fetches_after,
            Frame::Change(change),
            step,
        ),
    ensures
        step matches SessionStep::Enqueue(
            DaemonMessage::Change(Ingest::Meta(c), ChangeOrigin::Peer { public_key }),
        ) && c == change && public_key@ == before.public_key,
        after == before,
        fetches_after == fetches,
{
}

/// Whether a pull asks for one version of a file, of unknown size, and has it placed as
/// coming from the peer.
pub open spec fn pulls_version(pull: Pull, wanted: WantedView, public_key: Seq<char>) -> bool {
    &&& pull.file_id == wanted.file_id
    &&& pull.content_hash@ == wanted.content_hash
    &&& pull.expected_size == 0
    &&& pull.purpose matches ReceiverPurpose::Materialize {
        file_id,
        content_hash,
        origin: ChangeOrigin::Peer { public_key: key },
        placement,
    } && file_id == wanted.file_id && content_hash@ == wanted.content_hash && key@ == public_key
        && placement@ == wanted.placement
}

/// Whether a message has one version of a file put on record as announced by the peer, under
/// the announced path where the file is new.
pub open spec fn records_version(
    message: DaemonMessage,
    wanted: WantedView,
    db: DatabaseView,
    public_key: Seq<char>,
) -> bool {
    message matches DaemonMessage::CatalogFile {
        file_id,
        logical_path,
        content_hash,
        origin: ChangeOrigin::Peer { public_key: key },
    } && file_id == wanted.file_id && content_hash@ == wanted.content_hash && key@ == public_key
        && match wanted.placement {
        PlacementView::Create { logical_path: path, .. } => logical_path@ == path@,
        PlacementView::Change => logical_path@ == db.files[file_id],
    }
}

/// A peer's manifest has each file of which the peer is ahead put on record and pulled, once
/// and in order: the peer's latest version. Nothing else is asked for. Without a way to reach
/// the peer nothing is.
pub proof fn law_a_manifest_is_followed(
    before: SessionView,
    after: SessionView,
    runtime: RuntimeConfiguration,
    db: DatabaseView,
    fetches: FetchesView,
    fetches_after: FetchesView,
    entries: Vec<ManifestEntry>,
    step: SessionStep,
)
    requires
        frame_handled(
            before,
            after,
            runtime,
            db,
            fetches,
            fetches_after,
            Frame::Sync(SyncMessage::Manifest { entries }),
            step,
        ),
    ensures
        after == before,
        fetches_after == fetches,
        if runtime.outbound(before.public_key) is Some {
            step matches SessionStep::Reconcile { catalog, pulls } && exists|
                wanted: Seq<WantedView>,
            |
                #![trigger wanted.len()]
                picks(
                    entries@,
                    entries@.len() as int,
                    |e: ManifestEntry| is_ahead(db, e),
                    |e: ManifestEntry| latest_of(db, e),
                    wanted,
                ) && catalog@.len() == wanted.len() && pulls@.len() == wanted.len() && (forall|
                    k: int,
                |
                    0 <= k < wanted.len() ==> records_version(
                        #[trigger] catalog@[k],
                        wanted[k],
                        db,
                        before.public_key,
                    )) && (forall|k: int|
                    0 <= k < wanted.len() ==> pulls_version(
                        #[trigger] pulls@[k],
                        wanted[k],
                        before.public_key,
                    ))
        } else {
            step is Nothing
        },
{
    if runtime.outbound(before.public_key) is Some {
        let wanted = wanted_of_first(db, entries@, entries@.len() as int);
        law_what_is_pulled_of_a_manifest(db, entries@);
        match step {
            SessionStep::Reconcile { catalog, pulls } => {
                assert forall|k: int| 0 <= k < wanted.len() implies records_version(
                    #[trigger] catalog@[k],
                    wanted[k],
                    db,
                    before.public_key,
                ) by {
                    assert(is_record_of(catalog@[k], wanted[k], db, before.public_key));
                }
                assert forall|k: int| 0 <= k < wanted.len() implies pulls_version(
                    #[trigger] pulls@[k],
                    wanted[k],
                    before.public_key,
                ) by {
                    assert(is_pull_of(pulls@[k], wanted[k], before.public_key));
                }
                assert(wanted.len() == catalog@.len());
            },
            _ => {},
        }
    }
}

/// A command of the change pipeline has just the version that it names pulled from the peer.
pub proof fn law_a_command_is_a_pull(
    pull: Pull,
    file_id: FileId,
    content_hash: Seq<char>,
    placement: PlacementView,
    public_key: Seq<char>,
)
    requires
        is_pull_of(pull, WantedView { file_id, content_hash, placement }, public_key),
    ensures
        pulls_version(pull, WantedView { file_id, content_hash, placement }, public_key),
{
}

/// A peer's tag manifest has the definitions asked for that are unknown or newer, and the
/// relationships taken over that are.
pub proof fn law_a_tag_manifest_is_followed(
    before: SessionView,
    after: SessionView,
    runtime: RuntimeConfiguration,
    db: DatabaseView,
    fetches: FetchesView,
    fetches_after: FetchesView,
    definitions: Vec<TagManifestEntry>,
    relationships: Vec<RelationshipManifestEntry>,
    step: SessionStep,
)
    requires
        frame_handled(
            before,
            after,
            runtime,
            db,
            fetches,
            fetches_after,
            Frame::Sync(SyncMessage::TagManifest { definitions, relationships }),
            step,
        ),
    ensures
        after == before,
        fetches_after == fetches,
        if runtime.outbound(before.public_key) is Some {
            step matches SessionStep::Tags { requests, changes } && picks(
                definitions@,
                definitions@.len() as int,
                |d: TagManifestEntry|
                    !db.tags.contains_key(d.tag_id) || d.modified_at
                        > db.tags[d.tag_id].modified_at,
                |d: TagManifestEntry| d.tag_id,
                requests@,
            ) && picks(
                relationships@,
                relationships@.len() as int,
                |e: RelationshipManifestEntry| is_newer(db, e),
                |e: RelationshipManifestEntry| change_of(e)->0,
                changes@,
            )
        } else {
            step is Nothing
        },
{
    law_which_definitions_are_asked_for(db, definitions@);
    if relationships@.len() > 0 {
        law_which_relationships_are_taken_over(db, relationships@, relationships@[0], 0);
    }
}

/// A peer that asks for a tag is sent its definition as it is known here, stamp included, or
/// told that there is none.
pub proof fn law_a_tag_request_is_answered(
    before: SessionView,
    after: SessionView,
    runtime: RuntimeConfiguration,
    db: DatabaseView,
    fetches: FetchesView,
    fetches_after: FetchesView,
    tag_id: TagId,
    step: SessionStep,
)
    requires
        frame_handled(
            before,
            after,
            runtime,
            db,
            fetches,
            fetches_after,
            Frame::Sync(SyncMessage::TagRequest { tag_id }),
            step,
        ),
        runtime.outbound(before.public_key) is Some,
    ensures
        db.tags.contains_key(tag_id) ==> (step matches SessionStep::Send(
            Frame::Change(
                Change::TagAdded { tag_id: t, tag_name, color, metadata: None, modified_at },
            ),
        ) && t == tag_id && tag_name@ == db.tags[tag_id].name && color@ == db.tags[tag_id].color
            && modified_at == db.tags[tag_id].modified_at),
        !db.tags.contains_key(tag_id) ==> (step matches SessionStep::Send(
            Frame::Sync(SyncMessage::TagNotFound { tag_id: t }),
        ) && t == tag_id),
        after == before,
        fetches_after == fetches,
{
}

/// A request of the peer for a file, and the opening of a transfer by it, have the sync
/// directories searched for just that file and content.
pub proof fn law_requests_are_looked_into(
    before: SessionView,
    after: SessionView,
    runtime: RuntimeConfiguration,
    db: DatabaseView,
    fetches: FetchesView,
    fetches_after: FetchesView,
    frame: Frame,
    step: SessionStep,
)
    requires
        frame_handled(before, after, runtime, db, fetches, fetches_after, frame, step),
    ensures
        frame matches Frame::Sync(
            SyncMessage::FetchRequest { request_id, file_id, expected_hash },
        ) ==> step == (SessionStep::CheckLocal { request_id, file_id, expected_hash }) && after
            == before && fetches_after == fetches,
        frame matches Frame::Sync(
            SyncMessage::TransferStart { transfer_id, file_id, content_hash },
        ) ==> step == (SessionStep::ReadForTransfer { transfer_id, file_id, content_hash })
            && after == before && fetches_after == fetches,
{
}

/// The peer's word that it has a content for which somebody waits has it pulled from the
/// peer for that one, once; else it is ignored.
pub proof fn law_a_find_is_pulled(
    before: SessionView,
    after: SessionView,
    runtime: RuntimeConfiguration,
    db: DatabaseView,
    fetches: FetchesView,
    fetches_after: FetchesView,
    request_id: RequestId,
    file_id: FileId,
    content_hash: String,
    size: u64,
    step: SessionStep,
)
    requires
        frame_handled(
            before,
            after,
            runtime,
            db,
            fetches,
            fetches_after,
            Frame::Sync(SyncMessage::FetchFound { request_id, file_id, content_hash, size }),
            step,
        ),
    ensures
        after == before,
        if fetches.table.contains_key(request_id) && fetches.table[request_id].expected_hash
            == content_hash@ {
            &&& !fetches_after.table.contains_key(request_id)
            &&& step matches SessionStep::Pulls(pulls) && pulls@.len() == 1
                && pulls@[0].file_id == file_id && pulls@[0].content_hash@ == content_hash@
                && pulls@[0].expected_size == size && (pulls@[0].purpose
                matches ReceiverPurpose::Fetch { then } && match fetches.table[request_id].reply_to {
                ReplyView::Local(waiter) => then == FoundThen::DeliverLocal(waiter),
                ReplyView::Peer(parent) => then matches FoundThen::RelayUp {
                    parent_peer,
                    request_id: r,
                    file_id: f,
                    content_hash: h,
                    size: s,
                } && parent_peer@ == parent && r == request_id && f == file_id && h@
                    == content_hash@ && s == size,
            })
        } else {
            step is Nothing && fetches_after == fetches
        },
{
}

/// The peer's word that it lacks a content is taken in as such a word of that peer.
pub proof fn law_missing_is_taken_in(
    before: FetchesView,
    after: FetchesView,
    runtime: RuntimeConfiguration,
    from: Seq<char>,
    request_id: RequestId,
    actions: Seq<crate::fetch::FetchAction>,
)
    requires
        is_missing_taken_in(before, after, runtime, from, request_id, actions),
    ensures
        after == after_missing(before, runtime, from, request_id).0,
        fetch_views(actions) =~= after_missing(before, runtime, from, request_id).1,
{
}

/// A frame of a transfer goes to the endpoint of just that transfer, with its content, where
/// the transfer is known on this link, and else nowhere. Only an abort ends it.
pub proof fn law_transfer_frames_reach_their_endpoint(
    before: SessionView,
    after: SessionView,
    sync: SyncMessage,
    step: SessionStep,
)
    requires
        after_transfer_frame(before, after, sync, step),
    ensures
        sync matches SyncMessage::TransferChunkRequest { transfer_id, offset }
            ==> if before.transfers.contains(transfer_id) {
            step == (SessionStep::Deliver {
                transfer_id,
                message: TransferMessage::ChunkRequest { offset },
            })
        } else {
            step is Nothing
        },
        sync matches SyncMessage::TransferChunk { transfer_id, offset, bytes, last }
            ==> if before.transfers.contains(transfer_id) {
            step == (SessionStep::Deliver {
                transfer_id,
                message: TransferMessage::Chunk { offset, bytes, last },
            })
        } else {
            step is Nothing
        },
        sync matches SyncMessage::TransferAbort { transfer_id, reason }
            ==> if before.transfers.contains(transfer_id) {
            &&& step == (SessionStep::Deliver {
                transfer_id,
                message: TransferMessage::Abort { reason },
            })
            &&& !after.transfers.contains(transfer_id)
            &&& forall|t: TransferId|
                t != transfer_id ==> (#[trigger] after.transfers.contains(t)
                    == before.transfers.contains(t))
        } else {
            step is Nothing && after.transfers == before.transfers
        },
{
}

/// A session without a way to reach the peer answers no manifest and no request for a tag.
pub proof fn law_an_unreachable_peer_is_not_answered(
    before: SessionView,
    after: SessionView,
    runtime: RuntimeConfiguration,
    db: DatabaseView,
    fetches: FetchesView,
    fetches_after: FetchesView,
    frame: Frame,
    step: SessionStep,
)
    requires
        frame_handled(before, after, runtime, db, fetches, fetches_after, frame, step),
        runtime.outbound(before.public_key) is None,
        frame matches Frame::Sync(sync) && (sync is Manifest || sync is TagManifest
            || sync is TagRequest),
    ensures
        step is Nothing,
        after == before,
        fetches_after == fetches,
{
}

/// Bytes that were pulled to be placed are handed to the change pipeline with all that was
/// known of them; a failed pull leads to nothing.
pub proof fn law_pulled_bytes_are_placed(
    runtime: RuntimeConfiguration,
    fetches: FetchesView,
    fetches_after: FetchesView,
    purpose: ReceiverPurpose,
    outcome: ReceiveOutcome,
    step: CompletionStep,
)
    requires
        completion_handled(runtime, fetches, fetches_after, purpose, outcome, step),
        purpose is Materialize,
    ensures
        fetches_after == fetches,
        match (purpose, outcome) {
            (
                ReceiverPurpose::Materialize { file_id, content_hash, origin, placement },
                ReceiveOutcome::Complete(content),
            ) => step == CompletionStep::Enqueue(
                DaemonMessage::Materialize { file_id, content, content_hash, origin, placement },
            ),
            _ => step is Nothing,
        },
{
}

/// Bytes that were fetched for a waiter are handed to that waiter, who learns of a failure
/// too. Bytes that were fetched for a peer are kept for it, and it is told that they are
/// here, with their size, or that they are missing, where it can be reached.
pub proof fn law_fetched_bytes_reach_the_asker(
    runtime: RuntimeConfiguration,
    fetches: FetchesView,
    fetches_after: FetchesView,
    then: FoundThen,
    outcome: ReceiveOutcome,
    step: CompletionStep,
)
    requires
        completion_handled(
            runtime,
            fetches,
            fetches_after,
            ReceiverPurpose::Fetch { then },
            outcome,
            step,
        ),
    ensures
        fetches_after.table == fetches.table,
        fetches_after.providers == fetches.providers,
        match (then, outcome) {
            (FoundThen::DeliverLocal(waiter), ReceiveOutcome::Complete(content)) => {
                &&& fetches_after == fetches
                &&& step == (CompletionStep::Answer { waiter, result: Ok(content) })
            },
            (FoundThen::DeliverLocal(waiter), ReceiveOutcome::Failed(_)) => {
                &&& fetches_after == fetches
                &&& step == (CompletionStep::Answer {
                    waiter,
                    result: Err(FetchError::NotAvailable),
                })
            },
            (
                FoundThen::RelayUp { parent_peer, request_id, file_id, content_hash, size },
                ReceiveOutcome::Complete(content),
            ) => {
                &&& fetches_after.cache == fetches.cache.insert((file_id, content_hash@), content)
                &&& runtime.outbound(parent_peer@) is Some ==> step == (CompletionStep::Tell {
                    public_key: parent_peer,
                    message: SyncMessage::FetchFound { request_id, file_id, content_hash, size },
                })
                &&& runtime.outbound(parent_peer@) is None ==> step is Nothing
            },
            (
                FoundThen::RelayUp { parent_peer, request_id, .. },
                ReceiveOutcome::Failed(_),
            ) => {
                &&& fetches_after == fetches
                &&& runtime.outbound(parent_peer@) is Some ==> step == (CompletionStep::Tell {
                    public_key: parent_peer,
                    message: SyncMessage::FetchMissing { request_id },
                })
                &&& runtime.outbound(parent_peer@) is None ==> step is Nothing
            },
        },
{
}

/// What was relayed can be pulled from here: bytes that are kept for a peer are served to a
/// transfer of that file and content, once, where neither a sync directory nor a client has
/// them.
pub proof fn law_relayed_bytes_are_served_once(
    before: SessionView,
    after: SessionView,
    end: SessionView,
    fetches: FetchesView,
    served: FetchesView,
    later: FetchesView,
    transfer_id: TransferId,
    again: TransferId,
    file_id: FileId,
    content_hash: Seq<char>,
    step: ServeStep,
    next: ServeStep,
)
    requires
        fetches.cache.contains_key((file_id, content_hash)),
        !fetches.providers.contains_key((file_id, content_hash)),
        transfer_served(
            before,
            after,
            fetches,
            served,
            transfer_id,
            file_id,
            content_hash,
            None,
            step,
        ),
        transfer_served(
            after,
            end,
            served,
            later,
            again,
            file_id,
            content_hash,
            None,
            next,
        ),
    ensures
        step == ServeStep::Content(fetches.cache[(file_id, content_hash)]),
        next is Refuse,
{
}

/// A transfer that the peer opened is served with just the content that it asks for: from a
/// sync directory that holds it, else by a client that provides it, else from what is kept;
/// and else it is refused. The transfer is known on the link from then on, unless refused.
pub proof fn law_a_transfer_is_served_with_what_was_asked_for(
    before: SessionView,
    after: SessionView,
    fetches: FetchesView,
    fetches_after: FetchesView,
    transfer_id: TransferId,
    file_id: FileId,
    content_hash: Seq<char>,
    found: Option<(FileBytes, String)>,
    step: ServeStep,
)
    requires
        transfer_served(
            before,
            after,
            fetches,
            fetches_after,
            transfer_id,
            file_id,
            content_hash,
            found,
            step,
        ),
    ensures
        ({
            let key = (file_id, content_hash);
            &&& found is Some && (found->0).1@ == content_hash ==> step == ServeStep::Content(
                (found->0).0,
            )
            &&& !(found is Some && (found->0).1@ == content_hash) ==> {
                &&& fetches.providers.contains_key(key) ==> step == ServeStep::Provider(
                    fetches.providers[key],
                )
                &&& !fetches.providers.contains_key(key) && fetches.cache.contains_key(key)
                    ==> step == ServeStep::Content(fetches.cache[key])
                &&& !fetches.providers.contains_key(key) && !fetches.cache.contains_key(key)
                    ==> step is Refuse
            }
            &&& after.transfers.contains(transfer_id) == (!(step is Refuse)
                || before.transfers.contains(transfer_id))
            &&& step matches ServeStep::Refuse(frame) ==> (frame matches Frame::Sync(
                SyncMessage::TransferAbort { transfer_id: t, .. },
            ) && t == transfer_id)
            &&& fetches_after.table == fetches.table
            &&& fetches_after.providers == fetches.providers
        }),
{
}

/// A file counts as held for a request just where its content is the wanted one.
pub proof fn law_only_the_wanted_content_is_held(
    found: Option<(u64, String)>,
    expected_hash: Seq<char>,
)
    ensures
        match size_held(found, expected_hash) {
            Some(size) => found matches Some((s, hash)) && s == size && hash@ == expected_hash,
            None => found matches Some((_, hash)) ==> hash@ != expected_hash,
        },
{
}

/// A session takes the place of its peer where that is free or its occupant gone: from then
/// on the peer is reached through it. While another lives it does not, and one with a peer
/// that is not configured has no place. Other peers keep theirs.
pub proof fn law_a_session_takes_a_free_place(
    runtime: RuntimeConfiguration,
    after: RuntimeConfiguration,
    public_key: Seq<char>,
    outbound: u64,
    commands: u64,
    occupant_closed: bool,
    slot: SessionSlot,
    other: Seq<char>,
)
    requires
        (after.peers@, slot) == after_install(
            runtime.peers@,
            public_key,
            outbound,
            commands,
            occupant_closed,
        ),
        other != public_key,
    ensures
        (slot is Unknown) == !runtime.knows(public_key),
        (slot is Owner) == (runtime.knows(public_key) && (runtime.outbound(public_key) is None
            || occupant_closed)),
        slot is Owner ==> after.outbound(public_key) == Some(outbound) && after.commands(public_key)
            == Some(commands),
        !(slot is Owner) ==> after.peers@ == runtime.peers@,
        after.outbound(other) == runtime.outbound(other),
        after.commands(other) == runtime.commands(other),
{
    lemma_entry_of(runtime.peers@, public_key, 0);
    lemma_entry_of(runtime.peers@, other, 0);
    match entry_of(runtime.peers@, public_key, 0) {
        Some(i) => {
            super::lemma_same_entries(
                runtime.peers@,
                i,
                Some(outbound),
                Some(commands),
                public_key,
                0,
            );
            super::lemma_same_entries(runtime.peers@, i, Some(outbound), Some(commands), other, 0);
        },
        None => {},
    }
}

/// A session that ends frees the place that is still its own, and no other.
pub proof fn law_a_session_frees_its_own_place(
    runtime: RuntimeConfiguration,
    after: RuntimeConfiguration,
    public_key: Seq<char>,
    owns_outbound: bool,
    outbound: u64,
    other: Seq<char>,
)
    requires
        after.peers@ == after_clear(runtime.peers@, public_key, owns_outbound, outbound),
        other != public_key,
    ensures
        owns_outbound && runtime.outbound(public_key) == Some(outbound) ==> after.outbound(
            public_key,
        ) is None && after.commands(public_key) is None,
        !(owns_outbound && runtime.outbound(public_key) == Some(outbound)) ==> after.peers@
            == runtime.peers@,
        after.outbound(other) == runtime.outbound(other),
        after.commands(other) == runtime.commands(other),
{
    lemma_entry_of(runtime.peers@, public_key, 0);
    lemma_entry_of(runtime.peers@, other, 0);
    match entry_of(runtime.peers@, public_key, 0) {
        Some(i) => {
            super::lemma_same_entries(runtime.peers@, i, None, None, public_key, 0);
            super::lemma_same_entries(runtime.peers@, i, None, None, other, 0);
        },
        None => {},
    }
}

/// A session opens with the tags and then the files that are on record: the stamp of each
/// known tag, the state of each relationship, and each known file that has a version, with
/// its path and its latest content.
pub proof fn law_a_session_opens_with_what_is_on_record(
    db: DatabaseView,
    keys: Seq<EntryKey>,
    frames: Seq<Frame>,
    tag_id: TagId,
    key: EntryKey,
    file_id: FileId,
)
    requires
        opens_session(db, keys, frames),
    ensures
        frames.len() == 2,
        frames[0] matches Frame::Sync(SyncMessage::TagManifest { definitions, relationships }) && (
        db.tags.contains_key(tag_id) ==> exists|i: int|
            0 <= i < definitions@.len() && (#[trigger] definitions@[i]).tag_id == tag_id
                && definitions@[i].modified_at == db.tags[tag_id].modified_at) && (
        db.entries.contains_key(key) ==> exists|i: int|
            0 <= i < relationships@.len() && (#[trigger] relationships@[i]).tag_id == key.tag_id
                && relationships@[i].target_id@ == id_text(key.target)
                && relationships@[i].modified_at == db.entries[key].modified_at
                && relationships@[i].deleted == db.entries[key].deleted),
        frames[1] matches Frame::Sync(SyncMessage::Manifest { entries }) && ((exists|i: int|
            0 <= i < entries@.len() && (#[trigger] entries@[i]).file_id == file_id) == (
        db.files.contains_key(file_id) && db.versions.contains_key(file_id))) && (forall|i: int|
            0 <= i < entries@.len() ==> (#[trigger] entries@[i]).logical_path@
                == db.files[entries@[i].file_id] && entries@[i].history@.len()
                == db.versions[entries@[i].file_id].len()),
{
    match (frames[0], frames[1]) {
        (
            Frame::Sync(SyncMessage::TagManifest { definitions, relationships }),
            Frame::Sync(SyncMessage::Manifest { entries }),
        ) => {
            law_tag_manifests_say_what_is_on_record(
                db,
                definitions@,
                keys,
                relationships@,
                tag_id,
                key,
            );
            let rows = choose|rows: Seq<ManifestRow>| #[trigger]
                is_manifest(db, rows) && spells_rows(entries@, rows);
            law_a_device_announces_what_it_has(db, rows, entries@, file_id, 0, 0);
            assert forall|i: int| 0 <= i < entries@.len() implies (
            #[trigger] entries@[i]).logical_path@ == db.files[entries@[i].file_id]
                && entries@[i].history@.len() == db.versions[entries@[i].file_id].len() by {
                law_a_device_announces_what_it_has(db, rows, entries@, file_id, i, 0);
            }
        },
        _ => {},
    }
}

/// A session that opens has each listed file looked at, once, and asks for nothing else.
pub proof fn law_every_listed_file_is_looked_at(
    db: DatabaseView,
    list: Seq<FileInfo>,
    file_id: FileId,
)
    requires
        is_listing(db, list),
    ensures
        sweep_of(list).len() == list.len(),
        forall|k: int|
            0 <= k < list.len() ==> #[trigger] sweep_of(list)[k]
                == (DaemonMessage::ReconcilePlacement { file_id: list[k].file_id }),
        sweep_of(list).contains(DaemonMessage::ReconcilePlacement { file_id })
            <==> db.files.contains_key(file_id) && db.versions.contains_key(file_id),
{
    let sweep = sweep_of(list);
    assert(db.listed(file_id) <==> exists|i: int|
        0 <= i < list.len() && (#[trigger] list[i]).file_id == file_id);
    if sweep.contains(DaemonMessage::ReconcilePlacement { file_id }) {
        let k = choose|k: int|
            0 <= k < sweep.len() && sweep[k] == (DaemonMessage::ReconcilePlacement { file_id });
        assert(list[k].file_id == file_id);
    }
    if db.listed(file_id) {
        let i = choose|i: int| 0 <= i < list.len() && (#[trigger] list[i]).file_id == file_id;
        assert(sweep[i] == (DaemonMessage::ReconcilePlacement { file_id }));
    }
}

/// The word that the peer lacks a content counts as that of this very peer, and the word that
/// it lacks a tag leads to nothing.
pub proof fn law_the_peer_speaks_for_itself(
    before: SessionView,
    after: SessionView,
    runtime: RuntimeConfiguration,
    db: DatabaseView,
    fetches: FetchesView,
    fetches_after: FetchesView,
    frame: Frame,
    step: SessionStep,
)
    requires
        frame_handled(before, after, runtime, db, fetches, fetches_after, frame, step),
    ensures
        frame matches Frame::Sync(SyncMessage::FetchMissing { request_id }) ==> {
            let told = after_missing(fetches, runtime, before.public_key, request_id);
            &&& fetches_after == told.0
            &&& step matches SessionStep::Fetch(actions) && fetch_views(actions@) =~= told.1
            &&& after == before
        },
        frame matches Frame::Sync(SyncMessage::TagNotFound { .. }) ==> step is Nothing && after
            == before && fetches_after == fetches,
{
}

} // verus!
