//! What each message on the ingest bus is for: who gets the bytes, who is told, what is
//! pulled and what goes on record.

use vstd::prelude::*;
use super::{
    after_message, all_concerned, change_commands, changed, commanded, concerned, concerns,
    create_commands, created, fetch_decided, forwarded, forwarded_to, is_missing, is_on,
    lemma_ascending_tags_unique, move_commands, placed_anew, published, receives, remove_commands,
    search_ended, shared_among, source_removal, tags_on, ActionView, FetchStep, Skip,
};
use crate::bus::{ContentChange, DaemonMessage, Ingest, MaterializePlacement, PlacementView};
use crate::configuration::{
    placement, wants, Configuration, Peer, RuntimeConfiguration, SyncDirectory, SyncType,
};
use crate::database::hierarchy::lists_tags;
use crate::database::{
    file_key, DatabaseView, EntryKey, EntryState, EntryType, TagView,
};
use crate::directory_manager::CommandView;
use crate::file_bytes::{BytesView, FileBytes};
use crate::ids::{id_text, FileId, TagId};
use crate::state::{Change, ChangeOrigin, ChangeView, LogicalPath};
use crate::versions::{VersionView, MAX_VERSIONS};

verus! {

/// Whether a directory is one for files with `tags`: it takes every file, or each tag that
/// it asks for is among them.
pub open spec fn asks_for(directory: SyncDirectory, tags: Seq<TagId>) -> bool {
    match directory.sync_type {
        SyncType::Universal { .. } => true,
        SyncType::TagBased { tags: required } => forall|k: int|
            0 <= k < required@.len() ==> tags.contains(#[trigger] required@[k]),
    }
}

/// Whether a directory is where a change came from.
pub open spec fn is_home(origin: ChangeOrigin, directory: SyncDirectory) -> bool {
    match origin {
        ChangeOrigin::Local { directory_path } => directory_path@ == directory.path@,
        ChangeOrigin::Peer { .. } => false,
    }
}

/// Whether a peer is the one that a change came from.
pub open spec fn is_source(origin: ChangeOrigin, key: Seq<char>) -> bool {
    match origin {
        ChangeOrigin::Local { .. } => false,
        ChangeOrigin::Peer { public_key } => public_key@ == key,
    }
}

/// Whether `tags` lists the tags that stand on a file, in ascending order.
pub open spec fn own_tags(db: DatabaseView, file_id: FileId, tags: Seq<TagId>) -> bool {
    &&& forall|i: int, j: int|
        0 <= i < j < tags.len() ==> (#[trigger] tags[i]).value < (#[trigger] tags[j]).value
    &&& forall|t: TagId| #[trigger]
        tags.contains(t) <==> {
            let key = EntryKey { tag_id: t, target: file_id.value, kind: EntryType::File };
            db.entries.contains_key(key) && !db.entries[key].deleted
        }
}

/// Whether `at` lists the positions below `n` that are chosen, in ascending order.
pub open spec fn is_selection(at: Seq<int>, n: int, chosen: spec_fn(int) -> bool) -> bool {
    &&& forall|k: int, l: int| 0 <= k < l < at.len() ==> #[trigger] at[k] < #[trigger] at[l]
    &&& forall|k: int| 0 <= k < at.len() ==> 0 <= #[trigger] at[k] < n && chosen(at[k])
    &&& forall|i: int| 0 <= i < n && #[trigger] chosen(i) ==> at.contains(i)
}

/// Whether `at` lists the positions of the chosen directories.
pub open spec fn selects(
    directories: Seq<SyncDirectory>,
    at: Seq<int>,
    chosen: spec_fn(SyncDirectory) -> bool,
) -> bool {
    is_selection(at, directories.len() as int, |i: int| chosen(directories[i]))
}

/// The content that each of so many directories gets: one takes it as it is, and of several
/// none takes a file away from the others.
pub open spec fn portion(count: int, content: BytesView) -> BytesView {
    match content {
        BytesView::FileToMove(path) if count != 1 => BytesView::FileToCopy(path),
        _ => content,
    }
}

/// Whether actions begin with one command for each of the directories at some positions, in
/// order, and hold no other.
pub open spec fn commands(
    directories: Seq<SyncDirectory>,
    actions: Seq<ActionView>,
    at: Seq<int>,
    what: spec_fn(SyncDirectory) -> CommandView,
) -> bool {
    &&& at.len() <= actions.len()
    &&& forall|k: int|
        0 <= k < at.len() ==> #[trigger] actions[k] == ActionView::Command(
            what(directories[at[k]]),
        )
    &&& forall|k: int| at.len() <= k < actions.len() ==> !(#[trigger] actions[k] is Command)
}

/// Whether just the chosen directories are each told one thing.
pub open spec fn commands_exactly(
    configuration: Configuration,
    actions: Seq<ActionView>,
    chosen: spec_fn(SyncDirectory) -> bool,
    what: spec_fn(SyncDirectory) -> CommandView,
) -> bool {
    let directories = configuration.sync_directories@;
    exists|at: Seq<int>| #[trigger]
        selects(directories, at, chosen) && commands(directories, actions, at, what)
}

/// Whether just the chosen directories each get a content. A file that is to be moved goes
/// to one directory as it is; several copy it, and only then is it removed.
pub open spec fn distributes(
    configuration: Configuration,
    actions: Seq<ActionView>,
    chosen: spec_fn(SyncDirectory) -> bool,
    what: spec_fn(SyncDirectory, BytesView) -> CommandView,
    content: BytesView,
) -> bool {
    let directories = configuration.sync_directories@;
    exists|at: Seq<int>| #[trigger]
        selects(directories, at, chosen) && commands(
            directories,
            actions,
            at,
            |d: SyncDirectory| what(d, portion(at.len() as int, content)),
        ) && forall|path: Seq<char>| #[trigger]
            actions.contains(ActionView::RemoveSource { path }) <==> content
                == BytesView::FileToMove(path) && at.len() > 1
}

/// The command to a directory to store a new file: a universal one stores it under its
/// identifier, and a tag directory under its logical path.
pub open spec fn create_in(file_id: FileId, logical_path: Seq<char>) -> spec_fn(
    SyncDirectory,
    BytesView,
) -> CommandView {
    |d: SyncDirectory, c: BytesView|
        CommandView::CreateFile {
            file_id,
            physical_path: if d.sync_type is Universal {
                id_text(file_id.value)
            } else {
                logical_path
            },
            content: c,
            sync_directory_path: d.path@,
        }
}

/// The command to a directory to store new bytes of a file.
pub open spec fn change_in(file_id: FileId) -> spec_fn(SyncDirectory, BytesView) -> CommandView {
    |d: SyncDirectory, c: BytesView|
        CommandView::ChangeFile { file_id, content: c, sync_directory_path: d.path@ }
}

/// Whether actions send a change once to each peer at some positions, in order and in a
/// row, and nothing else to anybody.
pub open spec fn sends(
    peers: Seq<Peer>,
    actions: Seq<ActionView>,
    at: Seq<int>,
    from: int,
    change: ChangeView,
) -> bool {
    &&& 0 <= from <= from + at.len() <= actions.len()
    &&& forall|k: int|
        from <= k < from + at.len() ==> #[trigger] actions[k] == (ActionView::Send {
            public_key: peers[at[k - from]].public_key@,
            change,
        })
    &&& forall|k: int|
        0 <= k < actions.len() && !(from <= k < from + at.len()) ==> !(
        #[trigger] actions[k] is Send)
}

/// Whether just the configured peers that are connected, but for the one that a change came
/// from, are each sent a change.
pub open spec fn tells_the_others(
    configuration: Configuration,
    runtime: RuntimeConfiguration,
    origin: ChangeOrigin,
    actions: Seq<ActionView>,
    change: ChangeView,
) -> bool {
    let peers = configuration.peers@;
    exists|at: Seq<int>, from: int|
        #![trigger sends(peers, actions, at, from, change)]
        is_selection(
            at,
            peers.len() as int,
            |i: int|
                runtime.outbound(peers[i].public_key@) is Some && !is_source(
                    origin,
                    peers[i].public_key@,
                ),
        ) && sends(peers, actions, at, from, change)
}

/// Whether actions send nothing to any peer.
pub open spec fn tells_nobody(actions: Seq<ActionView>) -> bool {
    forall|k: int| 0 <= k < actions.len() ==> !(#[trigger] actions[k] is Send)
}

/// Whether actions tell the user interface of a change, once and last.
pub open spec fn publishes(actions: Seq<ActionView>, change: ChangeView) -> bool {
    &&& actions.len() > 0
    &&& actions.last() == ActionView::Publish(change)
    &&& forall|k: int| 0 <= k < actions.len() - 1 ==> !(#[trigger] actions[k] is Publish)
}

/// Whether actions tell the user interface nothing.
pub open spec fn publishes_nothing(actions: Seq<ActionView>) -> bool {
    forall|k: int| 0 <= k < actions.len() ==> !(#[trigger] actions[k] is Publish)
}

/// Whether actions ask no peer for bytes.
pub open spec fn asks_for_nothing(actions: Seq<ActionView>) -> bool {
    forall|k: int|
        0 <= k < actions.len() ==> !(#[trigger] actions[k] is Instruct) && !(actions[k] is Seek)
            && !(actions[k] is ReadLocal)
}

/// Whether actions ask the sync directories for nothing.
pub open spec fn commands_nothing(actions: Seq<ActionView>) -> bool {
    forall|k: int|
        0 <= k < actions.len() ==> !(#[trigger] actions[k] is Command) && !(
        actions[k] is RemoveSource)
}

/// The text under which the origin of a version goes on record.
pub open spec fn name_of(origin: ChangeOrigin) -> Seq<char> {
    match origin {
        ChangeOrigin::Local { .. } => "local"@,
        ChangeOrigin::Peer { public_key } => public_key@,
    }
}

/// Whether the versions of one file grew by one, and nothing else about versions changed.
pub open spec fn one_version_more(
    before: DatabaseView,
    after: DatabaseView,
    file_id: FileId,
    content_hash: Seq<char>,
    now: i64,
    origin: ChangeOrigin,
) -> bool {
    let history = before.history(file_id);
    &&& after.history(file_id).len() == history.len() + 1
    &&& forall|k: int|
        0 <= k < history.len() ==> #[trigger] after.history(file_id)[k] == history[k]
    &&& after.history(file_id).last() == (VersionView {
        file_id,
        content_hash,
        observed_at: now,
        version_number: (history.len() + 1) as i64,
        origin: name_of(origin),
    })
    &&& forall|f: FileId| f != file_id ==> #[trigger] after.history(f) == before.history(f)
}

/// Whether there is room for one more version of a file.
pub open spec fn has_space(db: DatabaseView, file_id: FileId) -> bool {
    db.history(file_id).len() < MAX_VERSIONS
}

/// Whether a content is that of the latest version of a file.
pub open spec fn is_latest(db: DatabaseView, file_id: FileId, content_hash: Seq<char>) -> bool {
    let history = db.history(file_id);
    history.len() > 0 && history[history.len() - 1].content_hash == content_hash
}

proof fn lemma_own_tags(db: DatabaseView, file_id: FileId, tags: Seq<TagId>)
    requires
        own_tags(db, file_id, tags),
    ensures
        tags_on(db, file_id) == tags,
{
    let set = is_on(db, file_id);
    assert(lists_tags(tags, set)) by {
        assert forall|t: TagId| #[trigger] tags.contains(t) <==> set(t) by {
            assert(file_key(t, file_id) == (EntryKey {
                tag_id: t,
                target: file_id.value,
                kind: EntryType::File,
            }));
        }
    }
    let other = tags_on(db, file_id);
    assert(lists_tags(other, set));
    assert forall|t: TagId| #[trigger] tags.contains(t) <==> other.contains(t) by {
        assert(tags.contains(t) <==> set(t));
        assert(other.contains(t) <==> set(t));
    }
    lemma_ascending_tags_unique(tags, other);
}

proof fn lemma_asks_for(directory: SyncDirectory, tags: Seq<TagId>)
    ensures
        wants(directory.sync_type@, tags) == asks_for(directory, tags),
{
    match directory.sync_type {
        SyncType::Universal { .. } => {},
        SyncType::TagBased { tags: required } => {
            if asks_for(directory, tags) {
                assert forall|t: TagId| #[trigger] required@.contains(t) implies tags.contains(
                    t,
                ) by {
                    let k = choose|k: int| 0 <= k < required@.len() && required@[k] == t;
                    assert(tags.contains(required@[k]));
                }
            } else {
                let k = choose|k: int|
                    0 <= k < required@.len() && !tags.contains(#[trigger] required@[k]);
                assert(required@.contains(required@[k]));
            }
        },
    }
}

spec fn chosen_below(n: int, chosen: spec_fn(int) -> bool) -> Seq<int>
    decreases n,
{
    if n <= 0 {
        Seq::empty()
    } else if chosen(n - 1) {
        chosen_below(n - 1, chosen).push(n - 1)
    } else {
        chosen_below(n - 1, chosen)
    }
}

proof fn lemma_chosen_below(n: int, chosen: spec_fn(int) -> bool)
    requires
        0 <= n,
    ensures
        is_selection(chosen_below(n, chosen), n, chosen),
    decreases n,
{
    if n > 0 {
        lemma_chosen_below(n - 1, chosen);
        let before = chosen_below(n - 1, chosen);
        let all = chosen_below(n, chosen);
        assert forall|i: int| 0 <= i < n && #[trigger] chosen(i) implies all.contains(i) by {
            if i < n - 1 {
                assert(before.contains(i));
                let k = choose|k: int| 0 <= k < before.len() && before[k] == i;
                assert(all[k] == i);
            } else {
                assert(all[before.len() as int] == i);
            }
        }
    }
}

proof fn lemma_concerned_at(
    directories: Seq<SyncDirectory>,
    skip: Skip,
    origin: ChangeOrigin,
    tags: Seq<TagId>,
    n: int,
    chosen: spec_fn(int) -> bool,
)
    requires
        0 <= n <= directories.len(),
        forall|i: int|
            0 <= i < n ==> #[trigger] chosen(i) == concerns(skip, origin, tags, directories[i]),
    ensures
        concerned(directories, skip, origin, tags, n) == chosen_below(n, chosen).map_values(
            |i: int| directories[i],
        ),
    decreases n,
{
    if n > 0 {
        lemma_concerned_at(directories, skip, origin, tags, n - 1, chosen);
        assert(chosen(n - 1) == concerns(skip, origin, tags, directories[n - 1]));
        let before = chosen_below(n - 1, chosen);
        assert(before.push(n - 1).map_values(|i: int| directories[i]) =~= before.map_values(
            |i: int| directories[i],
        ).push(directories[n - 1]));
    }
    assert(concerned(directories, skip, origin, tags, n) =~= chosen_below(n, chosen).map_values(
        |i: int| directories[i],
    ));
}

proof fn lemma_forwarded_at(
    peers: Seq<Peer>,
    runtime: RuntimeConfiguration,
    change: ChangeView,
    origin: ChangeOrigin,
    n: int,
    chosen: spec_fn(int) -> bool,
)
    requires
        0 <= n <= peers.len(),
        forall|i: int| 0 <= i < n ==> #[trigger] chosen(i) == receives(runtime, origin, peers[i]),
    ensures
        forwarded_to(peers, runtime, change, origin, n) == chosen_below(n, chosen).map_values(
            |i: int| ActionView::Send { public_key: peers[i].public_key@, change },
        ),
    decreases n,
{
    let send = |i: int| ActionView::Send { public_key: peers[i].public_key@, change };
    if n > 0 {
        lemma_forwarded_at(peers, runtime, change, origin, n - 1, chosen);
        assert(chosen(n - 1) == receives(runtime, origin, peers[n - 1]));
        let before = chosen_below(n - 1, chosen);
        assert(before.push(n - 1).map_values(send) =~= before.map_values(send).push(send(n - 1)));
    }
    assert(forwarded_to(peers, runtime, change, origin, n) =~= chosen_below(n, chosen).map_values(
        send,
    ));
}

/// Actions that are commands and removals of a source, then what is sent on, then what is
/// published.
proof fn lemma_told(
    configuration: Configuration,
    runtime: RuntimeConfiguration,
    origin: ChangeOrigin,
    first: Seq<ActionView>,
    change: ChangeView,
    last: Seq<ActionView>,
)
    requires
        forall|k: int| 0 <= k < first.len() ==> !(#[trigger] first[k] is Send),
        forall|k: int| 0 <= k < last.len() ==> !(#[trigger] last[k] is Send),
    ensures
        tells_the_others(
            configuration,
            runtime,
            origin,
            first + forwarded(configuration, runtime, change, origin) + last,
            change,
        ),
{
    let peers = configuration.peers@;
    let chosen = |i: int|
        runtime.outbound(peers[i].public_key@) is Some && !is_source(origin, peers[i].public_key@);
    let n = peers.len() as int;
    let at = chosen_below(n, chosen);
    let sent = forwarded(configuration, runtime, change, origin);
    let actions = first + sent + last;
    lemma_chosen_below(n, chosen);
    lemma_forwarded_at(peers, runtime, change, origin, n, chosen);
    assert forall|k: int|
        first.len() <= k < first.len() + at.len() implies #[trigger] actions[k] == (
    ActionView::Send { public_key: peers[at[k - first.len()]].public_key@, change }) by {
        assert(actions[k] == sent[k - first.len()]);
    }
    assert forall|k: int|
        0 <= k < actions.len() && !(first.len() <= k < first.len() + at.len()) implies !(
    #[trigger] actions[k] is Send) by {
        if k < first.len() {
            assert(actions[k] == first[k]);
        } else {
            assert(actions[k] == last[k - first.len() - sent.len()]);
        }
    }
    assert(sends(peers, actions, at, first.len() as int, change));
}

/// What is sent on holds nothing but sendings.
proof fn lemma_only_sendings(
    configuration: Configuration,
    runtime: RuntimeConfiguration,
    origin: ChangeOrigin,
    change: ChangeView,
)
    ensures
        forall|k: int|
            0 <= k < forwarded(configuration, runtime, change, origin).len() ==> #[trigger]
            forwarded(configuration, runtime, change, origin)[k] is Send,
{
    let peers = configuration.peers@;
    let chosen = |i: int| receives(runtime, origin, peers[i]);
    lemma_forwarded_at(peers, runtime, change, origin, peers.len() as int, chosen);
}

/// Commands to the directories that are concerned, in front of what holds no command.
proof fn lemma_commands(
    configuration: Configuration,
    skip: Skip,
    origin: ChangeOrigin,
    tags: Seq<TagId>,
    chosen: spec_fn(SyncDirectory) -> bool,
    what: spec_fn(SyncDirectory) -> CommandView,
    views: Seq<CommandView>,
    rest: Seq<ActionView>,
) -> (at: Seq<int>)
    requires
        forall|d: SyncDirectory| #[trigger] chosen(d) == concerns(skip, origin, tags, d),
        views == all_concerned(configuration, skip, origin, tags).map_values(what),
        forall|k: int| 0 <= k < rest.len() ==> !(#[trigger] rest[k] is Command),
    ensures
        selects(configuration.sync_directories@, at, chosen),
        commands(configuration.sync_directories@, commanded(views) + rest, at, what),
        at.len() == all_concerned(configuration, skip, origin, tags).len(),
{
    let directories = configuration.sync_directories@;
    let n = directories.len() as int;
    let picks = |i: int| chosen(directories[i]);
    let at = chosen_below(n, picks);
    lemma_chosen_below(n, picks);
    lemma_concerned_at(directories, skip, origin, tags, n, picks);
    let actions = commanded(views) + rest;
    assert forall|k: int| 0 <= k < at.len() implies #[trigger] actions[k] == ActionView::Command(
        what(directories[at[k]]),
    ) by {
        assert(actions[k] == commanded(views)[k]);
        assert(views[k] == what(all_concerned(configuration, skip, origin, tags)[k]));
    }
    assert forall|k: int| at.len() <= k < actions.len() implies !(
    #[trigger] actions[k] is Command) by {
        assert(actions[k] == rest[k - at.len()]);
    }
    at
}

/// Bytes handed to the directories that are concerned, in front of what holds no command
/// and removes no source.
proof fn lemma_distributes(
    configuration: Configuration,
    skip: Skip,
    origin: ChangeOrigin,
    tags: Seq<TagId>,
    chosen: spec_fn(SyncDirectory) -> bool,
    what: spec_fn(SyncDirectory, BytesView) -> CommandView,
    content: BytesView,
    views: Seq<CommandView>,
    rest: Seq<ActionView>,
)
    requires
        forall|d: SyncDirectory| #[trigger] chosen(d) == concerns(skip, origin, tags, d),
        ({
            let directories = all_concerned(configuration, skip, origin, tags);
            views == directories.map_values(
                |d: SyncDirectory| what(d, shared_among(directories.len(), content)),
            )
        }),
        forall|k: int|
            0 <= k < rest.len() ==> !(#[trigger] rest[k] is Command) && !(rest[k] is RemoveSource),
    ensures
        distributes(
            configuration,
            commanded(views) + source_removal(
                all_concerned(configuration, skip, origin, tags).len(),
                content,
            ) + rest,
            chosen,
            what,
            content,
        ),
{
    let count = all_concerned(configuration, skip, origin, tags).len();
    let removal = source_removal(count, content);
    let each = |d: SyncDirectory| what(d, shared_among(count, content));
    assert forall|k: int| 0 <= k < (removal + rest).len() implies !(
    #[trigger] (removal + rest)[k] is Command) by {
        if k >= removal.len() {
            assert((removal + rest)[k] == rest[k - removal.len()]);
        }
    }
    let at = lemma_commands(
        configuration,
        skip,
        origin,
        tags,
        chosen,
        each,
        views,
        removal + rest,
    );
    let actions = commanded(views) + removal + rest;
    assert(actions =~= commanded(views) + (removal + rest));
    let portions = |d: SyncDirectory| what(d, portion(at.len() as int, content));
    assert(portion(at.len() as int, content) == shared_among(count, content));
    assert(commands(configuration.sync_directories@, actions, at, portions));
    assert forall|path: Seq<char>| #[trigger]
        actions.contains(ActionView::RemoveSource { path }) <==> content
            == BytesView::FileToMove(path) && at.len() > 1 by {
        let wanted = ActionView::RemoveSource { path };
        if actions.contains(wanted) {
            let k = choose|k: int| 0 <= k < actions.len() && actions[k] == wanted;
            if k < at.len() {
                assert(actions[k] is Command);
            } else if k < at.len() + removal.len() {
                assert(actions[k] == removal[k - at.len()]);
            } else {
                assert(actions[k] == rest[k - at.len() - removal.len()]);
            }
        }
        if content == BytesView::FileToMove(path) && at.len() > 1 {
            assert(actions[at.len() as int] == removal[0]);
        }
    }
}

/// A new local file goes to every directory for files with its tags, but not back into the
/// tag directory that it came from: universal ones store it under its identifier, tag
/// directories under its logical path. It is on record with its version, every peer is told
/// of it with the tags that it came with, and so is the user interface.
pub proof fn law_a_new_local_file(
    configuration: Configuration,
    runtime: RuntimeConfiguration,
    db: DatabaseView,
    change: ContentChange,
    origin: ChangeOrigin,
    now: i64,
    here: ChangeOrigin,
)
    requires
        change matches ContentChange::FileAdded { file_id, .. } && !db.files.contains_key(file_id)
            && has_space(db, file_id),
    ensures
        ({
            let message = DaemonMessage::Change(Ingest::Content(change), origin);
            let (after, actions) = after_message(configuration, runtime, db, message, now, here);
            change matches ContentChange::FileAdded {
                file_id,
                logical_path,
                content,
                content_hash,
                tags,
            } && {
                let wire = ChangeView::FileMetadataAdded {
                    file_id,
                    logical_path,
                    content_hash,
                    tags: tags@,
                };
                &&& distributes(
                    configuration,
                    actions,
                    |d: SyncDirectory|
                        asks_for(d, tags@) && !(is_home(origin, d) && d.sync_type is TagBased),
                    create_in(file_id, logical_path@),
                    content@,
                )
                &&& tells_the_others(configuration, runtime, origin, actions, wire)
                &&& publishes(actions, wire)
                &&& asks_for_nothing(actions)
                &&& after.files == db.files.insert(file_id, logical_path@)
                &&& after.tags == db.tags
                &&& after.entries == db.entries
                &&& one_version_more(db, after, file_id, content_hash@, now, origin)
            }
        }),
{
    match change {
        ContentChange::FileAdded { file_id, logical_path, content, content_hash, tags } => {
            let wire = ChangeView::FileMetadataAdded {
                file_id,
                logical_path,
                content_hash,
                tags: tags@,
            };
            lemma_created(
                configuration,
                runtime,
                Skip::TagBasedOrigin,
                origin,
                file_id,
                logical_path@,
                tags@,
                content@,
                wire,
                published(true, wire),
                |d: SyncDirectory|
                    asks_for(d, tags@) && !(is_home(origin, d) && d.sync_type is TagBased),
            );
        },
        _ => {},
    }
}

proof fn lemma_created(
    configuration: Configuration,
    runtime: RuntimeConfiguration,
    skip: Skip,
    origin: ChangeOrigin,
    file_id: FileId,
    logical_path: Seq<char>,
    tags: Seq<TagId>,
    content: BytesView,
    wire: ChangeView,
    last: Seq<ActionView>,
    chosen: spec_fn(SyncDirectory) -> bool,
)
    requires
        forall|d: SyncDirectory| #[trigger]
            chosen(d) == (asks_for(d, tags) && !super::skips(skip, origin, d)),
        last == published(true, wire) || last.len() == 0,
    ensures
        ({
            let first = created(
                configuration,
                skip,
                origin,
                file_id,
                logical_path,
                tags,
                content,
            );
            let actions = first + forwarded(configuration, runtime, wire, origin) + last;
            &&& distributes(
                configuration,
                actions,
                chosen,
                create_in(file_id, logical_path),
                content,
            )
            &&& distributes(
                configuration,
                first,
                chosen,
                create_in(file_id, logical_path),
                content,
            )
            &&& tells_the_others(configuration, runtime, origin, actions, wire)
            &&& last.len() > 0 ==> publishes(actions, wire)
            &&& last.len() == 0 ==> publishes_nothing(actions)
            &&& asks_for_nothing(actions)
            &&& asks_for_nothing(first)
            &&& tells_nobody(first)
            &&& publishes_nothing(first)
        }),
{
    let directories = all_concerned(configuration, skip, origin, tags);
    let count = directories.len();
    let what = create_in(file_id, logical_path);
    let views = create_commands(directories, file_id, logical_path, shared_among(count, content));
    let removal = source_removal(count, content);
    let sent = forwarded(configuration, runtime, wire, origin);
    lemma_only_sendings(configuration, runtime, origin, wire);
    assert forall|d: SyncDirectory| #[trigger] chosen(d) == concerns(skip, origin, tags, d) by {
        lemma_asks_for(d, tags);
    }
    assert(views =~= directories.map_values(
        |d: SyncDirectory| what(d, shared_among(count, content)),
    ));
    lemma_distributes(
        configuration,
        skip,
        origin,
        tags,
        chosen,
        what,
        content,
        views,
        sent + last,
    );
    lemma_distributes(
        configuration,
        skip,
        origin,
        tags,
        chosen,
        what,
        content,
        views,
        Seq::empty(),
    );
    let first = commanded(views) + removal;
    assert(first + Seq::<ActionView>::empty() =~= first);
    let actions = first + sent + last;
    assert(actions =~= commanded(views) + removal + (sent + last));
    lemma_told(configuration, runtime, origin, first, wire, last);
    assert forall|k: int| 0 <= k < actions.len() implies (#[trigger] actions[k] is Command
        || actions[k] is RemoveSource || actions[k] is Send || (k >= first.len() + sent.len()
        && actions[k] == last[k - first.len() - sent.len()])) by {
        if k < first.len() {
            assert(actions[k] == first[k]);
        } else if k < first.len() + sent.len() {
            assert(actions[k] == sent[k - first.len()]);
        }
    }
}

proof fn lemma_changed(
    configuration: Configuration,
    runtime: RuntimeConfiguration,
    skip: Skip,
    origin: ChangeOrigin,
    file_id: FileId,
    tags: Seq<TagId>,
    content: BytesView,
    wire: ChangeView,
    last: Seq<ActionView>,
    chosen: spec_fn(SyncDirectory) -> bool,
)
    requires
        forall|d: SyncDirectory| #[trigger]
            chosen(d) == (asks_for(d, tags) && !super::skips(skip, origin, d)),
        last == published(true, wire) || last.len() == 0,
    ensures
        ({
            let first = changed(configuration, skip, origin, file_id, tags, content);
            let actions = first + forwarded(configuration, runtime, wire, origin) + last;
            &&& distributes(configuration, actions, chosen, change_in(file_id), content)
            &&& distributes(configuration, first, chosen, change_in(file_id), content)
            &&& tells_the_others(configuration, runtime, origin, actions, wire)
            &&& last.len() > 0 ==> publishes(actions, wire)
            &&& last.len() == 0 ==> publishes_nothing(actions)
            &&& asks_for_nothing(actions)
            &&& asks_for_nothing(first)
            &&& tells_nobody(first)
            &&& publishes_nothing(first)
        }),
{
    let directories = all_concerned(configuration, skip, origin, tags);
    let count = directories.len();
    let what = change_in(file_id);
    let views = change_commands(directories, file_id, shared_among(count, content));
    let removal = source_removal(count, content);
    let sent = forwarded(configuration, runtime, wire, origin);
    lemma_only_sendings(configuration, runtime, origin, wire);
    assert forall|d: SyncDirectory| #[trigger] chosen(d) == concerns(skip, origin, tags, d) by {
        lemma_asks_for(d, tags);
    }
    assert(views =~= directories.map_values(
        |d: SyncDirectory| what(d, shared_among(count, content)),
    ));
    lemma_distributes(
        configuration,
        skip,
        origin,
        tags,
        chosen,
        what,
        content,
        views,
        sent + last,
    );
    lemma_distributes(
        configuration,
        skip,
        origin,
        tags,
        chosen,
        what,
        content,
        views,
        Seq::empty(),
    );
    let first = commanded(views) + removal;
    assert(first + Seq::<ActionView>::empty() =~= first);
    let actions = first + sent + last;
    assert(actions =~= commanded(views) + removal + (sent + last));
    lemma_told(configuration, runtime, origin, first, wire, last);
    assert forall|k: int| 0 <= k < actions.len() implies (#[trigger] actions[k] is Command
        || actions[k] is RemoveSource || actions[k] is Send || (k >= first.len() + sent.len()
        && actions[k] == last[k - first.len() - sent.len()])) by {
        if k < first.len() {
            assert(actions[k] == first[k]);
        } else if k < first.len() + sent.len() {
            assert(actions[k] == sent[k - first.len()]);
        }
    }
}

/// New bytes of a known file go to every directory for files with the tags that stand on it,
/// whether or not the directory keeps deleted files, but not back to the one that they came
/// from. Their version is on record, every peer is told, and so is the user interface.
pub proof fn law_new_bytes_of_a_known_file(
    configuration: Configuration,
    runtime: RuntimeConfiguration,
    db: DatabaseView,
    change: ContentChange,
    origin: ChangeOrigin,
    now: i64,
    here: ChangeOrigin,
    file_id: FileId,
    content: BytesView,
    content_hash: String,
    tags: Seq<TagId>,
)
    requires
        match change {
            ContentChange::FileChanged { file_id: f, content: c, content_hash: h } => f == file_id
                && c@ == content && h == content_hash,
            ContentChange::FileAdded { file_id: f, content: c, content_hash: h, .. } => f
                == file_id && c@ == content && h == content_hash && db.files.contains_key(f)
                && !is_latest(db, f, h@),
        },
        has_space(db, file_id),
        own_tags(db, file_id, tags),
    ensures
        ({
            let message = DaemonMessage::Change(Ingest::Content(change), origin);
            let (after, actions) = after_message(configuration, runtime, db, message, now, here);
            let wire = ChangeView::Other(Change::FileMetadataChanged { file_id, content_hash });
            &&& distributes(
                configuration,
                actions,
                |d: SyncDirectory| asks_for(d, tags) && !is_home(origin, d),
                change_in(file_id),
                content,
            )
            &&& tells_the_others(configuration, runtime, origin, actions, wire)
            &&& publishes(actions, wire)
            &&& asks_for_nothing(actions)
            &&& after.files == db.files
            &&& after.tags == db.tags
            &&& after.entries == db.entries
            &&& one_version_more(db, after, file_id, content_hash@, now, origin)
        }),
{
    let wire = ChangeView::Other(Change::FileMetadataChanged { file_id, content_hash });
    lemma_own_tags(db, file_id, tags);
    lemma_changed(
        configuration,
        runtime,
        Skip::Origin,
        origin,
        file_id,
        tags,
        content,
        wire,
        published(true, wire),
        |d: SyncDirectory| asks_for(d, tags) && !is_home(origin, d),
    );
}

/// A local file that is known with this content leads to nothing.
pub proof fn law_known_content_leads_to_nothing(
    configuration: Configuration,
    runtime: RuntimeConfiguration,
    db: DatabaseView,
    change: ContentChange,
    origin: ChangeOrigin,
    now: i64,
    here: ChangeOrigin,
)
    requires
        change matches ContentChange::FileAdded { file_id, content_hash, .. }
            && db.files.contains_key(file_id) && is_latest(db, file_id, content_hash@),
    ensures
        ({
            let message = DaemonMessage::Change(Ingest::Content(change), origin);
            let (after, actions) = after_message(configuration, runtime, db, message, now, here);
            after == db && actions.len() == 0
        }),
{
}

/// Bytes that arrived of a new file go to every directory for files with its tags. Where
/// their version is on record as the latest that is all. Else it goes on record, every peer
/// but the one that they came from is told, and so is the user interface.
pub proof fn law_the_bytes_of_a_new_file_arrived(
    configuration: Configuration,
    runtime: RuntimeConfiguration,
    db: DatabaseView,
    message: DaemonMessage,
    now: i64,
    here: ChangeOrigin,
)
    requires
        message matches DaemonMessage::Materialize {
            file_id,
            placement: MaterializePlacement::Create { .. },
            ..
        } && has_space(db, file_id),
    ensures
        ({
            let (after, actions) = after_message(configuration, runtime, db, message, now, here);
            message matches DaemonMessage::Materialize {
                file_id,
                content,
                content_hash,
                origin,
                placement: MaterializePlacement::Create { logical_path, tags },
            } && {
                let wire = ChangeView::FileMetadataAdded {
                    file_id,
                    logical_path,
                    content_hash,
                    tags: tags@,
                };
                &&& distributes(
                    configuration,
                    actions,
                    |d: SyncDirectory| asks_for(d, tags@),
                    create_in(file_id, logical_path@),
                    content@,
                )
                &&& asks_for_nothing(actions)
                &&& after.files == db.files
                &&& after.tags == db.tags
                &&& after.entries == db.entries
                &&& if is_latest(db, file_id, content_hash@) {
                    after == db && tells_nobody(actions) && publishes_nothing(actions)
                } else {
                    &&& tells_the_others(configuration, runtime, origin, actions, wire)
                    &&& publishes(actions, wire)
                    &&& one_version_more(db, after, file_id, content_hash@, now, origin)
                }
            }
        }),
{
    match message {
        DaemonMessage::Materialize {
            file_id,
            content,
            content_hash,
            origin,
            placement: MaterializePlacement::Create { logical_path, tags },
        } => {
            let wire = ChangeView::FileMetadataAdded {
                file_id,
                logical_path,
                content_hash,
                tags: tags@,
            };
            lemma_created(
                configuration,
                runtime,
                Skip::Nothing,
                origin,
                file_id,
                logical_path@,
                tags@,
                content@,
                wire,
                published(true, wire),
                |d: SyncDirectory| asks_for(d, tags@),
            );
        },
        _ => {},
    }
}

/// Bytes that arrived of a known file go to every directory for files with the tags that
/// stand on it. Where their version is on record as the latest that is all. Else it goes on
/// record, every peer but the one that they came from is told, and so is the user interface.
pub proof fn law_new_bytes_arrived(
    configuration: Configuration,
    runtime: RuntimeConfiguration,
    db: DatabaseView,
    message: DaemonMessage,
    now: i64,
    here: ChangeOrigin,
    tags: Seq<TagId>,
)
    requires
        message matches DaemonMessage::Materialize {
            file_id,
            placement: MaterializePlacement::Change,
            ..
        } && has_space(db, file_id) && own_tags(db, file_id, tags),
    ensures
        ({
            let (after, actions) = after_message(configuration, runtime, db, message, now, here);
            message matches DaemonMessage::Materialize {
                file_id,
                content,
                content_hash,
                origin,
                placement: MaterializePlacement::Change,
            } && {
                let wire = ChangeView::Other(
                    Change::FileMetadataChanged { file_id, content_hash },
                );
                &&& distributes(
                    configuration,
                    actions,
                    |d: SyncDirectory| asks_for(d, tags),
                    change_in(file_id),
                    content@,
                )
                &&& asks_for_nothing(actions)
                &&& after.files == db.files
                &&& after.tags == db.tags
                &&& after.entries == db.entries
                &&& if is_latest(db, file_id, content_hash@) {
                    after == db && tells_nobody(actions) && publishes_nothing(actions)
                } else {
                    &&& tells_the_others(configuration, runtime, origin, actions, wire)
                    &&& publishes(actions, wire)
                    &&& one_version_more(db, after, file_id, content_hash@, now, origin)
                }
            }
        }),
{
    match message {
        DaemonMessage::Materialize {
            file_id,
            content,
            content_hash,
            origin,
            placement: MaterializePlacement::Change,
        } => {
            let wire = ChangeView::Other(Change::FileMetadataChanged { file_id, content_hash });
            lemma_own_tags(db, file_id, tags);
            lemma_changed(
                configuration,
                runtime,
                Skip::Nothing,
                origin,
                file_id,
                tags,
                content@,
                wire,
                published(true, wire),
                |d: SyncDirectory| asks_for(d, tags),
            );
        },
        _ => {},
    }
}

/// What is only sent on and published.
proof fn lemma_announced(
    configuration: Configuration,
    runtime: RuntimeConfiguration,
    origin: ChangeOrigin,
    wire: ChangeView,
)
    ensures
        ({
            let actions = forwarded(configuration, runtime, wire, origin) + published(true, wire);
            &&& tells_the_others(configuration, runtime, origin, actions, wire)
            &&& publishes(actions, wire)
            &&& asks_for_nothing(actions)
            &&& commands_nothing(actions)
        }),
{
    let sent = forwarded(configuration, runtime, wire, origin);
    let last = published(true, wire);
    let actions = sent + last;
    lemma_only_sendings(configuration, runtime, origin, wire);
    lemma_told(configuration, runtime, origin, Seq::empty(), wire, last);
    assert(Seq::<ActionView>::empty() + sent + last =~= actions);
    assert forall|k: int| 0 <= k < actions.len() implies (#[trigger] actions[k] is Send || (k
        == sent.len() && actions[k] == last[0])) by {
        if k < sent.len() {
            assert(actions[k] == sent[k]);
        }
    }
}

/// A version of a peer's manifest goes on record, with the file where that is new. Every
/// other peer is told, of a new file without tags, and so is the user interface. Nothing is
/// asked of the sync directories.
pub proof fn law_a_version_of_a_manifest(
    configuration: Configuration,
    runtime: RuntimeConfiguration,
    db: DatabaseView,
    message: DaemonMessage,
    now: i64,
    here: ChangeOrigin,
)
    requires
        message matches DaemonMessage::CatalogFile { file_id, .. } && has_space(db, file_id),
    ensures
        ({
            let (after, actions) = after_message(configuration, runtime, db, message, now, here);
            message matches DaemonMessage::CatalogFile {
                file_id,
                logical_path,
                content_hash,
                origin,
            } && {
                let wire = if db.files.contains_key(file_id) {
                    ChangeView::Other(Change::FileMetadataChanged { file_id, content_hash })
                } else {
                    ChangeView::FileMetadataAdded {
                        file_id,
                        logical_path,
                        content_hash,
                        tags: Seq::empty(),
                    }
                };
                &&& tells_the_others(configuration, runtime, origin, actions, wire)
                &&& publishes(actions, wire)
                &&& asks_for_nothing(actions)
                &&& commands_nothing(actions)
                &&& after.files == (if db.files.contains_key(file_id) {
                    db.files
                } else {
                    db.files.insert(file_id, logical_path@)
                })
                &&& after.tags == db.tags
                &&& after.entries == db.entries
                &&& one_version_more(db, after, file_id, content_hash@, now, origin)
            }
        }),
{
    match message {
        DaemonMessage::CatalogFile { file_id, logical_path, content_hash, origin } => {
            let wire = if db.files.contains_key(file_id) {
                ChangeView::Other(Change::FileMetadataChanged { file_id, content_hash })
            } else {
                ChangeView::FileMetadataAdded {
                    file_id,
                    logical_path,
                    content_hash,
                    tags: Seq::empty(),
                }
            };
            lemma_announced(configuration, runtime, origin, wire);
        },
        _ => {},
    }
}

/// A new file that a client provides is announced to every peer that is connected, as an
/// added file with the path, the content hash and exactly the tags that the client gave; new
/// content of a known file as a change. It is on record as a local version, and nothing is
/// asked of the sync directories.
pub proof fn law_a_provided_file_is_announced(
    configuration: Configuration,
    runtime: RuntimeConfiguration,
    db: DatabaseView,
    message: DaemonMessage,
    now: i64,
    here: ChangeOrigin,
)
    requires
        message matches DaemonMessage::AnnounceProvided { file_id, logical_path, .. } && has_space(
            db,
            file_id,
        ) && (logical_path is Some ==> !db.files.contains_key(file_id)),
        here is Local,
    ensures
        ({
            let (after, actions) = after_message(configuration, runtime, db, message, now, here);
            message matches DaemonMessage::AnnounceProvided {
                file_id,
                logical_path,
                content_hash,
                tags,
                ..
            } && {
                let wire = match logical_path {
                    Some(path) => ChangeView::FileMetadataAdded {
                        file_id,
                        logical_path: path,
                        content_hash,
                        tags: tags@,
                    },
                    None => ChangeView::Other(
                        Change::FileMetadataChanged { file_id, content_hash },
                    ),
                };
                &&& tells_the_others(configuration, runtime, here, actions, wire)
                &&& publishes(actions, wire)
                &&& asks_for_nothing(actions)
                &&& commands_nothing(actions)
                &&& after.files == (match logical_path {
                    Some(path) => db.files.insert(file_id, path@),
                    None => db.files,
                })
                &&& after.tags == db.tags
                &&& after.entries == db.entries
                &&& one_version_more(db, after, file_id, content_hash@, now, here)
            }
        }),
{
    match message {
        DaemonMessage::AnnounceProvided { file_id, logical_path, content_hash, tags, .. } => {
            let wire = match logical_path {
                Some(path) => ChangeView::FileMetadataAdded {
                    file_id,
                    logical_path: path,
                    content_hash,
                    tags: tags@,
                },
                None => ChangeView::Other(Change::FileMetadataChanged { file_id, content_hash }),
            };
            lemma_announced(configuration, runtime, here, wire);
        },
        _ => {},
    }
}

/// A file that a client provides under a known identifier as if it were new leads to nothing.
pub proof fn law_a_provided_file_is_not_added_twice(
    configuration: Configuration,
    runtime: RuntimeConfiguration,
    db: DatabaseView,
    message: DaemonMessage,
    now: i64,
    here: ChangeOrigin,
)
    requires
        message matches DaemonMessage::AnnounceProvided { file_id, logical_path: Some(_), .. }
            && db.files.contains_key(file_id),
    ensures
        ({
            let (after, actions) = after_message(configuration, runtime, db, message, now, here);
            after == db && actions.len() == 0
        }),
{
}

/// How bytes that a peer announced are to be placed once they are here: those of an added
/// file at the announced path and by the announced tags, those of a change as a change.
pub open spec fn place_of(change: Change) -> Option<PlacementView> {
    match change {
        Change::FileMetadataAdded { logical_path, tags, .. } => Some(
            PlacementView::Create { logical_path, tags: tags@ },
        ),
        Change::FileMetadataChanged { .. } => Some(PlacementView::Change),
        _ => None,
    }
}

/// Whether a change announces this content of a file.
pub open spec fn announces(change: Change, file_id: FileId, content_hash: Seq<char>) -> bool {
    match change {
        Change::FileMetadataAdded { file_id: f, content_hash: h, .. } => f == file_id && h@
            == content_hash,
        Change::FileMetadataChanged { file_id: f, content_hash: h } => f == file_id && h@
            == content_hash,
        _ => false,
    }
}

/// A live announcement of content that is not on record as the latest has it pulled: the
/// peer that announced it, where its session is live, is instructed to send that file with
/// that content, to be placed as it was announced. Nobody else is asked and nobody is told;
/// the user interface is. No version goes on record before the bytes are here, and a file
/// that is new gets the announced path.
pub proof fn law_announced_content_is_pulled(
    configuration: Configuration,
    runtime: RuntimeConfiguration,
    db: DatabaseView,
    change: Change,
    origin: ChangeOrigin,
    now: i64,
    here: ChangeOrigin,
    file_id: FileId,
    content_hash: Seq<char>,
)
    requires
        announces(change, file_id, content_hash),
        !is_latest(db, file_id, content_hash) || (change is FileMetadataAdded
            && !db.files.contains_key(file_id)),
    ensures
        ({
            let message = DaemonMessage::Change(Ingest::Meta(change), origin);
            let (after, actions) = after_message(configuration, runtime, db, message, now, here);
            &&& match origin {
                ChangeOrigin::Peer { public_key } if runtime.commands(public_key@) is Some => {
                    &&& actions.len() == 2
                    &&& actions[0] == (ActionView::Instruct {
                        public_key: public_key@,
                        file_id,
                        content_hash,
                        placement: place_of(change)->0,
                    })
                },
                _ => actions.len() == 1,
            }
            &&& publishes(actions, change@)
            &&& after.files == (match change {
                Change::FileMetadataAdded { logical_path, .. } if !db.files.contains_key(file_id) =>
                    db.files.insert(file_id, logical_path@),
                _ => db.files,
            })
            &&& after.versions == db.versions
            &&& after.tags == db.tags
            &&& after.entries == db.entries
        }),
{
}

/// A live announcement of content that is on record as the latest is passed on to the other
/// peers as it is, and nothing is pulled, placed or recorded.
pub proof fn law_known_content_is_passed_on(
    configuration: Configuration,
    runtime: RuntimeConfiguration,
    db: DatabaseView,
    change: Change,
    origin: ChangeOrigin,
    now: i64,
    here: ChangeOrigin,
    file_id: FileId,
    content_hash: Seq<char>,
)
    requires
        announces(change, file_id, content_hash),
        is_latest(db, file_id, content_hash),
        change is FileMetadataAdded ==> db.files.contains_key(file_id),
    ensures
        ({
            let message = DaemonMessage::Change(Ingest::Meta(change), origin);
            let (after, actions) = after_message(configuration, runtime, db, message, now, here);
            &&& after == db
            &&& tells_the_others(configuration, runtime, origin, actions, change@)
            &&& asks_for_nothing(actions)
            &&& commands_nothing(actions)
            &&& change is FileMetadataChanged ==> publishes(actions, change@)
            &&& change is FileMetadataAdded ==> publishes_nothing(actions)
        }),
{
    let sent = forwarded(configuration, runtime, change@, origin);
    lemma_announced(configuration, runtime, origin, change@);
    lemma_only_sendings(configuration, runtime, origin, change@);
    lemma_told(configuration, runtime, origin, Seq::empty(), change@, Seq::empty());
    let none = Seq::<ActionView>::empty();
    assert(none + sent + none =~= sent);
    assert(none + sent + published(true, change@) =~= sent + published(true, change@));
    assert(none + sent + published(false, change@) =~= sent);
}

/// A move gives a known file its new logical path and has every directory for files with
/// the tags that stand on it follow, but the one where the move was made: universal ones
/// keep it under its identifier. Every other peer is told, and so is the user interface.
pub proof fn law_a_move_is_followed(
    configuration: Configuration,
    runtime: RuntimeConfiguration,
    db: DatabaseView,
    file_id: FileId,
    logical_path: LogicalPath,
    origin: ChangeOrigin,
    now: i64,
    here: ChangeOrigin,
    tags: Seq<TagId>,
)
    requires
        own_tags(db, file_id, tags),
    ensures
        ({
            let change = Change::FileMoved { file_id, logical_path };
            let message = DaemonMessage::Change(Ingest::Meta(change), origin);
            let (after, actions) = after_message(configuration, runtime, db, message, now, here);
            &&& commands_exactly(
                configuration,
                actions,
                |d: SyncDirectory| asks_for(d, tags) && !is_home(origin, d),
                |d: SyncDirectory|
                    CommandView::MoveFile {
                        file_id,
                        physical_path: if d.sync_type is Universal {
                            id_text(file_id.value)
                        } else {
                            logical_path@
                        },
                        sync_directory_path: d.path@,
                    },
            )
            &&& tells_the_others(
                configuration,
                runtime,
                origin,
                actions,
                ChangeView::Other(change),
            )
            &&& publishes(actions, ChangeView::Other(change))
            &&& asks_for_nothing(actions)
            &&& after.files == (if db.files.contains_key(file_id) {
                db.files.insert(file_id, logical_path@)
            } else {
                db.files
            })
            &&& after.versions == db.versions
            &&& after.tags == db.tags
            &&& after.entries == db.entries
        }),
{
    let change = Change::FileMoved { file_id, logical_path };
    lemma_own_tags(db, file_id, tags);
    let directories = all_concerned(configuration, Skip::Origin, origin, tags);
    let what = |d: SyncDirectory|
        CommandView::MoveFile {
            file_id,
            physical_path: if d.sync_type is Universal {
                id_text(file_id.value)
            } else {
                logical_path@
            },
            sync_directory_path: d.path@,
        };
    let views = move_commands(directories, file_id, logical_path@);
    assert(views =~= directories.map_values(what));
    lemma_directed(
        configuration,
        runtime,
        Skip::Origin,
        origin,
        tags,
        |d: SyncDirectory| asks_for(d, tags) && !is_home(origin, d),
        what,
        views,
        ChangeView::Other(change),
    );
}

/// Commands to the directories that are concerned, then what is sent on and published.
proof fn lemma_directed(
    configuration: Configuration,
    runtime: RuntimeConfiguration,
    skip: Skip,
    origin: ChangeOrigin,
    tags: Seq<TagId>,
    chosen: spec_fn(SyncDirectory) -> bool,
    what: spec_fn(SyncDirectory) -> CommandView,
    views: Seq<CommandView>,
    wire: ChangeView,
)
    requires
        forall|d: SyncDirectory| #[trigger]
            chosen(d) == (asks_for(d, tags) && !super::skips(skip, origin, d)),
        views == all_concerned(configuration, skip, origin, tags).map_values(what),
    ensures
        ({
            let actions = commanded(views) + forwarded(configuration, runtime, wire, origin)
                + published(true, wire);
            &&& commands_exactly(configuration, actions, chosen, what)
            &&& tells_the_others(configuration, runtime, origin, actions, wire)
            &&& publishes(actions, wire)
            &&& asks_for_nothing(actions)
        }),
{
    let first = commanded(views);
    let sent = forwarded(configuration, runtime, wire, origin);
    let last = published(true, wire);
    let actions = first + sent + last;
    lemma_only_sendings(configuration, runtime, origin, wire);
    assert forall|d: SyncDirectory| #[trigger] chosen(d) == concerns(skip, origin, tags, d) by {
        lemma_asks_for(d, tags);
    }
    let at = lemma_commands(configuration, skip, origin, tags, chosen, what, views, sent + last);
    assert(actions =~= first + (sent + last));
    lemma_told(configuration, runtime, origin, first, wire, last);
    assert forall|k: int| 0 <= k < actions.len() implies (#[trigger] actions[k] is Command
        || actions[k] is Send || (k == first.len() + sent.len() && actions[k] == last[0])) by {
        if k < first.len() {
            assert(actions[k] == first[k]);
        } else if k < first.len() + sent.len() {
            assert(actions[k] == sent[k - first.len()]);
        }
    }
}

/// A deletion that is not older than the latest version removes the file from the catalog
/// and from every directory for files with the tags that stood on it, but for the one where
/// it was deleted and for the universal ones that keep deleted files. Its versions and
/// relationships stay. Every other peer is told, and so is the user interface.
pub proof fn law_a_deletion_is_followed(
    configuration: Configuration,
    runtime: RuntimeConfiguration,
    db: DatabaseView,
    file_id: FileId,
    deleted_at: i64,
    origin: ChangeOrigin,
    now: i64,
    here: ChangeOrigin,
    tags: Seq<TagId>,
)
    requires
        own_tags(db, file_id, tags),
        db.history(file_id).len() > 0 ==> deleted_at >= db.history(file_id).last().observed_at,
    ensures
        ({
            let change = Change::FileDeleted { file_id, deleted_at };
            let message = DaemonMessage::Change(Ingest::Meta(change), origin);
            let (after, actions) = after_message(configuration, runtime, db, message, now, here);
            &&& commands_exactly(
                configuration,
                actions,
                |d: SyncDirectory|
                    asks_for(d, tags) && !is_home(origin, d) && d.sync_type != (
                    SyncType::Universal { keep_deleted_files: true }),
                |d: SyncDirectory|
                    CommandView::RemoveFile { file_id, sync_directory_path: d.path@ },
            )
            &&& tells_the_others(
                configuration,
                runtime,
                origin,
                actions,
                ChangeView::Other(change),
            )
            &&& publishes(actions, ChangeView::Other(change))
            &&& asks_for_nothing(actions)
            &&& after.files == db.files.remove(file_id)
            &&& after.versions == db.versions
            &&& after.tags == db.tags
            &&& after.entries == db.entries
        }),
{
    let change = Change::FileDeleted { file_id, deleted_at };
    lemma_own_tags(db, file_id, tags);
    let directories = all_concerned(configuration, Skip::OriginAndVaults, origin, tags);
    let what = |d: SyncDirectory|
        CommandView::RemoveFile { file_id, sync_directory_path: d.path@ };
    let views = remove_commands(directories, file_id);
    assert(views =~= directories.map_values(what));
    lemma_directed(
        configuration,
        runtime,
        Skip::OriginAndVaults,
        origin,
        tags,
        |d: SyncDirectory|
            asks_for(d, tags) && !is_home(origin, d) && d.sync_type != (SyncType::Universal {
                keep_deleted_files: true,
            }),
        what,
        views,
        ChangeView::Other(change),
    );
}

/// A deletion that is older than the latest version of the file, or than the definition of
/// the tag, leaves everything as it is; the other peers are told of it all the same.
pub proof fn law_an_old_deletion_removes_nothing(
    configuration: Configuration,
    runtime: RuntimeConfiguration,
    db: DatabaseView,
    change: Change,
    origin: ChangeOrigin,
    now: i64,
    here: ChangeOrigin,
)
    requires
        match change {
            Change::FileDeleted { file_id, deleted_at } => db.history(file_id).len() > 0
                && deleted_at < db.history(file_id).last().observed_at,
            Change::TagRemoved { tag_id, modified_at } => db.tags.contains_key(tag_id)
                && modified_at < db.tags[tag_id].modified_at,
            _ => false,
        },
    ensures
        ({
            let message = DaemonMessage::Change(Ingest::Meta(change), origin);
            let (after, actions) = after_message(configuration, runtime, db, message, now, here);
            &&& after == db
            &&& tells_the_others(configuration, runtime, origin, actions, change@)
            &&& publishes_nothing(actions)
            &&& asks_for_nothing(actions)
            &&& commands_nothing(actions)
        }),
{
    let sent = forwarded(configuration, runtime, change@, origin);
    let none = Seq::<ActionView>::empty();
    lemma_only_sendings(configuration, runtime, origin, change@);
    lemma_told(configuration, runtime, origin, none, change@, none);
    assert(none + sent + none =~= sent);
    assert(none + sent + published(false, change@) =~= sent);
}

/// Whether a change is one about a tag itself or about how tags stand to each other.
pub open spec fn is_about_tags(change: Change) -> bool {
    match change {
        Change::TagAdded { .. } => true,
        Change::TagRenamed { .. } => true,
        Change::TagRecolored { .. } => true,
        Change::TagRemoved { .. } => true,
        Change::TagTagged { .. } => true,
        Change::TagUntagged { .. } => true,
        _ => false,
    }
}

/// A change about tags reaches every other peer and the user interface as it came, and asks
/// nothing of the sync directories.
pub proof fn law_a_change_about_tags_is_passed_on(
    configuration: Configuration,
    runtime: RuntimeConfiguration,
    db: DatabaseView,
    change: Change,
    origin: ChangeOrigin,
    now: i64,
    here: ChangeOrigin,
)
    requires
        is_about_tags(change),
        change matches Change::TagRemoved { tag_id, modified_at } ==> !(db.tags.contains_key(tag_id)
            && modified_at < db.tags[tag_id].modified_at),
    ensures
        ({
            let message = DaemonMessage::Change(Ingest::Meta(change), origin);
            let (after, actions) = after_message(configuration, runtime, db, message, now, here);
            &&& tells_the_others(configuration, runtime, origin, actions, change@)
            &&& publishes(actions, change@)
            &&& asks_for_nothing(actions)
            &&& commands_nothing(actions)
            &&& after.files == db.files
            &&& after.versions == db.versions
        }),
{
    let sent = forwarded(configuration, runtime, change@, origin);
    let none = Seq::<ActionView>::empty();
    lemma_announced(configuration, runtime, origin, change@);
    assert(none + sent + published(true, change@) =~= sent + published(true, change@));
}

/// Changes of metadata are not stored: they are published and go no further.
pub proof fn law_metadata_goes_no_further(
    configuration: Configuration,
    runtime: RuntimeConfiguration,
    db: DatabaseView,
    change: Change,
    origin: ChangeOrigin,
    now: i64,
    here: ChangeOrigin,
)
    requires
        change is TagChanged || change is FileTagChanged || change is TagTagChanged,
    ensures
        ({
            let message = DaemonMessage::Change(Ingest::Meta(change), origin);
            let (after, actions) = after_message(configuration, runtime, db, message, now, here);
            after == db && actions.len() == 1 && actions[0] == ActionView::Publish(change@)
        }),
{
}

/// The last writer decides how a tag is called and coloured: a definition, a new name or a
/// new colour is taken over just where it is newer than what is known, and changes nothing
/// but what it speaks of. One without a name or a colour, or for an unknown tag where it is
/// no full definition, is not.
pub proof fn law_the_last_writer_defines_a_tag(
    configuration: Configuration,
    runtime: RuntimeConfiguration,
    db: DatabaseView,
    change: Change,
    origin: ChangeOrigin,
    now: i64,
    here: ChangeOrigin,
    tag_id: TagId,
)
    requires
        match change {
            Change::TagAdded { tag_id: t, .. } => t == tag_id,
            Change::TagRenamed { tag_id: t, .. } => t == tag_id,
            Change::TagRecolored { tag_id: t, .. } => t == tag_id,
            _ => false,
        },
    ensures
        ({
            let message = DaemonMessage::Change(Ingest::Meta(change), origin);
            let after = after_message(configuration, runtime, db, message, now, here).0;
            let known = db.tags.contains_key(tag_id);
            let old = db.tags[tag_id];
            &&& after.entries == db.entries
            &&& forall|t: TagId|
                t != tag_id ==> (#[trigger] after.tags.contains_key(t) <==> db.tags.contains_key(t))
            &&& forall|t: TagId|
                t != tag_id && db.tags.contains_key(t) ==> #[trigger] after.tags[t] == db.tags[t]
            &&& match change {
                Change::TagAdded { tag_name, color, modified_at, .. } => if tag_name@.len() > 0
                    && color@.len() > 0 && (!known || modified_at > old.modified_at) {
                    after.tags.contains_key(tag_id) && after.tags[tag_id] == (TagView {
                        name: tag_name@,
                        color: color@,
                        modified_at,
                    })
                } else {
                    after.tags == db.tags
                },
                Change::TagRenamed { tag_name, modified_at, .. } => if tag_name@.len() > 0 && known
                    && modified_at > old.modified_at {
                    after.tags.contains_key(tag_id) && after.tags[tag_id] == (TagView {
                        name: tag_name@,
                        color: old.color,
                        modified_at,
                    })
                } else {
                    after.tags == db.tags
                },
                Change::TagRecolored { color, modified_at, .. } => if color@.len() > 0 && known
                    && modified_at > old.modified_at {
                    after.tags.contains_key(tag_id) && after.tags[tag_id] == (TagView {
                        name: old.name,
                        color: color@,
                        modified_at,
                    })
                } else {
                    after.tags == db.tags
                },
                _ => true,
            }
        }),
{
}

/// The removal of a tag that is not older than its definition takes the tag and every
/// relationship that it has part in away, and nothing else.
pub proof fn law_a_removed_tag_is_gone(
    configuration: Configuration,
    runtime: RuntimeConfiguration,
    db: DatabaseView,
    tag_id: TagId,
    modified_at: i64,
    origin: ChangeOrigin,
    now: i64,
    here: ChangeOrigin,
)
    requires
        db.tags.contains_key(tag_id) ==> modified_at >= db.tags[tag_id].modified_at,
    ensures
        ({
            let message = DaemonMessage::Change(
                Ingest::Meta(Change::TagRemoved { tag_id, modified_at }),
                origin,
            );
            let after = after_message(configuration, runtime, db, message, now, here).0;
            &&& after.tags == db.tags.remove(tag_id)
            &&& forall|k: EntryKey| #[trigger]
                after.entries.contains_key(k) <==> db.entries.contains_key(k) && k.tag_id != tag_id
                    && !(k.kind == EntryType::Tag && k.target == tag_id.value)
            &&& forall|k: EntryKey|
                after.entries.contains_key(k) ==> #[trigger] after.entries[k] == db.entries[k]
        }),
{
}

/// The relationship that a change speaks of, and the state that it asks for.
pub open spec fn relationship_of(change: Change) -> Option<(EntryKey, EntryState)> {
    match change {
        Change::FileTagged { file_id, tag_id, modified_at, .. } => Some(
            (
                EntryKey { tag_id, target: file_id.value, kind: EntryType::File },
                EntryState { modified_at, deleted: false },
            ),
        ),
        Change::FileUntagged { file_id, tag_id, modified_at } => Some(
            (
                EntryKey { tag_id, target: file_id.value, kind: EntryType::File },
                EntryState { modified_at, deleted: true },
            ),
        ),
        Change::TagTagged { taggee_id, tag_id, modified_at, .. } => Some(
            (
                EntryKey { tag_id, target: taggee_id.value, kind: EntryType::Tag },
                EntryState { modified_at, deleted: false },
            ),
        ),
        Change::TagUntagged { taggee_id, tag_id, modified_at } => Some(
            (
                EntryKey { tag_id, target: taggee_id.value, kind: EntryType::Tag },
                EntryState { modified_at, deleted: true },
            ),
        ),
        _ => None,
    }
}

/// The last writer decides on a relationship: the state that a tagging or an untagging asks
/// for is taken over where it is newer than the known one. Of an unknown relationship only a
/// tagging is, and a tag is never put on itself. No other relationship changes.
pub proof fn law_the_last_writer_decides_on_a_relationship(
    configuration: Configuration,
    runtime: RuntimeConfiguration,
    db: DatabaseView,
    change: Change,
    origin: ChangeOrigin,
    now: i64,
    here: ChangeOrigin,
)
    requires
        relationship_of(change) is Some,
    ensures
        ({
            let message = DaemonMessage::Change(Ingest::Meta(change), origin);
            let after = after_message(configuration, runtime, db, message, now, here).0;
            let (key, state) = relationship_of(change)->0;
            let newer = if db.entries.contains_key(key) {
                state.modified_at > db.entries[key].modified_at
            } else {
                !state.deleted
            };
            let on_itself = key.kind == EntryType::Tag && key.target == key.tag_id.value
                && !state.deleted;
            &&& after.files == db.files
            &&& after.tags == db.tags
            &&& after.versions == db.versions
            &&& after.entries == (if newer && !on_itself {
                db.entries.insert(key, state)
            } else {
                db.entries
            })
        }),
{
}

/// Tagging or untagging a file has its placement looked at anew, by the tags that stand on
/// it then; every other peer is told, and so is the user interface.
pub proof fn law_tagging_places_a_file_anew(
    configuration: Configuration,
    runtime: RuntimeConfiguration,
    db: DatabaseView,
    change: Change,
    origin: ChangeOrigin,
    now: i64,
    here: ChangeOrigin,
    file_id: FileId,
    tags: Seq<TagId>,
)
    requires
        match change {
            Change::FileTagged { file_id: f, .. } => f == file_id,
            Change::FileUntagged { file_id: f, .. } => f == file_id,
            _ => false,
        },
        ({
            let message = DaemonMessage::Change(Ingest::Meta(change), origin);
            own_tags(
                after_message(configuration, runtime, db, message, now, here).0,
                file_id,
                tags,
            )
        }),
    ensures
        ({
            let message = DaemonMessage::Change(Ingest::Meta(change), origin);
            let (after, actions) = after_message(configuration, runtime, db, message, now, here);
            &&& if db.files.contains_key(file_id) {
                &&& actions.len() > 0
                &&& actions[0] == ActionView::Command(
                    CommandView::ReconcileTagPlacement {
                        file_id,
                        logical_path: db.files[file_id],
                        file_tags: tags,
                    },
                )
                &&& forall|k: int| 0 < k < actions.len() ==> !(#[trigger] actions[k] is Command)
            } else {
                commands_nothing(actions)
            }
            &&& tells_the_others(configuration, runtime, origin, actions, change@)
            &&& publishes(actions, change@)
            &&& asks_for_nothing(actions)
        }),
{
    let message = DaemonMessage::Change(Ingest::Meta(change), origin);
    let after = after_message(configuration, runtime, db, message, now, here).0;
    lemma_own_tags(after, file_id, tags);
    let first = placed_anew(after, file_id);
    let sent = forwarded(configuration, runtime, change@, origin);
    let last = published(true, change@);
    lemma_only_sendings(configuration, runtime, origin, change@);
    lemma_told(configuration, runtime, origin, first, change@, last);
    let actions = first + sent + last;
    assert(after_message(configuration, runtime, db, message, now, here).1 == actions);
    assert forall|k: int| 0 <= k < actions.len() implies (k < first.len()
        || #[trigger] actions[k] is Send || (k == first.len() + sent.len() && actions[k]
        == last[0])) by {
        if first.len() <= k < first.len() + sent.len() {
            assert(actions[k] == sent[k - first.len()]);
        }
    }
}

/// A request for a file's bytes has the sync directories searched for that file, for the one
/// who asks, and does nothing else.
pub proof fn law_a_fetch_looks_here_first(
    configuration: Configuration,
    runtime: RuntimeConfiguration,
    db: DatabaseView,
    file_id: FileId,
    expected_hash: String,
    respond_to: u64,
    now: i64,
    here: ChangeOrigin,
)
    ensures
        ({
            let message = DaemonMessage::Fetch { file_id, expected_hash, respond_to };
            let (after, actions) = after_message(configuration, runtime, db, message, now, here);
            &&& after == db
            &&& actions.len() == 1
            &&& actions[0] == (ActionView::ReadLocal {
                file_id,
                expected_hash: expected_hash@,
                respond_to,
            })
        }),
{
}

/// A look at where a known file belongs has its placement looked at by the tags that stand
/// on it, and then, where some directory is one for files with those tags, its latest
/// version sought. It changes nothing on record and tells nobody. One at an unknown file
/// does nothing.
pub proof fn law_a_look_at_a_file(
    configuration: Configuration,
    runtime: RuntimeConfiguration,
    db: DatabaseView,
    file_id: FileId,
    now: i64,
    here: ChangeOrigin,
    tags: Seq<TagId>,
)
    requires
        own_tags(db, file_id, tags),
    ensures
        ({
            let message = DaemonMessage::ReconcilePlacement { file_id };
            let (after, actions) = after_message(configuration, runtime, db, message, now, here);
            let wanted = exists|i: int|
                0 <= i < configuration.sync_directories@.len() && asks_for(
                    #[trigger] configuration.sync_directories@[i],
                    tags,
                );
            let seeks = wanted && db.history(file_id).len() > 0;
            &&& after == db
            &&& if db.files.contains_key(file_id) {
                &&& actions.len() == (if seeks {
                    2int
                } else {
                    1int
                })
                &&& actions[0] == ActionView::Command(
                    CommandView::ReconcileTagPlacement {
                        file_id,
                        logical_path: db.files[file_id],
                        file_tags: tags,
                    },
                )
                &&& seeks ==> actions[1] == (ActionView::Seek {
                    file_id,
                    expected_hash: db.history(file_id).last().content_hash,
                    logical_path: db.files[file_id],
                    tags,
                })
            } else {
                actions.len() == 0
            }
        }),
{
    lemma_own_tags(db, file_id, tags);
    let directories = configuration.sync_directories@;
    assert forall|i: int| 0 <= i < directories.len() implies asks_for(
        #[trigger] directories[i],
        tags,
    ) == wants(directories[i].sync_type@, tags) by {
        lemma_asks_for(directories[i], tags);
    }
}

/// A fetch is answered from here just where the sync directories hold the wanted content, and
/// with that; else the peers are asked. So it is with a search.
pub proof fn law_the_peers_are_asked_for_what_is_not_here(
    expected_hash: Seq<char>,
    found: Option<(FileBytes, String)>,
    step: FetchStep,
    held: Option<Seq<char>>,
)
    requires
        fetch_decided(expected_hash, found, step),
    ensures
        match step {
            FetchStep::Answer(content) => found is Some && (found->0).0 == content && (
            found->0).1@ == expected_hash,
            FetchStep::AskPeers => found is Some ==> (found->0).1@ != expected_hash,
        },
        is_missing(held, expected_hash) <==> held is None || held->0 != expected_hash,
{
}

/// The bytes that a search brought are placed where they are still those of the latest
/// version, as new content of the file where another is held, and else as a file under its
/// path and tags. They come from no directory. Bytes of an old version lead to nothing.
pub proof fn law_found_bytes_are_placed(
    db: DatabaseView,
    file_id: FileId,
    expected_hash: String,
    logical_path: LogicalPath,
    tags: Vec<TagId>,
    held: bool,
    content: FileBytes,
    message: Option<DaemonMessage>,
)
    requires
        search_ended(
            db,
            file_id,
            expected_hash,
            logical_path,
            tags,
            held,
            content,
            message,
        ),
    ensures
        message is Some <==> is_latest(db, file_id, expected_hash@),
        message is Some ==> (message matches Some(
            DaemonMessage::Materialize {
                file_id: f,
                content: c,
                content_hash,
                origin: ChangeOrigin::Local { directory_path },
                placement,
            },
        ) && f == file_id && c == content && content_hash@ == expected_hash@
            && directory_path@.len() == 0 && match placement {
            MaterializePlacement::Change => held,
            MaterializePlacement::Create { logical_path: path, tags: carried } => !held && path@
                == logical_path@ && carried@ == tags@,
        }),
{
}

/// A file whose history is full gets no further version, whatever arrives, and its history
/// stays as it is. What a peer's manifest or a client announces of it is then no news for the
/// user interface, unless the file itself is new.
pub proof fn law_a_full_history_stays(
    configuration: Configuration,
    runtime: RuntimeConfiguration,
    db: DatabaseView,
    message: DaemonMessage,
    now: i64,
    here: ChangeOrigin,
    file_id: FileId,
)
    requires
        db.history(file_id).len() >= MAX_VERSIONS,
    ensures
        ({
            let (after, actions) = after_message(configuration, runtime, db, message, now, here);
            &&& after.history(file_id) == db.history(file_id)
            &&& message matches DaemonMessage::CatalogFile { file_id: f, .. } ==> f == file_id ==> (
            publishes_nothing(actions) <==> db.files.contains_key(file_id))
        }),
{
    match message {
        DaemonMessage::CatalogFile { file_id: f, logical_path, content_hash, origin } => {
            if f == file_id {
                let wire = if db.files.contains_key(file_id) {
                    ChangeView::Other(Change::FileMetadataChanged { file_id, content_hash })
                } else {
                    ChangeView::FileMetadataAdded {
                        file_id,
                        logical_path,
                        content_hash,
                        tags: Seq::empty(),
                    }
                };
                lemma_announced(configuration, runtime, origin, wire);
                lemma_only_sendings(configuration, runtime, origin, wire);
                let actions = after_message(configuration, runtime, db, message, now, here).1;
                let sent = forwarded(configuration, runtime, wire, origin);
                if db.files.contains_key(file_id) {
                    assert(actions =~= sent);
                } else {
                    assert(actions == sent + published(true, wire));
                    assert(actions[actions.len() - 1] is Publish);
                }
            }
        },
        _ => {},
    }
}

} // verus!
