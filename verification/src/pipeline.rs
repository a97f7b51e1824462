//! The change pipeline: the one writer of the main database.
//!
//! A message becomes a new state of the database and a list of actions that the
//! daemon carries out in order.

use vstd::prelude::*;

pub mod laws;

use crate::bus::{
    ContentChange, DaemonMessage, Ingest, MaterializePlacement, PeerCommand, PlacementView,
};
use crate::configuration::{
    placement, wants, Configuration, Peer, RuntimeConfiguration, SyncDirectory, SyncType,
    SyncTypeView,
};
use crate::database::hierarchy::{file_carries, lists_tags};
use crate::database::{
    file_key, subtag_key, DatabaseView, EntryState, FileDatabase, SubtagRule, TagView,
};
use crate::directory_manager::{CommandView, SyncDirectoryCommand};
use crate::file_bytes::{BytesView, FileBytes};
use crate::ids::{FileId, TagId};
use crate::state::{copy_tags, Change, ChangeOrigin, ChangeView, LogicalPath, PhysicalPath};
use crate::text::{optional_text, same_text};
use crate::versions::MAX_VERSIONS;

verus! {

/// What the daemon does in answer to a message.
#[derive(Debug)]
pub enum Action {
    /// Hand a command to the manager of the sync directories.
    Command(SyncDirectoryCommand),
    /// Send a change to a peer.
    Send { public_key: String, change: Change },
    /// Hand a command to the session of a peer.
    Instruct { public_key: String, command: PeerCommand },
    /// Remove the source of a content that was to be moved and got copied.
    RemoveSource { path: String },
    /// Tell the subscribers of the user interface.
    Publish(Change),
    /// Look for a file in the sync directories, for [`answer_fetch`].
    ReadLocal { file_id: FileId, expected_hash: String, respond_to: u64 },
    /// Ask which content of a file the sync directories hold, for [`answer_seek`].
    Seek { file_id: FileId, expected_hash: String, logical_path: LogicalPath, tags: Vec<TagId> },
}

/// The mathematical value of an [`Action`].
#[verifier::ext_equal]
pub enum ActionView {
    Command(CommandView),
    Send { public_key: Seq<char>, change: ChangeView },
    Instruct {
        public_key: Seq<char>,
        file_id: FileId,
        content_hash: Seq<char>,
        placement: PlacementView,
    },
    RemoveSource { path: Seq<char> },
    Publish(ChangeView),
    ReadLocal { file_id: FileId, expected_hash: Seq<char>, respond_to: u64 },
    Seek {
        file_id: FileId,
        expected_hash: Seq<char>,
        logical_path: Seq<char>,
        tags: Seq<TagId>,
    },
}

impl View for Action {
    type V = ActionView;

    open spec fn view(&self) -> ActionView {
        match *self {
            Action::Command(command) => ActionView::Command(command@),
            Action::Send { public_key, change } => ActionView::Send {
                public_key: public_key@,
                change: change@,
            },
            Action::Instruct {
                public_key,
                command: PeerCommand::StartReceive { file_id, content_hash, placement },
            } => ActionView::Instruct {
                public_key: public_key@,
                file_id,
                content_hash: content_hash@,
                placement: placement@,
            },
            Action::RemoveSource { path } => ActionView::RemoveSource { path: path@ },
            Action::Publish(change) => ActionView::Publish(change@),
            Action::ReadLocal { file_id, expected_hash, respond_to } => ActionView::ReadLocal {
                file_id,
                expected_hash: expected_hash@,
                respond_to,
            },
            Action::Seek { file_id, expected_hash, logical_path, tags } => ActionView::Seek {
                file_id,
                expected_hash: expected_hash@,
                logical_path: logical_path@,
                tags: tags@,
            },
        }
    }
}

/// The mathematical value of a list of actions.
pub open spec fn action_views(actions: Seq<Action>) -> Seq<ActionView> {
    actions.map_values(|a: Action| a@)
}

/// A directory that is to receive bytes, and how it is told to place them.
#[derive(Debug)]
pub enum ContentTarget {
    Create { file_id: FileId, physical_path: PhysicalPath, sync_directory_path: String },
    Change { file_id: FileId, sync_directory_path: String },
}

/// The command that a target becomes with a content.
pub open spec fn command_of(target: ContentTarget, content: BytesView) -> CommandView {
    match target {
        ContentTarget::Create { file_id, physical_path, sync_directory_path } =>
            CommandView::CreateFile {
                file_id,
                physical_path: physical_path@,
                content,
                sync_directory_path: sync_directory_path@,
            },
        ContentTarget::Change { file_id, sync_directory_path } => CommandView::ChangeFile {
            file_id,
            content,
            sync_directory_path: sync_directory_path@,
        },
    }
}

impl ContentTarget {
    /// The command to place `content` at the target.
    pub fn into_command(self, content: FileBytes) -> (r: SyncDirectoryCommand)
        ensures
            r@ == command_of(self, content@),
    {
        match self {
            ContentTarget::Create { file_id, physical_path, sync_directory_path } =>
                SyncDirectoryCommand::CreateFile {
                    file_id,
                    physical_path,
                    content,
                    sync_directory_path,
                },
            ContentTarget::Change { file_id, sync_directory_path } =>
                SyncDirectoryCommand::ChangeFile { file_id, content, sync_directory_path },
        }
    }
}

/// Which directories a change passes by.
#[derive(Debug, Clone, Copy, PartialEq, Eq, Structural)]
pub enum Skip {
    /// None.
    Nothing,
    /// The directory it came from, where that is laid out by tags.
    TagBasedOrigin,
    /// The directory it came from.
    Origin,
    /// The directory it came from, and those that keep deleted files.
    OriginAndVaults,
}

/// Whether a change came from a directory.
pub open spec fn came_from(origin: ChangeOrigin, directory: SyncDirectory) -> bool {
    origin matches ChangeOrigin::Local { directory_path } && directory_path@ == directory.path@
}

/// Whether a change passes a directory by.
pub open spec fn skips(skip: Skip, origin: ChangeOrigin, directory: SyncDirectory) -> bool {
    match skip {
        Skip::Nothing => false,
        Skip::TagBasedOrigin => came_from(origin, directory) && directory.sync_type is TagBased,
        Skip::Origin => came_from(origin, directory),
        Skip::OriginAndVaults => came_from(origin, directory) || directory.sync_type@ == (
        SyncTypeView::Universal { keep_deleted_files: true }),
    }
}

/// Whether a change to a file with `tags` concerns a directory.
pub open spec fn concerns(
    skip: Skip,
    origin: ChangeOrigin,
    tags: Seq<TagId>,
    directory: SyncDirectory,
) -> bool {
    !skips(skip, origin, directory) && wants(directory.sync_type@, tags)
}

/// The first `n` directories that a change concerns, in order.
pub open spec fn concerned(
    directories: Seq<SyncDirectory>,
    skip: Skip,
    origin: ChangeOrigin,
    tags: Seq<TagId>,
    n: int,
) -> Seq<SyncDirectory>
    decreases n,
{
    if n <= 0 {
        Seq::empty()
    } else {
        let before = concerned(directories, skip, origin, tags, n - 1);
        if concerns(skip, origin, tags, directories[n - 1]) {
            before.push(directories[n - 1])
        } else {
            before
        }
    }
}

/// All directories that a change concerns, in order.
pub open spec fn all_concerned(
    configuration: Configuration,
    skip: Skip,
    origin: ChangeOrigin,
    tags: Seq<TagId>,
) -> Seq<SyncDirectory> {
    concerned(
        configuration.sync_directories@,
        skip,
        origin,
        tags,
        configuration.sync_directories@.len() as int,
    )
}

/// The directories at some positions.
pub open spec fn picked(configuration: Configuration, positions: Seq<usize>) -> Seq<SyncDirectory> {
    positions.map_values(|i: usize| configuration.sync_directories@[i as int])
}

/// What each directory is told of a new file.
pub open spec fn create_commands(
    directories: Seq<SyncDirectory>,
    file_id: FileId,
    logical_path: Seq<char>,
    content: BytesView,
) -> Seq<CommandView> {
    directories.map_values(
        |d: SyncDirectory|
            CommandView::CreateFile {
                file_id,
                physical_path: placement(d.sync_type@, logical_path, file_id),
                content,
                sync_directory_path: d.path@,
            },
    )
}

/// What each directory is told of new bytes.
pub open spec fn change_commands(
    directories: Seq<SyncDirectory>,
    file_id: FileId,
    content: BytesView,
) -> Seq<CommandView> {
    directories.map_values(
        |d: SyncDirectory|
            CommandView::ChangeFile { file_id, content, sync_directory_path: d.path@ },
    )
}

/// What each directory is told of a move.
pub open spec fn move_commands(
    directories: Seq<SyncDirectory>,
    file_id: FileId,
    logical_path: Seq<char>,
) -> Seq<CommandView> {
    directories.map_values(
        |d: SyncDirectory|
            CommandView::MoveFile {
                file_id,
                physical_path: placement(d.sync_type@, logical_path, file_id),
                sync_directory_path: d.path@,
            },
    )
}

/// What each directory is told of a deletion.
pub open spec fn remove_commands(directories: Seq<SyncDirectory>, file_id: FileId) -> Seq<
    CommandView,
> {
    directories.map_values(
        |d: SyncDirectory| CommandView::RemoveFile { file_id, sync_directory_path: d.path@ },
    )
}

/// Commands as actions.
pub open spec fn commanded(commands: Seq<CommandView>) -> Seq<ActionView> {
    commands.map_values(|c: CommandView| ActionView::Command(c))
}

/// How one content reaches several directories. A single directory gets it as it is.
/// Of several, each gets a copy, and a source that was to be moved is removed behind
/// them.
pub open spec fn shared_among(n: nat, content: BytesView) -> BytesView {
    if n == 1 {
        content
    } else {
        content.shared()
    }
}

/// The removal of a source that was to be moved, where several directories got it.
pub open spec fn source_removal(n: nat, content: BytesView) -> Seq<ActionView> {
    match content {
        BytesView::FileToMove(path) if n > 1 => seq![ActionView::RemoveSource { path }],
        _ => Seq::empty(),
    }
}

/// Whether a change is sent on to a peer: it is connected, and the change did not
/// come from it.
pub open spec fn receives(runtime: RuntimeConfiguration, origin: ChangeOrigin, peer: Peer) -> bool {
    &&& !(origin matches ChangeOrigin::Peer { public_key } && public_key@ == peer.public_key@)
    &&& runtime.outbound(peer.public_key@) is Some
}

/// A change sent on to those of the first `n` peers that receive it.
pub open spec fn forwarded_to(
    peers: Seq<Peer>,
    runtime: RuntimeConfiguration,
    change: ChangeView,
    origin: ChangeOrigin,
    n: int,
) -> Seq<ActionView>
    decreases n,
{
    if n <= 0 {
        Seq::empty()
    } else {
        let before = forwarded_to(peers, runtime, change, origin, n - 1);
        if receives(runtime, origin, peers[n - 1]) {
            before.push(ActionView::Send { public_key: peers[n - 1].public_key@, change })
        } else {
            before
        }
    }
}

/// A change sent on to all peers that receive it.
pub open spec fn forwarded(
    configuration: Configuration,
    runtime: RuntimeConfiguration,
    change: ChangeView,
    origin: ChangeOrigin,
) -> Seq<ActionView> {
    forwarded_to(
        configuration.peers@,
        runtime,
        change,
        origin,
        configuration.peers@.len() as int,
    )
}

/// How the origin of a version is recorded.
pub open spec fn origin_text(origin: ChangeOrigin) -> Seq<char> {
    match origin {
        ChangeOrigin::Local { .. } => "local"@,
        ChangeOrigin::Peer { public_key } => public_key@,
    }
}

/// Whether there is room for one more version of a file.
pub open spec fn has_room(db: DatabaseView, file_id: FileId) -> bool {
    db.history(file_id).len() < MAX_VERSIONS
}

/// The database after a version was recorded, where there is room for one.
pub open spec fn recorded(
    db: DatabaseView,
    file_id: FileId,
    content_hash: Seq<char>,
    now: i64,
    origin: ChangeOrigin,
) -> DatabaseView {
    if has_room(db, file_id) {
        db.with_version(file_id, content_hash, now, origin_text(origin))
    } else {
        db
    }
}

/// Whether a hash is that of the latest version of a file.
pub open spec fn is_current(db: DatabaseView, file_id: FileId, content_hash: Seq<char>) -> bool {
    db.history(file_id).len() > 0 && db.history(file_id).last().content_hash == content_hash
}

/// The tags on a file itself, in ascending order.
pub open spec fn tags_on(db: DatabaseView, file_id: FileId) -> Seq<TagId> {
    choose|list: Seq<TagId>| #[trigger] lists_tags(list, is_on(db, file_id))
}

/// Which tags stand on a file itself.
pub open spec fn is_on(db: DatabaseView, file_id: FileId) -> spec_fn(TagId) -> bool {
    |t: TagId| file_carries(db, SubtagRule::Exclude, file_id, t)
}

/// The database with a file added, unless it is known.
pub open spec fn with_file(db: DatabaseView, file_id: FileId, path: Seq<char>) -> DatabaseView {
    DatabaseView { files: db.files.insert(file_id, path), ..db }
}

/// A pull of a file from the peer that announced it, where its session is live.
pub open spec fn pulled(
    runtime: RuntimeConfiguration,
    origin: ChangeOrigin,
    file_id: FileId,
    content_hash: Seq<char>,
    placement: PlacementView,
) -> Seq<ActionView> {
    match origin {
        ChangeOrigin::Local { .. } => Seq::empty(),
        ChangeOrigin::Peer { public_key } => if runtime.commands(public_key@) is Some {
            seq![
                ActionView::Instruct {
                    public_key: public_key@,
                    file_id,
                    content_hash,
                    placement,
                },
            ]
        } else {
            Seq::empty()
        },
    }
}

/// A fresh look at where a known file belongs.
pub open spec fn placed_anew(db: DatabaseView, file_id: FileId) -> Seq<ActionView> {
    if db.files.contains_key(file_id) {
        seq![
            ActionView::Command(
                CommandView::ReconcileTagPlacement {
                    file_id,
                    logical_path: db.files[file_id],
                    file_tags: tags_on(db, file_id),
                },
            ),
        ]
    } else {
        Seq::empty()
    }
}

/// Whether some directory wants a file with `tags`.
pub open spec fn is_wanted(configuration: Configuration, tags: Seq<TagId>) -> bool {
    exists|i: int|
        0 <= i < configuration.sync_directories@.len() && wants(
            (#[trigger] configuration.sync_directories@[i]).sync_type@,
            tags,
        )
}

/// A search for the bytes of a known file that some directory wants: those of its latest
/// version.
pub open spec fn sought(configuration: Configuration, db: DatabaseView, file_id: FileId) -> Seq<
    ActionView,
> {
    if db.files.contains_key(file_id) && db.history(file_id).len() > 0 && is_wanted(
        configuration,
        tags_on(db, file_id),
    ) {
        seq![
            ActionView::Seek {
                file_id,
                expected_hash: db.history(file_id).last().content_hash,
                logical_path: db.files[file_id],
                tags: tags_on(db, file_id),
            },
        ]
    } else {
        Seq::empty()
    }
}

/// A change that was applied, told to the user interface.
pub open spec fn published(applied: bool, change: ChangeView) -> Seq<ActionView> {
    if applied {
        seq![ActionView::Publish(change)]
    } else {
        Seq::empty()
    }
}

/// The bytes of a new file handed to the directories that want it.
pub open spec fn created(
    configuration: Configuration,
    skip: Skip,
    origin: ChangeOrigin,
    file_id: FileId,
    logical_path: Seq<char>,
    tags: Seq<TagId>,
    content: BytesView,
) -> Seq<ActionView> {
    let directories = all_concerned(configuration, skip, origin, tags);
    commanded(
        create_commands(
            directories,
            file_id,
            logical_path,
            shared_among(directories.len(), content),
        ),
    ) + source_removal(directories.len(), content)
}

/// The new bytes of a known file handed to the directories that want it.
pub open spec fn changed(
    configuration: Configuration,
    skip: Skip,
    origin: ChangeOrigin,
    file_id: FileId,
    tags: Seq<TagId>,
    content: BytesView,
) -> Seq<ActionView> {
    let directories = all_concerned(configuration, skip, origin, tags);
    commanded(
        change_commands(directories, file_id, shared_among(directories.len(), content)),
    ) + source_removal(directories.len(), content)
}

/// What a change that brings its bytes along leads to.
pub open spec fn after_content(
    configuration: Configuration,
    runtime: RuntimeConfiguration,
    db: DatabaseView,
    change: ContentChange,
    origin: ChangeOrigin,
    now: i64,
) -> (DatabaseView, Seq<ActionView>) {
    match change {
        ContentChange::FileAdded { file_id, logical_path, content, content_hash, tags } =>
            if !db.files.contains_key(file_id) {
                let wire = ChangeView::FileMetadataAdded {
                    file_id,
                    logical_path,
                    content_hash,
                    tags: tags@,
                };
                (
                    recorded(
                        with_file(db, file_id, logical_path@),
                        file_id,
                        content_hash@,
                        now,
                        origin,
                    ),
                    created(
                        configuration,
                        Skip::TagBasedOrigin,
                        origin,
                        file_id,
                        logical_path@,
                        tags@,
                        content@,
                    ) + forwarded(configuration, runtime, wire, origin) + published(true, wire),
                )
            } else if is_current(db, file_id, content_hash@) {
                (db, Seq::empty())
            } else {
                after_new_bytes(
                    configuration,
                    runtime,
                    db,
                    file_id,
                    content@,
                    content_hash,
                    origin,
                    now,
                )
            },
        ContentChange::FileChanged { file_id, content, content_hash } => after_new_bytes(
            configuration,
            runtime,
            db,
            file_id,
            content@,
            content_hash,
            origin,
            now,
        ),
    }
}

/// What new bytes of a known file lead to.
pub open spec fn after_new_bytes(
    configuration: Configuration,
    runtime: RuntimeConfiguration,
    db: DatabaseView,
    file_id: FileId,
    content: BytesView,
    content_hash: String,
    origin: ChangeOrigin,
    now: i64,
) -> (DatabaseView, Seq<ActionView>) {
    let wire = ChangeView::Other(Change::FileMetadataChanged { file_id, content_hash });
    (
        recorded(db, file_id, content_hash@, now, origin),
        changed(configuration, Skip::Origin, origin, file_id, tags_on(db, file_id), content)
            + forwarded(configuration, runtime, wire, origin) + published(
            has_room(db, file_id),
            wire,
        ),
    )
}

/// The bytes that arrived over a transfer handed to the directories that want them.
pub open spec fn placed(
    configuration: Configuration,
    db: DatabaseView,
    file_id: FileId,
    content: BytesView,
    origin: ChangeOrigin,
    place: PlacementView,
) -> Seq<ActionView> {
    match place {
        PlacementView::Create { logical_path, tags } => created(
            configuration,
            Skip::Nothing,
            origin,
            file_id,
            logical_path@,
            tags,
            content,
        ),
        PlacementView::Change => changed(
            configuration,
            Skip::Nothing,
            origin,
            file_id,
            tags_on(db, file_id),
            content,
        ),
    }
}

/// How content that was placed is announced.
pub open spec fn announcement(
    file_id: FileId,
    content_hash: String,
    place: PlacementView,
) -> ChangeView {
    match place {
        PlacementView::Create { logical_path, tags } => ChangeView::FileMetadataAdded {
            file_id,
            logical_path,
            content_hash,
            tags,
        },
        PlacementView::Change => ChangeView::Other(
            Change::FileMetadataChanged { file_id, content_hash },
        ),
    }
}

/// What bytes that arrived over a transfer lead to. They are placed. Where their version
/// is on record as the latest, that is all; else it is recorded and announced now that the
/// bytes are here.
pub open spec fn after_materialize(
    configuration: Configuration,
    runtime: RuntimeConfiguration,
    db: DatabaseView,
    file_id: FileId,
    content: BytesView,
    content_hash: String,
    origin: ChangeOrigin,
    place: PlacementView,
    now: i64,
) -> (DatabaseView, Seq<ActionView>) {
    let placing = placed(configuration, db, file_id, content, origin, place);
    if is_current(db, file_id, content_hash@) {
        (db, placing)
    } else {
        let wire = announcement(file_id, content_hash, place);
        (
            recorded(db, file_id, content_hash@, now, origin),
            placing + forwarded(configuration, runtime, wire, origin) + published(
                has_room(db, file_id),
                wire,
            ),
        )
    }
}

/// How a file stands that a peer's manifest announced: new, without tags as yet, or known.
pub open spec fn catalogued_as(
    db: DatabaseView,
    file_id: FileId,
    logical_path: LogicalPath,
) -> PlacementView {
    if db.files.contains_key(file_id) {
        PlacementView::Change
    } else {
        PlacementView::Create { logical_path, tags: Seq::empty() }
    }
}

/// What a version that a peer's manifest announced leads to: the file, where it is new, and
/// the version go on record, and the announcement is passed on.
pub open spec fn after_catalog(
    configuration: Configuration,
    runtime: RuntimeConfiguration,
    db: DatabaseView,
    file_id: FileId,
    logical_path: LogicalPath,
    content_hash: String,
    origin: ChangeOrigin,
    now: i64,
) -> (DatabaseView, Seq<ActionView>) {
    let known = db.files.contains_key(file_id);
    let wire = announcement(file_id, content_hash, catalogued_as(db, file_id, logical_path));
    (
        recorded(
            if known {
                db
            } else {
                with_file(db, file_id, logical_path@)
            },
            file_id,
            content_hash@,
            now,
            origin,
        ),
        forwarded(configuration, runtime, wire, origin) + published(
            !known || has_room(db, file_id),
            wire,
        ),
    )
}

/// What a file that a client provides leads to.
pub open spec fn after_provided(
    configuration: Configuration,
    runtime: RuntimeConfiguration,
    db: DatabaseView,
    file_id: FileId,
    logical_path: Option<LogicalPath>,
    content_hash: String,
    tags: Seq<TagId>,
    origin: ChangeOrigin,
    now: i64,
) -> (DatabaseView, Seq<ActionView>) {
    match logical_path {
        Some(logical_path) => if db.files.contains_key(file_id) {
            (db, Seq::empty())
        } else {
            let wire = ChangeView::FileMetadataAdded { file_id, logical_path, content_hash, tags };
            (
                recorded(
                    with_file(db, file_id, logical_path@),
                    file_id,
                    content_hash@,
                    now,
                    origin,
                ),
                forwarded(configuration, runtime, wire, origin) + published(true, wire),
            )
        },
        None => {
            let wire = ChangeView::Other(Change::FileMetadataChanged { file_id, content_hash });
            (
                recorded(db, file_id, content_hash@, now, origin),
                forwarded(configuration, runtime, wire, origin) + published(
                    has_room(db, file_id),
                    wire,
                ),
            )
        },
    }
}

/// The database after a definition of a tag was announced: one without a name or a
/// color is refused.
pub open spec fn with_announced_tag(
    db: DatabaseView,
    tag_id: TagId,
    definition: TagView,
) -> DatabaseView {
    if definition.name.len() == 0 || definition.color.len() == 0 {
        db
    } else {
        db.with_tag(tag_id, definition)
    }
}

/// Whether a deletion comes too late: the tag was defined anew, or a version of the file
/// recorded, after the time of the deletion.
pub open spec fn is_stale_deletion(db: DatabaseView, change: Change) -> bool {
    match change {
        Change::FileDeleted { file_id, deleted_at } => db.history(file_id).len() > 0 && deleted_at
            < db.history(file_id).last().observed_at,
        Change::TagRemoved { tag_id, modified_at } => db.tags.contains_key(tag_id) && modified_at
            < db.tags[tag_id].modified_at,
        _ => false,
    }
}

/// The database after a change without bytes.
pub open spec fn db_after_change(db: DatabaseView, change: Change) -> DatabaseView {
    match change {
        Change::FileMetadataAdded { file_id, logical_path, .. } => if db.files.contains_key(
            file_id,
        ) {
            db
        } else {
            with_file(db, file_id, logical_path@)
        },
        Change::FileMetadataChanged { .. } => db,
        Change::FileMoved { file_id, logical_path } => if db.files.contains_key(file_id) {
            with_file(db, file_id, logical_path@)
        } else {
            db
        },
        Change::FileDeleted { file_id, .. } => if is_stale_deletion(db, change) {
            db
        } else {
            DatabaseView { files: db.files.remove(file_id), ..db }
        },
        Change::TagAdded { tag_id, tag_name, color, modified_at, .. } => with_announced_tag(
            db,
            tag_id,
            TagView { name: tag_name@, color: color@, modified_at },
        ),
        Change::TagRenamed { tag_id, tag_name, modified_at } => if tag_name@.len() == 0
            || !db.tags.contains_key(tag_id) {
            db
        } else {
            db.with_tag(tag_id, TagView { name: tag_name@, modified_at, ..db.tags[tag_id] })
        },
        Change::TagRecolored { tag_id, color, modified_at } => if color@.len() == 0
            || !db.tags.contains_key(tag_id) {
            db
        } else {
            db.with_tag(tag_id, TagView { color: color@, modified_at, ..db.tags[tag_id] })
        },
        Change::TagChanged { .. } => db,
        Change::TagRemoved { tag_id, .. } => if is_stale_deletion(db, change) {
            db
        } else {
            db.without_tag(tag_id)
        },
        Change::FileTagged { file_id, tag_id, modified_at, .. } => db.with_entry(
            file_key(tag_id, file_id),
            EntryState { modified_at, deleted: false },
        ),
        Change::FileTagChanged { .. } => db,
        Change::FileUntagged { file_id, tag_id, modified_at } => db.without_entry(
            file_key(tag_id, file_id),
            modified_at,
        ),
        Change::TagTagged { taggee_id, tag_id, modified_at, .. } => if tag_id == taggee_id {
            db
        } else {
            db.with_entry(
                subtag_key(tag_id, taggee_id),
                EntryState { modified_at, deleted: false },
            )
        },
        Change::TagTagChanged { .. } => db,
        Change::TagUntagged { taggee_id, tag_id, modified_at } => db.without_entry(
            subtag_key(tag_id, taggee_id),
            modified_at,
        ),
    }
}

/// Whether a change without bytes is sent on to the other peers as it is. One on
/// content is sent on only where the content is on record as the latest version, and one
/// on metadata never.
pub open spec fn is_forwarded(db: DatabaseView, change: Change) -> bool {
    match change {
        Change::FileMetadataAdded { file_id, content_hash, .. } => db.files.contains_key(file_id)
            && is_current(db, file_id, content_hash@),
        Change::FileMetadataChanged { file_id, content_hash } => is_current(
            db,
            file_id,
            content_hash@,
        ),
        Change::TagChanged { .. } => false,
        Change::FileTagChanged { .. } => false,
        Change::TagTagChanged { .. } => false,
        _ => true,
    }
}

/// What a change without bytes has the sync directories or the announcing peer do.
pub open spec fn local_actions(
    configuration: Configuration,
    runtime: RuntimeConfiguration,
    db: DatabaseView,
    change: Change,
    origin: ChangeOrigin,
) -> Seq<ActionView> {
    match change {
        Change::FileMetadataAdded { file_id, logical_path, content_hash, tags } => if is_forwarded(
            db,
            change,
        ) {
            Seq::empty()
        } else {
            pulled(
                runtime,
                origin,
                file_id,
                content_hash@,
                PlacementView::Create { logical_path, tags: tags@ },
            )
        },
        Change::FileMetadataChanged { file_id, content_hash } => if is_forwarded(db, change) {
            Seq::empty()
        } else {
            pulled(runtime, origin, file_id, content_hash@, PlacementView::Change)
        },
        Change::FileMoved { file_id, logical_path } => commanded(
            move_commands(
                all_concerned(configuration, Skip::Origin, origin, tags_on(db, file_id)),
                file_id,
                logical_path@,
            ),
        ),
        Change::FileDeleted { file_id, .. } => if is_stale_deletion(db, change) {
            Seq::empty()
        } else {
            commanded(
                remove_commands(
                    all_concerned(
                        configuration,
                        Skip::OriginAndVaults,
                        origin,
                        tags_on(db, file_id),
                    ),
                    file_id,
                ),
            )
        },
        Change::FileTagged { file_id, .. } => placed_anew(db_after_change(db, change), file_id),
        Change::FileUntagged { file_id, .. } => placed_anew(db_after_change(db, change), file_id),
        _ => Seq::empty(),
    }
}

/// Whether the user interface is told of a change without bytes: always, but for the
/// announcement of a new file that is known with this content, and a deletion that comes
/// too late.
pub open spec fn is_published(db: DatabaseView, change: Change) -> bool {
    !(change is FileMetadataAdded && is_forwarded(db, change)) && !is_stale_deletion(db, change)
}

/// What a change without bytes leads to.
pub open spec fn after_change(
    configuration: Configuration,
    runtime: RuntimeConfiguration,
    db: DatabaseView,
    change: Change,
    origin: ChangeOrigin,
) -> (DatabaseView, Seq<ActionView>) {
    (
        db_after_change(db, change),
        local_actions(configuration, runtime, db, change, origin) + (if is_forwarded(db, change) {
            forwarded(configuration, runtime, change@, origin)
        } else {
            Seq::empty()
        }) + published(is_published(db, change), change@),
    )
}

/// What a message leads to: the database afterwards, and the actions in order.
pub open spec fn after_message(
    configuration: Configuration,
    runtime: RuntimeConfiguration,
    db: DatabaseView,
    message: DaemonMessage,
    now: i64,
    here: ChangeOrigin,
) -> (DatabaseView, Seq<ActionView>) {
    match message {
        DaemonMessage::Change(Ingest::Content(change), origin) => after_content(
            configuration,
            runtime,
            db,
            change,
            origin,
            now,
        ),
        DaemonMessage::Change(Ingest::Meta(change), origin) => after_change(
            configuration,
            runtime,
            db,
            change,
            origin,
        ),
        DaemonMessage::Fetch { file_id, expected_hash, respond_to } => (
            db,
            seq![ActionView::ReadLocal { file_id, expected_hash: expected_hash@, respond_to }],
        ),
        DaemonMessage::Materialize { file_id, content, content_hash, origin, placement } =>
            after_materialize(
                configuration,
                runtime,
                db,
                file_id,
                content@,
                content_hash,
                origin,
                placement@,
                now,
            ),
        DaemonMessage::ReconcilePlacement { file_id } => (
            db,
            placed_anew(db, file_id) + sought(configuration, db, file_id),
        ),
        DaemonMessage::CatalogFile { file_id, logical_path, content_hash, origin } => after_catalog(
            configuration,
            runtime,
            db,
            file_id,
            logical_path,
            content_hash,
            origin,
            now,
        ),
        DaemonMessage::AnnounceProvided { file_id, logical_path, content_hash, tags, .. } =>
            after_provided(
                configuration,
                runtime,
                db,
                file_id,
                logical_path,
                content_hash,
                tags@,
                here,
                now,
            ),
    }
}

/// Ascending lists with the same tags are equal.
pub proof fn lemma_ascending_tags_unique(a: Seq<TagId>, b: Seq<TagId>)
    requires
        forall|i: int, j: int|
            0 <= i < j < a.len() ==> (#[trigger] a[i]).value < (#[trigger] a[j]).value,
        forall|i: int, j: int|
            0 <= i < j < b.len() ==> (#[trigger] b[i]).value < (#[trigger] b[j]).value,
        forall|t: TagId| #[trigger] a.contains(t) <==> b.contains(t),
    ensures
        a == b,
    decreases a.len(),
{
    if a.len() == 0 {
        if b.len() > 0 {
            assert(b.contains(b[0]));
            assert(a.contains(b[0]));
        }
        assert(a =~= b);
    } else {
        let x = a.last();
        assert(a.contains(x)) by {
            assert(a[a.len() - 1] == x);
        }
        assert(b.contains(x));
        let y = b.last();
        assert(b.contains(y)) by {
            assert(b[b.len() - 1] == y);
        }
        assert(a.contains(y));
        let i = choose|i: int| 0 <= i < a.len() && a[i] == y;
        let j = choose|j: int| 0 <= j < b.len() && b[j] == x;
        assert(i == a.len() - 1) by {
            if i < a.len() - 1 {
                assert(a[i].value < a[a.len() - 1].value);
                if j < b.len() - 1 {
                    assert(b[j].value < b[b.len() - 1].value);
                }
            }
        }
        assert(x == y);
        let p = a.drop_last();
        let q = b.drop_last();
        assert forall|t: TagId| #[trigger] p.contains(t) <==> q.contains(t) by {
            if p.contains(t) {
                let k = choose|k: int| 0 <= k < p.len() && p[k] == t;
                assert(a[k] == t);
                assert(a[k].value < a[a.len() - 1].value);
                assert(a.contains(t));
                let l = choose|l: int| 0 <= l < b.len() && b[l] == t;
                assert(l != b.len() - 1);
                assert(q[l] == t);
            }
            if q.contains(t) {
                let k = choose|k: int| 0 <= k < q.len() && q[k] == t;
                assert(b[k] == t);
                assert(b[k].value < b[b.len() - 1].value);
                assert(b.contains(t));
                assert(a.contains(t));
                let l = choose|l: int| 0 <= l < a.len() && a[l] == t;
                assert(l != a.len() - 1);
                assert(p[l] == t);
            }
        }
        lemma_ascending_tags_unique(p, q);
        assert(p.push(x) =~= a);
        assert(q.push(y) =~= b);
    }
}

/// The tags on a file itself.
fn file_tags(database: &FileDatabase, file_id: FileId) -> (r: Vec<TagId>)
    ensures
        r@ == tags_on(database@, file_id),
{
    match database.tag_ids_for_file(file_id, SubtagRule::Exclude) {
        Ok(list) => {
            proof {
                let set = is_on(database@, file_id);
                assert(lists_tags(list@, set)) by {
                    assert forall|t: TagId| #[trigger] list@.contains(t) <==> set(t) by {}
                }
                let other = tags_on(database@, file_id);
                assert(lists_tags(other, set));
                assert forall|t: TagId| #[trigger] list@.contains(t) <==> other.contains(t) by {
                    assert(list@.contains(t) <==> set(t));
                    assert(other.contains(t) <==> set(t));
                }
                lemma_ascending_tags_unique(list@, other);
            }
            list
        },
        Err(_) => Vec::new(),
    }
}

/// The positions of the directories that a change concerns.
fn select(
    configuration: &Configuration,
    skip: Skip,
    origin: &ChangeOrigin,
    tags: &Vec<TagId>,
) -> (r: Vec<usize>)
    ensures
        forall|k: int|
            0 <= k < r@.len() ==> #[trigger] r@[k] < configuration.sync_directories@.len(),
        picked(*configuration, r@) == all_concerned(
            *configuration,
            skip,
            *origin,
            tags@,
        ),
{
    let ghost directories = configuration.sync_directories@;
    let mut out: Vec<usize> = Vec::new();
    let mut i: usize = 0;
    assert(picked(*configuration, out@) =~= Seq::<SyncDirectory>::empty());
    while i < configuration.sync_directories.len()
        invariant
            i <= configuration.sync_directories.len(),
            directories == configuration.sync_directories@,
            forall|k: int| 0 <= k < out@.len() ==> #[trigger] out@[k] < directories.len(),
            picked(*configuration, out@) == concerned(
                directories,
                skip,
                *origin,
                tags@,
                i as int,
            ),
        decreases configuration.sync_directories.len() - i,
    {
        let directory = &configuration.sync_directories[i];
        let from_here = match origin {
            ChangeOrigin::Local { directory_path } => same_text(
                directory_path.as_str(),
                directory.path.as_str(),
            ),
            ChangeOrigin::Peer { .. } => false,
        };
        let passed_by = match skip {
            Skip::Nothing => false,
            Skip::TagBasedOrigin => from_here && match &directory.sync_type {
                SyncType::TagBased { .. } => true,
                SyncType::Universal { .. } => false,
            },
            Skip::Origin => from_here,
            Skip::OriginAndVaults => from_here || match &directory.sync_type {
                SyncType::TagBased { .. } => false,
                SyncType::Universal { keep_deleted_files } => *keep_deleted_files,
            },
        };
        assert(passed_by == skips(skip, *origin, directories[i as int]));
        let ghost before = out@;
        if !passed_by && directory.sync_type.wants(tags) {
            out.push(i);
            proof {
                assert(picked(*configuration, out@) =~= picked(*configuration, before).push(
                    directories[i as int],
                ));
            }
        }
        i = i + 1;
    }
    out
}

/// The bytes of a new file as targets.
fn create_targets(
    configuration: &Configuration,
    chosen: &Vec<usize>,
    file_id: FileId,
    logical_path: &LogicalPath,
) -> (r: Vec<ContentTarget>)
    requires
        forall|k: int|
            0 <= k < chosen@.len() ==> #[trigger] chosen@[k]
                < configuration.sync_directories@.len(),
    ensures
        r@.len() == chosen@.len(),
        forall|content: BytesView|
            r@.map_values(|t: ContentTarget| command_of(t, content)) == #[trigger] create_commands(
                picked(*configuration, chosen@),
                file_id,
                logical_path@,
                content,
            ),
{
    let ghost directories = picked(*configuration, chosen@);
    let mut out: Vec<ContentTarget> = Vec::new();
    let mut k: usize = 0;
    while k < chosen.len()
        invariant
            k <= chosen.len(),
            directories == picked(*configuration, chosen@),
            forall|j: int|
                0 <= j < chosen@.len() ==> #[trigger] chosen@[j]
                    < configuration.sync_directories@.len(),
            out@.len() == k,
            forall|j: int, content: BytesView|
                0 <= j < k ==> #[trigger] command_of(out@[j], content) == create_commands(
                    directories,
                    file_id,
                    logical_path@,
                    content,
                )[j],
        decreases chosen.len() - k,
    {
        let directory = &configuration.sync_directories[chosen[k]];
        out.push(
            ContentTarget::Create {
                file_id,
                physical_path: directory.sync_type.physical_for(logical_path, file_id),
                sync_directory_path: directory.path.clone(),
            },
        );
        k = k + 1;
    }
    proof {
        assert forall|content: BytesView|
            out@.map_values(|t: ContentTarget| command_of(t, content)) == #[trigger] create_commands(
                directories,
                file_id,
                logical_path@,
                content,
            ) by {
            assert(out@.map_values(|t: ContentTarget| command_of(t, content)) =~= create_commands(
                directories,
                file_id,
                logical_path@,
                content,
            ));
        }
    }
    out
}

/// The new bytes of a known file as targets.
fn change_targets(configuration: &Configuration, chosen: &Vec<usize>, file_id: FileId) -> (r: Vec<
    ContentTarget,
>)
    requires
        forall|k: int|
            0 <= k < chosen@.len() ==> #[trigger] chosen@[k]
                < configuration.sync_directories@.len(),
    ensures
        r@.len() == chosen@.len(),
        forall|content: BytesView|
            r@.map_values(|t: ContentTarget| command_of(t, content)) == #[trigger] change_commands(
                picked(*configuration, chosen@),
                file_id,
                content,
            ),
{
    let ghost directories = picked(*configuration, chosen@);
    let mut out: Vec<ContentTarget> = Vec::new();
    let mut k: usize = 0;
    while k < chosen.len()
        invariant
            k <= chosen.len(),
            directories == picked(*configuration, chosen@),
            forall|j: int|
                0 <= j < chosen@.len() ==> #[trigger] chosen@[j]
                    < configuration.sync_directories@.len(),
            out@.len() == k,
            forall|j: int, content: BytesView|
                0 <= j < k ==> #[trigger] command_of(out@[j], content) == change_commands(
                    directories,
                    file_id,
                    content,
                )[j],
        decreases chosen.len() - k,
    {
        let directory = &configuration.sync_directories[chosen[k]];
        out.push(
            ContentTarget::Change { file_id, sync_directory_path: directory.path.clone() },
        );
        k = k + 1;
    }
    proof {
        assert forall|content: BytesView|
            out@.map_values(|t: ContentTarget| command_of(t, content)) == #[trigger] change_commands(
                directories,
                file_id,
                content,
            ) by {
            assert(out@.map_values(|t: ContentTarget| command_of(t, content)) =~= change_commands(
                directories,
                file_id,
                content,
            ));
        }
    }
    out
}

/// Hands a content to its targets. One target gets it as it is; of several each gets
/// a copy, and a source that was to be moved is removed behind them.
fn dispatch_content(targets: Vec<ContentTarget>, content: FileBytes) -> (r: Vec<Action>)
    ensures
        action_views(r@) == commanded(
            targets@.map_values(
                |t: ContentTarget| command_of(t, shared_among(targets@.len(), content@)),
            ),
        ) + source_removal(targets@.len(), content@),
{
    let ghost all = targets@;
    let ghost wanted = commanded(
        all.map_values(|t: ContentTarget| command_of(t, shared_among(all.len(), content@))),
    );
    let ghost given = content@;
    let mut actions: Vec<Action> = Vec::new();
    let mut left = targets;
    if left.len() == 0 {
        assert(action_views(actions@) =~= wanted + source_removal(0, given));
        return actions;
    }
    if left.len() == 1 {
        let target = left.remove(0);
        actions.push(Action::Command(target.into_command(content)));
        assert(action_views(actions@) =~= wanted + source_removal(1, given));
        return actions;
    }
    let removal: Option<String> = match &content {
        FileBytes::FileToMove(path) => Some(path.clone()),
        _ => None,
    };
    let n: usize = left.len();
    let mut i: usize = 0;
    while i < n
        invariant
            i <= n,
            n == all.len(),
            n > 1,
            left@ == all.skip(i as int),
            content@ == given,
            wanted == commanded(
                all.map_values(|t: ContentTarget| command_of(t, shared_among(all.len(), given))),
            ),
            action_views(actions@) == wanted.take(i as int),
        decreases n - i,
    {
        assert(all.skip(i as int)[0] == all[i as int]);
        let target = left.remove(0);
        assert(left@ =~= all.skip(i + 1));
        let ghost before = actions@;
        actions.push(Action::Command(target.into_command(content.share())));
        proof {
            assert(action_views(actions@) =~= action_views(before).push(actions@.last()@));
            assert(wanted.take(i + 1) =~= wanted.take(i as int).push(wanted[i as int]));
        }
        i = i + 1;
    }
    assert(wanted.take(i as int) =~= wanted);
    let ghost before = actions@;
    match removal {
        Some(path) => {
            actions.push(Action::RemoveSource { path });
            proof {
                assert(action_views(actions@) =~= action_views(before).push(actions@.last()@));
                assert(action_views(actions@) =~= wanted + source_removal(all.len(), given));
            }
        },
        None => {
            assert(action_views(actions@) =~= wanted + source_removal(all.len(), given));
        },
    }
    actions
}

/// Appends the sending of a change to every peer that receives it.
fn forward_to_peers(
    configuration: &Configuration,
    runtime: &RuntimeConfiguration,
    change: &Change,
    origin: &ChangeOrigin,
    actions: &mut Vec<Action>,
)
    ensures
        action_views(final(actions)@) == action_views(old(actions)@) + forwarded(
            *configuration,
            *runtime,
            change@,
            *origin,
        ),
{
    let ghost given = action_views(actions@);
    let ghost peers = configuration.peers@;
    let mut i: usize = 0;
    assert(given + Seq::<ActionView>::empty() =~= given);
    while i < configuration.peers.len()
        invariant
            i <= configuration.peers.len(),
            peers == configuration.peers@,
            action_views(actions@) == given + forwarded_to(
                peers,
                *runtime,
                change@,
                *origin,
                i as int,
            ),
        decreases configuration.peers.len() - i,
    {
        let key = &configuration.peers[i].public_key;
        let from_peer = match origin {
            ChangeOrigin::Peer { public_key } => same_text(public_key.as_str(), key.as_str()),
            ChangeOrigin::Local { .. } => false,
        };
        let ghost before = actions@;
        let ghost sent = forwarded_to(peers, *runtime, change@, *origin, i as int);
        if !from_peer && runtime.peer_outbound(key.as_str()).is_some() {
            assert(receives(*runtime, *origin, peers[i as int]));
            actions.push(Action::Send { public_key: key.clone(), change: change.duplicate() });
            proof {
                let view = actions@.last()@;
                assert(action_views(actions@) =~= action_views(before).push(view));
                assert(given + sent.push(view) =~= (given + sent).push(view));
            }
        }
        i = i + 1;
    }
}

/// Appends a pull from the peer that announced a change.
fn request_pull_from_origin(
    runtime: &RuntimeConfiguration,
    origin: &ChangeOrigin,
    file_id: FileId,
    content_hash: String,
    placement: MaterializePlacement,
    actions: &mut Vec<Action>,
)
    ensures
        action_views(final(actions)@) == action_views(old(actions)@) + pulled(
            *runtime,
            *origin,
            file_id,
            content_hash@,
            placement@,
        ),
{
    let ghost before = actions@;
    assert(action_views(before) + Seq::<ActionView>::empty() =~= action_views(before));
    match origin {
        ChangeOrigin::Local { .. } => {},
        ChangeOrigin::Peer { public_key } => {
            if runtime.peer_commands(public_key.as_str()).is_some() {
                actions.push(
                    Action::Instruct {
                        public_key: public_key.clone(),
                        command: PeerCommand::StartReceive { file_id, content_hash, placement },
                    },
                );
                proof {
                    assert(action_views(actions@) =~= action_views(before).push(
                        actions@.last()@,
                    ));
                    assert(action_views(before) + seq![actions@.last()@] =~= action_views(
                        before,
                    ).push(actions@.last()@));
                }
            }
        },
    }
}

/// Appends a fresh look at where a file belongs.
fn reconcile_tag_placement(database: &FileDatabase, file_id: FileId, actions: &mut Vec<Action>)
    ensures
        action_views(final(actions)@) == action_views(old(actions)@) + placed_anew(
            database@,
            file_id,
        ),
{
    let ghost before = actions@;
    match database.logical_path_for_file_id(file_id) {
        Ok(logical_path) => {
            let file_tags = file_tags(database, file_id);
            actions.push(
                Action::Command(
                    SyncDirectoryCommand::ReconcileTagPlacement {
                        file_id,
                        logical_path,
                        file_tags,
                    },
                ),
            );
            proof {
                assert(action_views(actions@) =~= action_views(before).push(actions@.last()@));
                assert(action_views(before) + seq![actions@.last()@] =~= action_views(before).push(
                    actions@.last()@,
                ));
            }
        },
        Err(_) => {
            assert(action_views(before) + Seq::<ActionView>::empty() =~= action_views(before));
        },
    }
}

fn origin_name(origin: &ChangeOrigin) -> (r: String)
    ensures
        r@ == origin_text(*origin),
{
    match origin {
        ChangeOrigin::Local { .. } => "local".to_owned(),
        ChangeOrigin::Peer { public_key } => public_key.clone(),
    }
}

/// Records a version, where there is room for one. Tells whether there was.
fn record(
    database: &mut FileDatabase,
    file_id: FileId,
    content_hash: &str,
    now: i64,
    origin: &ChangeOrigin,
) -> (r: bool)
    ensures
        final(database)@ == recorded(old(database)@, file_id, content_hash@, now, *origin),
        r == has_room(old(database)@, file_id),
{
    let name = origin_name(origin);
    database.record_version_at(file_id, content_hash, name.as_str(), now).is_ok()
}

/// Appends the publication of a change, where it was applied.
fn publish(applied: bool, change: Change, actions: &mut Vec<Action>)
    ensures
        action_views(final(actions)@) == action_views(old(actions)@) + published(applied, change@),
{
    let ghost before = actions@;
    if applied {
        actions.push(Action::Publish(change));
        assert(action_views(actions@) =~= action_views(before) + published(applied, change@));
    } else {
        assert(action_views(before) + published(applied, change@) =~= action_views(before));
    }
}

/// Appends the sending of a change to the peers, and its publication where it was applied.
fn announce(
    configuration: &Configuration,
    runtime: &RuntimeConfiguration,
    change: Change,
    origin: &ChangeOrigin,
    applied: bool,
    actions: &mut Vec<Action>,
)
    ensures
        action_views(final(actions)@) == action_views(old(actions)@) + forwarded(
            *configuration,
            *runtime,
            change@,
            *origin,
        ) + published(applied, change@),
{
    forward_to_peers(configuration, runtime, &change, origin, actions);
    publish(applied, change, actions);
}

/// Whether a hash is that of the latest version of a file.
fn holds_current(database: &FileDatabase, file_id: FileId, content_hash: &str) -> (r: bool)
    ensures
        r == is_current(database@, file_id, content_hash@),
{
    match database.latest_version(file_id) {
        Ok(Some(version)) => same_text(version.content_hash.as_str(), content_hash),
        _ => false,
    }
}

/// Hands the new bytes of a known file to the directories that want it.
fn place_new_bytes(
    configuration: &Configuration,
    database: &FileDatabase,
    file_id: FileId,
    content: FileBytes,
    skip: Skip,
    origin: &ChangeOrigin,
) -> (r: Vec<Action>)
    ensures
        action_views(r@) == changed(
            *configuration,
            skip,
            *origin,
            file_id,
            tags_on(database@, file_id),
            content@,
        ),
{
    let tags = file_tags(database, file_id);
    let chosen = select(configuration, skip, origin, &tags);
    let targets = change_targets(configuration, &chosen, file_id);
    proof {
        let directories = all_concerned(*configuration, skip, *origin, tags@);
        let view = shared_among(directories.len(), content@);
        assert(change_commands(directories, file_id, view) == targets@.map_values(
            |t: ContentTarget| command_of(t, view),
        ));
    }
    dispatch_content(targets, content)
}

/// Applies new bytes of a known file.
fn handle_new_bytes(
    configuration: &Configuration,
    runtime: &RuntimeConfiguration,
    database: &mut FileDatabase,
    file_id: FileId,
    content: FileBytes,
    content_hash: String,
    origin: &ChangeOrigin,
    now: i64,
) -> (r: Vec<Action>)
    ensures
        (final(database)@, action_views(r@)) == after_new_bytes(
            *configuration,
            *runtime,
            old(database)@,
            file_id,
            content@,
            content_hash,
            *origin,
            now,
        ),
{
    let mut actions = place_new_bytes(
        configuration,
        database,
        file_id,
        content,
        Skip::Origin,
        origin,
    );
    let applied = record(database, file_id, content_hash.as_str(), now, origin);
    let change = Change::FileMetadataChanged { file_id, content_hash };
    announce(configuration, runtime, change, origin, applied, &mut actions);
    actions
}

/// Hands the bytes of a new file to the directories that want it.
fn place_new_file(
    configuration: &Configuration,
    file_id: FileId,
    logical_path: &LogicalPath,
    content: FileBytes,
    tags: &Vec<TagId>,
    skip: Skip,
    origin: &ChangeOrigin,
) -> (r: Vec<Action>)
    ensures
        action_views(r@) == created(
            *configuration,
            skip,
            *origin,
            file_id,
            logical_path@,
            tags@,
            content@,
        ),
{
    let chosen = select(configuration, skip, origin, tags);
    let targets = create_targets(configuration, &chosen, file_id, logical_path);
    proof {
        let directories = all_concerned(*configuration, skip, *origin, tags@);
        let view = shared_among(directories.len(), content@);
        assert(create_commands(directories, file_id, logical_path@, view) == targets@.map_values(
            |t: ContentTarget| command_of(t, view),
        ));
    }
    dispatch_content(targets, content)
}

/// Places bytes that arrived over a transfer. Their version is recorded and announced,
/// unless it is on record as the latest.
fn handle_materialize(
    configuration: &Configuration,
    runtime: &RuntimeConfiguration,
    database: &mut FileDatabase,
    file_id: FileId,
    content: FileBytes,
    content_hash: String,
    origin: &ChangeOrigin,
    placement: MaterializePlacement,
    now: i64,
) -> (r: Vec<Action>)
    ensures
        (final(database)@, action_views(r@)) == after_materialize(
            *configuration,
            *runtime,
            old(database)@,
            file_id,
            content@,
            content_hash,
            *origin,
            placement@,
            now,
        ),
{
    let mut actions = match &placement {
        MaterializePlacement::Create { logical_path, tags } => place_new_file(
            configuration,
            file_id,
            logical_path,
            content,
            tags,
            Skip::Nothing,
            origin,
        ),
        MaterializePlacement::Change => place_new_bytes(
            configuration,
            database,
            file_id,
            content,
            Skip::Nothing,
            origin,
        ),
    };
    if holds_current(database, file_id, content_hash.as_str()) {
        return actions;
    }
    let applied = record(database, file_id, content_hash.as_str(), now, origin);
    let change = match placement {
        MaterializePlacement::Create { logical_path, tags } => Change::FileMetadataAdded {
            file_id,
            logical_path,
            content_hash,
            tags,
        },
        MaterializePlacement::Change => Change::FileMetadataChanged { file_id, content_hash },
    };
    announce(configuration, runtime, change, origin, applied, &mut actions);
    actions
}

/// Puts a file, where it is new, and a version that a peer's manifest announced on record,
/// and passes the announcement on.
fn handle_catalog(
    configuration: &Configuration,
    runtime: &RuntimeConfiguration,
    database: &mut FileDatabase,
    file_id: FileId,
    logical_path: LogicalPath,
    content_hash: String,
    origin: &ChangeOrigin,
    now: i64,
) -> (r: Vec<Action>)
    ensures
        (final(database)@, action_views(r@)) == after_catalog(
            *configuration,
            *runtime,
            old(database)@,
            file_id,
            logical_path,
            content_hash,
            *origin,
            now,
        ),
{
    let mut actions: Vec<Action> = Vec::new();
    assert(action_views(actions@) =~= Seq::<ActionView>::empty());
    let added = database.add_file(file_id, &logical_path).is_ok();
    let recorded = record(database, file_id, content_hash.as_str(), now, origin);
    let change = if added {
        let tags: Vec<TagId> = Vec::new();
        assert(tags@ =~= Seq::<TagId>::empty());
        Change::FileMetadataAdded { file_id, logical_path, content_hash, tags }
    } else {
        Change::FileMetadataChanged { file_id, content_hash }
    };
    let ghost sent = forwarded(*configuration, *runtime, change@, *origin);
    announce(configuration, runtime, change, origin, added || recorded, &mut actions);
    assert(Seq::<ActionView>::empty() + sent =~= sent);
    actions
}

/// Whether some directory wants a file with `tags`.
fn any_wants(configuration: &Configuration, tags: &Vec<TagId>) -> (r: bool)
    ensures
        r == is_wanted(*configuration, tags@),
{
    let mut i: usize = 0;
    while i < configuration.sync_directories.len()
        invariant
            i <= configuration.sync_directories.len(),
            forall|k: int|
                0 <= k < i ==> !wants(
                    (#[trigger] configuration.sync_directories@[k]).sync_type@,
                    tags@,
                ),
        decreases configuration.sync_directories.len() - i,
    {
        if configuration.sync_directories[i].sync_type.wants(tags) {
            assert(wants(configuration.sync_directories@[i as int].sync_type@, tags@));
            return true;
        }
        i = i + 1;
    }
    false
}

/// Appends a search for the bytes of a file that some directory wants.
fn seek(
    configuration: &Configuration,
    database: &FileDatabase,
    file_id: FileId,
    actions: &mut Vec<Action>,
)
    ensures
        action_views(final(actions)@) == action_views(old(actions)@) + sought(
            *configuration,
            database@,
            file_id,
        ),
{
    let ghost before = action_views(actions@);
    assert(before + Seq::<ActionView>::empty() =~= before);
    let logical_path = match database.logical_path_for_file_id(file_id) {
        Ok(logical_path) => logical_path,
        Err(_) => {
            return;
        },
    };
    let expected_hash = match database.latest_version(file_id) {
        Ok(Some(version)) => version.content_hash,
        _ => {
            return;
        },
    };
    let tags = file_tags(database, file_id);
    if any_wants(configuration, &tags) {
        let ghost list = actions@;
        actions.push(Action::Seek { file_id, expected_hash, logical_path, tags });
        proof {
            let view = actions@.last()@;
            assert(action_views(actions@) =~= action_views(list).push(view));
            assert(before + seq![view] =~= before.push(view));
        }
    }
}

/// Applies a change that brings its bytes along.
fn handle_content_change(
    configuration: &Configuration,
    runtime: &RuntimeConfiguration,
    database: &mut FileDatabase,
    change: ContentChange,
    origin: &ChangeOrigin,
    now: i64,
) -> (r: Vec<Action>)
    ensures
        (final(database)@, action_views(r@)) == after_content(
            *configuration,
            *runtime,
            old(database)@,
            change,
            *origin,
            now,
        ),
{
    match change {
        ContentChange::FileAdded { file_id, logical_path, content, content_hash, tags } => {
            match database.add_file(file_id, &logical_path) {
                Ok(()) => {
                    let _ = record(database, file_id, content_hash.as_str(), now, origin);
                    let mut actions = place_new_file(
                        configuration,
                        file_id,
                        &logical_path,
                        content,
                        &tags,
                        Skip::TagBasedOrigin,
                        origin,
                    );
                    let change = Change::FileMetadataAdded {
                        file_id,
                        logical_path,
                        content_hash,
                        tags,
                    };
                    announce(configuration, runtime, change, origin, true, &mut actions);
                    actions
                },
                Err(_) => {
                    if holds_current(database, file_id, content_hash.as_str()) {
                        let actions: Vec<Action> = Vec::new();
                        assert(action_views(actions@) =~= Seq::<ActionView>::empty());
                        return actions;
                    }
                    handle_new_bytes(
                        configuration,
                        runtime,
                        database,
                        file_id,
                        content,
                        content_hash,
                        origin,
                        now,
                    )
                },
            }
        },
        ContentChange::FileChanged { file_id, content, content_hash } => handle_new_bytes(
            configuration,
            runtime,
            database,
            file_id,
            content,
            content_hash,
            origin,
            now,
        ),
    }
}

/// Applies a change without bytes.
fn handle_meta_change(
    configuration: &Configuration,
    runtime: &RuntimeConfiguration,
    database: &mut FileDatabase,
    change: Change,
    origin: &ChangeOrigin,
) -> (r: Vec<Action>)
    ensures
        (final(database)@, action_views(r@)) == after_change(
            *configuration,
            *runtime,
            old(database)@,
            change,
            *origin,
        ),
{
    let ghost db = database@;
    let mut actions: Vec<Action> = Vec::new();
    assert(action_views(actions@) =~= Seq::<ActionView>::empty());
    let stale = comes_too_late(database, &change);
    let mut forward = true;
    let mut published = true;
    match &change {
        Change::FileMetadataAdded { file_id, logical_path, content_hash, tags } => {
            forward = false;
            let known = database.add_file(*file_id, logical_path).is_err();
            if known && holds_current(database, *file_id, content_hash.as_str()) {
                forward = true;
                published = false;
            } else {
                request_pull_from_origin(
                    runtime,
                    origin,
                    *file_id,
                    content_hash.clone(),
                    MaterializePlacement::Create {
                        logical_path: logical_path.duplicate(),
                        tags: copy_tags(tags),
                    },
                    &mut actions,
                );
            }
        },
        Change::FileMetadataChanged { file_id, content_hash } => {
            if !holds_current(database, *file_id, content_hash.as_str()) {
                forward = false;
                request_pull_from_origin(
                    runtime,
                    origin,
                    *file_id,
                    content_hash.clone(),
                    MaterializePlacement::Change,
                    &mut actions,
                );
            }
        },
        Change::FileMoved { file_id, logical_path } => {
            let tags = file_tags(database, *file_id);
            let _ = database.update_file_logical_path(*file_id, logical_path);
            let chosen = select(configuration, Skip::Origin, origin, &tags);
            move_in(configuration, &chosen, *file_id, logical_path, &mut actions);
        },
        Change::FileDeleted { file_id, .. } => {
            if stale {
                published = false;
            } else {
                let tags = file_tags(database, *file_id);
                let _ = database.remove_file(*file_id);
                let chosen = select(configuration, Skip::OriginAndVaults, origin, &tags);
                remove_from(configuration, &chosen, *file_id, &mut actions);
            }
        },
        Change::TagAdded { tag_id, tag_name, color, modified_at, .. } => {
            let _ = database.add_tag(*tag_id, tag_name.as_str(), color.as_str(), *modified_at);
        },
        Change::TagRenamed { tag_id, tag_name, modified_at } => {
            let _ = database.update_tag_name(*tag_id, tag_name.as_str(), *modified_at);
        },
        Change::TagRecolored { tag_id, color, modified_at } => {
            let _ = database.update_tag_color(*tag_id, color.as_str(), *modified_at);
        },
        Change::TagChanged { .. } => {
            forward = false;
        },
        Change::TagRemoved { tag_id, .. } => {
            if stale {
                published = false;
            } else {
                let _ = database.remove_tag(*tag_id);
            }
        },
        Change::FileTagged { file_id, tag_id, modified_at, .. } => {
            let _ = database.tag_file(*tag_id, *file_id, *modified_at);
            reconcile_tag_placement(database, *file_id, &mut actions);
        },
        Change::FileTagChanged { .. } => {
            forward = false;
        },
        Change::FileUntagged { file_id, tag_id, modified_at } => {
            let _ = database.untag_file(*tag_id, *file_id, *modified_at);
            reconcile_tag_placement(database, *file_id, &mut actions);
        },
        Change::TagTagged { taggee_id, tag_id, modified_at, .. } => {
            let _ = database.tag_tag(*tag_id, *taggee_id, *modified_at);
        },
        Change::TagTagChanged { .. } => {
            forward = false;
        },
        Change::TagUntagged { taggee_id, tag_id, modified_at } => {
            let _ = database.untag_tag(*tag_id, *taggee_id, *modified_at);
        },
    }
    let ghost local = local_actions(*configuration, *runtime, db, change, *origin);
    assert(action_views(actions@) =~= local);
    assert(database@ == db_after_change(db, change));
    assert(forward == is_forwarded(db, change));
    assert(published == is_published(db, change));
    if forward {
        forward_to_peers(configuration, runtime, &change, origin, &mut actions);
    }
    let ghost sent = action_views(actions@);
    assert(sent =~= local + (if forward {
        forwarded(*configuration, *runtime, change@, *origin)
    } else {
        Seq::empty()
    }));
    publish(published, change, &mut actions);
    actions
}

/// Whether a deletion comes too late.
fn comes_too_late(database: &FileDatabase, change: &Change) -> (r: bool)
    ensures
        r == is_stale_deletion(database@, *change),
{
    match change {
        Change::FileDeleted { file_id, deleted_at } => match database.latest_version(*file_id) {
            Ok(Some(version)) => *deleted_at < version.observed_at,
            _ => false,
        },
        Change::TagRemoved { tag_id, modified_at } => match database.tag_modified_at(*tag_id) {
            Ok(Some(defined_at)) => *modified_at < defined_at,
            _ => false,
        },
        _ => false,
    }
}

/// Appends a move of a file in each chosen directory.
fn move_in(
    configuration: &Configuration,
    chosen: &Vec<usize>,
    file_id: FileId,
    logical_path: &LogicalPath,
    actions: &mut Vec<Action>,
)
    requires
        forall|k: int|
            0 <= k < chosen@.len() ==> #[trigger] chosen@[k]
                < configuration.sync_directories@.len(),
    ensures
        action_views(final(actions)@) == action_views(old(actions)@) + commanded(
            move_commands(
                picked(*configuration, chosen@),
                file_id,
                logical_path@,
            ),
        ),
{
    let ghost given = action_views(actions@);
    let ghost wanted = commanded(
        move_commands(
            picked(*configuration, chosen@),
            file_id,
            logical_path@,
        ),
    );
    let mut k: usize = 0;
    assert(given + wanted.take(0) =~= given);
    while k < chosen.len()
        invariant
            k <= chosen.len(),
            wanted == commanded(
                move_commands(
                    picked(*configuration, chosen@),
                    file_id,
                    logical_path@,
                ),
            ),
            forall|j: int|
                0 <= j < chosen@.len() ==> #[trigger] chosen@[j]
                    < configuration.sync_directories@.len(),
            action_views(actions@) == given + wanted.take(k as int),
        decreases chosen.len() - k,
    {
        let directory = &configuration.sync_directories[chosen[k]];
        let ghost before = actions@;
        actions.push(
            Action::Command(
                SyncDirectoryCommand::MoveFile {
                    file_id,
                    physical_path: directory.sync_type.physical_for(logical_path, file_id),
                    sync_directory_path: directory.path.clone(),
                },
            ),
        );
        proof {
            assert(action_views(actions@) =~= action_views(before).push(actions@.last()@));
            assert(given + wanted.take(k + 1) =~= (given + wanted.take(k as int)).push(
                wanted[k as int],
            ));
        }
        k = k + 1;
    }
    assert(wanted.take(k as int) =~= wanted);
}

/// Appends the removal of a file from each chosen directory.
fn remove_from(
    configuration: &Configuration,
    chosen: &Vec<usize>,
    file_id: FileId,
    actions: &mut Vec<Action>,
)
    requires
        forall|k: int|
            0 <= k < chosen@.len() ==> #[trigger] chosen@[k]
                < configuration.sync_directories@.len(),
    ensures
        action_views(final(actions)@) == action_views(old(actions)@) + commanded(
            remove_commands(
                picked(*configuration, chosen@),
                file_id,
            ),
        ),
{
    let ghost given = action_views(actions@);
    let ghost wanted = commanded(
        remove_commands(
            picked(*configuration, chosen@),
            file_id,
        ),
    );
    let mut k: usize = 0;
    assert(given + wanted.take(0) =~= given);
    while k < chosen.len()
        invariant
            k <= chosen.len(),
            wanted == commanded(
                remove_commands(
                    picked(*configuration, chosen@),
                    file_id,
                ),
            ),
            forall|j: int|
                0 <= j < chosen@.len() ==> #[trigger] chosen@[j]
                    < configuration.sync_directories@.len(),
            action_views(actions@) == given + wanted.take(k as int),
        decreases chosen.len() - k,
    {
        let directory = &configuration.sync_directories[chosen[k]];
        let ghost before = actions@;
        actions.push(
            Action::Command(
                SyncDirectoryCommand::RemoveFile {
                    file_id,
                    sync_directory_path: directory.path.clone(),
                },
            ),
        );
        proof {
            assert(action_views(actions@) =~= action_views(before).push(actions@.last()@));
            assert(given + wanted.take(k + 1) =~= (given + wanted.take(k as int)).push(
                wanted[k as int],
            ));
        }
        k = k + 1;
    }
    assert(wanted.take(k as int) =~= wanted);
}

/// Applies one message of the ingest bus at wall-clock time `now`, and returns what
/// the daemon is to do.
pub fn handle_changes(
    configuration: &Configuration,
    runtime: &RuntimeConfiguration,
    database: &mut FileDatabase,
    message: DaemonMessage,
    now: i64,
) -> (r: Vec<Action>)
    ensures
        forall|here: ChangeOrigin| #[trigger]
            is_user_interface(here) ==> (final(database)@, action_views(r@)) == after_message(
                *configuration,
                *runtime,
                old(database)@,
                message,
                now,
                here,
            ),
{
    match message {
        DaemonMessage::Change(Ingest::Content(change), origin) => handle_content_change(
            configuration,
            runtime,
            database,
            change,
            &origin,
            now,
        ),
        DaemonMessage::Change(Ingest::Meta(change), origin) => handle_meta_change(
            configuration,
            runtime,
            database,
            change,
            &origin,
        ),
        DaemonMessage::Fetch { file_id, expected_hash, respond_to } => {
            let mut actions: Vec<Action> = Vec::new();
            actions.push(Action::ReadLocal { file_id, expected_hash, respond_to });
            assert(action_views(actions@) =~= seq![actions@[0]@]);
            actions
        },
        DaemonMessage::Materialize { file_id, content, content_hash, origin, placement } => {
            handle_materialize(
                configuration,
                runtime,
                database,
                file_id,
                content,
                content_hash,
                &origin,
                placement,
                now,
            )
        },
        DaemonMessage::ReconcilePlacement { file_id } => {
            let mut actions: Vec<Action> = Vec::new();
            assert(action_views(actions@) =~= Seq::<ActionView>::empty());
            reconcile_tag_placement(database, file_id, &mut actions);
            assert(action_views(actions@) =~= placed_anew(database@, file_id));
            seek(configuration, database, file_id, &mut actions);
            actions
        },
        DaemonMessage::CatalogFile { file_id, logical_path, content_hash, origin } => {
            handle_catalog(
                configuration,
                runtime,
                database,
                file_id,
                logical_path,
                content_hash,
                &origin,
                now,
            )
        },
        DaemonMessage::AnnounceProvided { file_id, logical_path, content_hash, tags, .. } => {
            let here = ChangeOrigin::Local { directory_path: String::new() };
            handle_provided(
                configuration,
                runtime,
                database,
                file_id,
                logical_path,
                content_hash,
                tags,
                &here,
                now,
            )
        },
    }
}

/// Whether an origin is the user interface: local, without a directory.
pub open spec fn is_user_interface(origin: ChangeOrigin) -> bool {
    origin matches ChangeOrigin::Local { directory_path } && directory_path@.len() == 0
}

/// Applies a file that a client provides.
fn handle_provided(
    configuration: &Configuration,
    runtime: &RuntimeConfiguration,
    database: &mut FileDatabase,
    file_id: FileId,
    logical_path: Option<LogicalPath>,
    content_hash: String,
    tags: Vec<TagId>,
    here: &ChangeOrigin,
    now: i64,
) -> (r: Vec<Action>)
    requires
        is_user_interface(*here),
    ensures
        forall|other: ChangeOrigin| #[trigger]
            is_user_interface(other) ==> (final(database)@, action_views(r@)) == after_provided(
                *configuration,
                *runtime,
                old(database)@,
                file_id,
                logical_path,
                content_hash,
                tags@,
                other,
                now,
            ),
{
    let mut actions: Vec<Action> = Vec::new();
    assert(action_views(actions@) =~= Seq::<ActionView>::empty());
    let hash = content_hash.clone();
    let added = logical_path.is_some();
    let change = match logical_path {
        Some(logical_path) => {
            if database.add_file(file_id, &logical_path).is_err() {
                return actions;
            }
            Change::FileMetadataAdded { file_id, logical_path, content_hash, tags }
        },
        None => Change::FileMetadataChanged { file_id, content_hash },
    };
    let recorded = record(database, file_id, hash.as_str(), now, here);
    let ghost view = change@;
    announce(configuration, runtime, change, here, added || recorded, &mut actions);
    proof {
        assert forall|other: ChangeOrigin| #[trigger] is_user_interface(other) implies forwarded(
            *configuration,
            *runtime,
            view,
            other,
        ) == forwarded(*configuration, *runtime, view, *here) by {
            lemma_local_forwards_alike(
                configuration.peers@,
                *runtime,
                view,
                other,
                *here,
                configuration.peers@.len() as int,
            );
        }
        let sent = forwarded(*configuration, *runtime, view, *here);
        assert(Seq::<ActionView>::empty() + sent =~= sent);
    }
    actions
}

/// Every local change is sent to the same peers.
proof fn lemma_local_forwards_alike(
    peers: Seq<Peer>,
    runtime: RuntimeConfiguration,
    change: ChangeView,
    a: ChangeOrigin,
    b: ChangeOrigin,
    n: int,
)
    requires
        a is Local,
        b is Local,
    ensures
        forwarded_to(peers, runtime, change, a, n) == forwarded_to(peers, runtime, change, b, n),
    decreases n,
{
    if n > 0 {
        lemma_local_forwards_alike(peers, runtime, change, a, b, n - 1);
    }
}

/// How a fetch goes on after the sync directories were searched.
#[derive(Debug)]
pub enum FetchStep {
    /// The file was found with the wanted content.
    Answer(FileBytes),
    /// The peers are to be asked.
    AskPeers,
}

/// Whether a fetch goes on as it should, given what the sync directories hold of the file.
pub open spec fn fetch_decided(
    expected_hash: Seq<char>,
    found: Option<(FileBytes, String)>,
    step: FetchStep,
) -> bool {
    match found {
        Some((content, hash)) => if hash@ == expected_hash {
            step == FetchStep::Answer(content)
        } else {
            step == FetchStep::AskPeers
        },
        None => step == FetchStep::AskPeers,
    }
}

/// Decides how a fetch goes on, given what the sync directories hold of the file:
/// its content and the hash of that.
pub fn answer_fetch(expected_hash: &str, found: Option<(FileBytes, String)>) -> (r: FetchStep)
    ensures
        match found {
            Some((content, hash)) => if hash@ == expected_hash@ {
                r == FetchStep::Answer(content)
            } else {
                r == FetchStep::AskPeers
            },
            None => r == FetchStep::AskPeers,
        },
        fetch_decided(expected_hash@, found, r),
{
    match found {
        Some((content, hash)) => if same_text(hash.as_str(), expected_hash) {
            FetchStep::Answer(content)
        } else {
            FetchStep::AskPeers
        },
        None => FetchStep::AskPeers,
    }
}

/// Whether the peers are asked for a content, given the digest of what the sync directories
/// hold of the file.
pub open spec fn is_missing(held: Option<Seq<char>>, wanted: Seq<char>) -> bool {
    held != Some(wanted)
}

/// Decides how a search for the bytes of a file goes on, given the digest of what the sync
/// directories hold of it: the peers are asked unless that is the content sought.
pub fn answer_seek(expected_hash: &str, held_hash: &Option<String>) -> (r: bool)
    ensures
        r == is_missing(optional_text(*held_hash), expected_hash@),
{
    match held_hash {
        Some(held) => !same_text(held.as_str(), expected_hash),
        None => true,
    }
}

/// Whether the bytes that a search brought become what they should.
pub open spec fn search_ended(
    db: DatabaseView,
    file_id: FileId,
    expected_hash: String,
    logical_path: LogicalPath,
    tags: Vec<TagId>,
    held: bool,
    content: FileBytes,
    message: Option<DaemonMessage>,
) -> bool {
    if is_current(db, file_id, expected_hash@) {
        message matches Some(
            DaemonMessage::Materialize { file_id: f, content: c, content_hash, origin, placement },
        ) && f == file_id && c == content && content_hash == expected_hash && is_user_interface(
            origin,
        ) && placement == (if held {
            MaterializePlacement::Change
        } else {
            MaterializePlacement::Create { logical_path, tags }
        })
    } else {
        message is None
    }
}

/// What becomes of bytes that a search brought: they are placed, where the version that was
/// sought is still the latest. `held` tells whether the sync directories hold another
/// content of the file, which the bytes replace.
pub fn sought_arrived(
    database: &FileDatabase,
    file_id: FileId,
    expected_hash: String,
    logical_path: LogicalPath,
    tags: Vec<TagId>,
    held: bool,
    content: FileBytes,
) -> (r: Option<DaemonMessage>)
    ensures
        if is_current(database@, file_id, expected_hash@) {
            r matches Some(
                DaemonMessage::Materialize {
                    file_id: f,
                    content: c,
                    content_hash,
                    origin,
                    placement,
                },
            ) && f == file_id && c == content && content_hash == expected_hash && is_user_interface(
                origin,
            ) && placement == (if held {
                MaterializePlacement::Change
            } else {
                MaterializePlacement::Create { logical_path, tags }
            })
        } else {
            r is None
        },
        search_ended(
            database@,
            file_id,
            expected_hash,
            logical_path,
            tags,
            held,
            content,
            r,
        ),
{
    if !holds_current(database, file_id, expected_hash.as_str()) {
        return None;
    }
    let placement = if held {
        MaterializePlacement::Change
    } else {
        MaterializePlacement::Create { logical_path, tags }
    };
    Some(
        DaemonMessage::Materialize {
            file_id,
            content,
            content_hash: expected_hash,
            origin: ChangeOrigin::Local { directory_path: String::new() },
            placement,
        },
    )
}

/// Whether an action sends a change to one of the first `n` peers that receive it.
pub open spec fn is_sent_to(
    peers: Seq<Peer>,
    runtime: RuntimeConfiguration,
    change: ChangeView,
    origin: ChangeOrigin,
    n: int,
    action: ActionView,
) -> bool {
    exists|i: int|
        0 <= i < n && receives(runtime, origin, #[trigger] peers[i]) && action
            == (ActionView::Send { public_key: peers[i].public_key@, change })
}

/// A change never goes back to the peer it came from, and goes only to configured
/// peers that are connected.
pub proof fn law_no_echo(
    configuration: Configuration,
    runtime: RuntimeConfiguration,
    change: ChangeView,
    origin: ChangeOrigin,
)
    ensures
        forall|k: int|
            0 <= k < forwarded(configuration, runtime, change, origin).len() ==> is_sent_to(
                configuration.peers@,
                runtime,
                change,
                origin,
                configuration.peers@.len() as int,
                #[trigger] forwarded(configuration, runtime, change, origin)[k],
            ),
{
    lemma_no_echo(
        configuration.peers@,
        runtime,
        change,
        origin,
        configuration.peers@.len() as int,
    );
}

proof fn lemma_no_echo(
    peers: Seq<Peer>,
    runtime: RuntimeConfiguration,
    change: ChangeView,
    origin: ChangeOrigin,
    n: int,
)
    requires
        0 <= n <= peers.len(),
    ensures
        forall|k: int|
            0 <= k < forwarded_to(peers, runtime, change, origin, n).len() ==> is_sent_to(
                peers,
                runtime,
                change,
                origin,
                n,
                #[trigger] forwarded_to(peers, runtime, change, origin, n)[k],
            ),
    decreases n,
{
    if n > 0 {
        lemma_no_echo(peers, runtime, change, origin, n - 1);
        let before = forwarded_to(peers, runtime, change, origin, n - 1);
        let all = forwarded_to(peers, runtime, change, origin, n);
        assert forall|k: int| 0 <= k < all.len() implies is_sent_to(
            peers,
            runtime,
            change,
            origin,
            n,
            #[trigger] all[k],
        ) by {
            if k < before.len() {
                assert(all[k] == before[k]);
                assert(is_sent_to(peers, runtime, change, origin, n - 1, before[k]));
                let i = choose|i: int|
                    0 <= i < n - 1 && receives(runtime, origin, #[trigger] peers[i]) && before[k]
                        == (ActionView::Send { public_key: peers[i].public_key@, change });
                assert(receives(runtime, origin, peers[i]));
            } else {
                assert(receives(runtime, origin, peers[n - 1]));
            }
        }
    }
}

/// Whether actions send a change to a peer.
pub open spec fn is_told(
    actions: Seq<ActionView>,
    public_key: Seq<char>,
    change: ChangeView,
) -> bool {
    actions.contains(ActionView::Send { public_key, change })
}

proof fn lemma_all_are_told(
    peers: Seq<Peer>,
    runtime: RuntimeConfiguration,
    change: ChangeView,
    origin: ChangeOrigin,
    n: int,
    i: int,
)
    requires
        0 <= i < n <= peers.len(),
        receives(runtime, origin, peers[i]),
    ensures
        is_told(
            forwarded_to(peers, runtime, change, origin, n),
            peers[i].public_key@,
            change,
        ),
    decreases n,
{
    let before = forwarded_to(peers, runtime, change, origin, n - 1);
    let all = forwarded_to(peers, runtime, change, origin, n);
    let sent = ActionView::Send { public_key: peers[i].public_key@, change };
    if i < n - 1 {
        lemma_all_are_told(peers, runtime, change, origin, n - 1, i);
        let k = choose|k: int| 0 <= k < before.len() && before[k] == sent;
        assert(all[k] == sent);
    } else {
        assert(all[before.len() as int] == sent);
    }
}

/// A change that is passed on reaches every configured peer that is connected, but the one
/// that it came from.
pub proof fn law_forwarding_reaches_every_other_peer(
    configuration: Configuration,
    runtime: RuntimeConfiguration,
    change: ChangeView,
    origin: ChangeOrigin,
    i: int,
)
    requires
        0 <= i < configuration.peers@.len(),
        receives(runtime, origin, configuration.peers@[i]),
    ensures
        is_told(
            forwarded(configuration, runtime, change, origin),
            configuration.peers@[i].public_key@,
            change,
        ),
{
    lemma_all_are_told(
        configuration.peers@,
        runtime,
        change,
        origin,
        configuration.peers@.len() as int,
        i,
    );
}

/// What a peer's manifest announced is announced onward when it goes on record, to every
/// other peer that is connected, and when its bytes arrive nobody is told again.
pub proof fn law_a_catalogued_version_is_announced_once(
    configuration: Configuration,
    runtime: RuntimeConfiguration,
    db: DatabaseView,
    file_id: FileId,
    logical_path: LogicalPath,
    content_hash: String,
    origin: ChangeOrigin,
    content: BytesView,
    place: PlacementView,
    now: i64,
    later: i64,
    i: int,
)
    requires
        has_room(db, file_id),
        0 <= i < configuration.peers@.len(),
        receives(runtime, origin, configuration.peers@[i]),
    ensures
        ({
            let (catalogued, first) = after_catalog(
                configuration,
                runtime,
                db,
                file_id,
                logical_path,
                content_hash,
                origin,
                now,
            );
            let second = after_materialize(
                configuration,
                runtime,
                catalogued,
                file_id,
                content,
                content_hash,
                origin,
                place,
                later,
            ).1;
            &&& is_told(
                first,
                configuration.peers@[i].public_key@,
                announcement(file_id, content_hash, catalogued_as(db, file_id, logical_path)),
            )
            &&& forall|k: int| 0 <= k < second.len() ==> !(#[trigger] second[k] is Send)
        }),
{
    let wire = announcement(file_id, content_hash, catalogued_as(db, file_id, logical_path));
    let key = configuration.peers@[i].public_key@;
    let sent = forwarded(configuration, runtime, wire, origin);
    law_forwarding_reaches_every_other_peer(configuration, runtime, wire, origin, i);
    let (catalogued, first) = after_catalog(
        configuration,
        runtime,
        db,
        file_id,
        logical_path,
        content_hash,
        origin,
        now,
    );
    let k = choose|k: int|
        0 <= k < sent.len() && sent[k] == (ActionView::Send { public_key: key, change: wire });
    assert(first[k] == sent[k]);
    law_recorded_content_is_only_placed(
        configuration,
        runtime,
        catalogued,
        file_id,
        content,
        content_hash,
        origin,
        place,
        later,
    );
}

/// Bytes that were pulled after a live announcement are announced onward once they are
/// here, to every other peer that is connected.
pub proof fn law_pulled_content_is_announced(
    configuration: Configuration,
    runtime: RuntimeConfiguration,
    db: DatabaseView,
    file_id: FileId,
    content: BytesView,
    content_hash: String,
    origin: ChangeOrigin,
    place: PlacementView,
    now: i64,
    i: int,
)
    requires
        !is_current(db, file_id, content_hash@),
        0 <= i < configuration.peers@.len(),
        receives(runtime, origin, configuration.peers@[i]),
    ensures
        is_told(
            after_materialize(
                configuration,
                runtime,
                db,
                file_id,
                content,
                content_hash,
                origin,
                place,
                now,
            ).1,
            configuration.peers@[i].public_key@,
            announcement(file_id, content_hash, place),
        ),
{
    let wire = announcement(file_id, content_hash, place);
    let key = configuration.peers@[i].public_key@;
    let sent = forwarded(configuration, runtime, wire, origin);
    let placing = placed(configuration, db, file_id, content, origin, place);
    law_forwarding_reaches_every_other_peer(configuration, runtime, wire, origin, i);
    let k = choose|k: int|
        0 <= k < sent.len() && sent[k] == (ActionView::Send { public_key: key, change: wire });
    let actions = after_materialize(
        configuration,
        runtime,
        db,
        file_id,
        content,
        content_hash,
        origin,
        place,
        now,
    ).1;
    assert(actions[placing.len() + k] == sent[k]);
}

/// Bytes that never arrived are sought again: a look at where a file belongs has the peers
/// asked for its latest version, where some directory wants it and what is held of it is
/// another content or nothing.
pub proof fn law_a_missed_version_is_sought(
    configuration: Configuration,
    runtime: RuntimeConfiguration,
    db: DatabaseView,
    file_id: FileId,
    held: Option<Seq<char>>,
    now: i64,
    here: ChangeOrigin,
)
    requires
        db.files.contains_key(file_id),
        db.history(file_id).len() > 0,
        is_wanted(configuration, tags_on(db, file_id)),
        held != Some(db.history(file_id).last().content_hash),
    ensures
        ({
            let latest = db.history(file_id).last().content_hash;
            let actions = after_message(
                configuration,
                runtime,
                db,
                DaemonMessage::ReconcilePlacement { file_id },
                now,
                here,
            ).1;
            &&& actions.contains(
                ActionView::Seek {
                    file_id,
                    expected_hash: latest,
                    logical_path: db.files[file_id],
                    tags: tags_on(db, file_id),
                },
            )
            &&& is_missing(held, latest)
        }),
{
    let actions = after_message(
        configuration,
        runtime,
        db,
        DaemonMessage::ReconcilePlacement { file_id },
        now,
        here,
    ).1;
    assert(actions[1] == sought(configuration, db, file_id)[0]);
}

/// A change without bytes that arrives twice leaves the database as it was after the
/// first time.
pub proof fn law_replay_changes_nothing(db: DatabaseView, change: Change)
    ensures
        db_after_change(db_after_change(db, change), change) == db_after_change(db, change),
{
    let once = db_after_change(db, change);
    let twice = db_after_change(once, change);
    assert(twice.files =~= once.files);
    assert(twice.tags =~= once.tags);
    assert(twice.entries =~= once.entries);
}

/// A deletion that comes too late removes nothing: the tag or the file, and every copy of
/// it, stay.
pub proof fn law_a_stale_deletion_is_ignored(
    configuration: Configuration,
    runtime: RuntimeConfiguration,
    db: DatabaseView,
    change: Change,
    origin: ChangeOrigin,
)
    requires
        is_stale_deletion(db, change),
    ensures
        after_change(configuration, runtime, db, change, origin).0 == db,
        local_actions(configuration, runtime, db, change, origin) == Seq::<ActionView>::empty(),
{
}

/// Every change that is applied is told to the user interface: a message that changes the
/// database leads to a publication.
pub proof fn law_applied_changes_are_published(
    configuration: Configuration,
    runtime: RuntimeConfiguration,
    db: DatabaseView,
    message: DaemonMessage,
    now: i64,
    here: ChangeOrigin,
)
    requires
        after_message(configuration, runtime, db, message, now, here).0 != db,
    ensures
        ({
            let actions = after_message(configuration, runtime, db, message, now, here).1;
            actions.len() > 0 && actions.last() is Publish
        }),
{
}

/// Bytes whose version is on record as the latest are only placed: nothing is recorded,
/// sent to a peer or published.
pub proof fn law_recorded_content_is_only_placed(
    configuration: Configuration,
    runtime: RuntimeConfiguration,
    db: DatabaseView,
    file_id: FileId,
    content: BytesView,
    content_hash: String,
    origin: ChangeOrigin,
    place: PlacementView,
    now: i64,
)
    requires
        is_current(db, file_id, content_hash@),
    ensures
        ({
            let (after, actions) = after_materialize(
                configuration,
                runtime,
                db,
                file_id,
                content,
                content_hash,
                origin,
                place,
                now,
            );
            &&& after == db
            &&& forall|k: int|
                0 <= k < actions.len() ==> (#[trigger] actions[k] is Command
                    || actions[k] is RemoveSource)
        }),
{
}

/// A file that was put on record when a peer announced it is on record once: the arrival of
/// its bytes adds no version.
pub proof fn law_a_catalogued_file_is_recorded_once(
    configuration: Configuration,
    runtime: RuntimeConfiguration,
    db: DatabaseView,
    file_id: FileId,
    logical_path: LogicalPath,
    content_hash: String,
    origin: ChangeOrigin,
    content: BytesView,
    place: PlacementView,
    now: i64,
    later: i64,
)
    requires
        has_room(db, file_id),
    ensures
        ({
            let catalogued = after_catalog(
                configuration,
                runtime,
                db,
                file_id,
                logical_path,
                content_hash,
                origin,
                now,
            ).0;
            &&& catalogued.history(file_id).len() == db.history(file_id).len() + 1
            &&& after_materialize(
                configuration,
                runtime,
                catalogued,
                file_id,
                content,
                content_hash,
                origin,
                place,
                later,
            ).0 == catalogued
        }),
{
}

/// A peer's announcement of content is passed on as it is only by a device that has that
/// content on record as the latest version.
pub proof fn law_passed_on_where_current(db: DatabaseView, change: Change)
    requires
        is_forwarded(db, change),
    ensures
        change matches Change::FileMetadataAdded { file_id, content_hash, .. } ==> is_current(
            db,
            file_id,
            content_hash@,
        ),
        change matches Change::FileMetadataChanged { file_id, content_hash } ==> is_current(
            db,
            file_id,
            content_hash@,
        ),
{
}

/// Whether an action hands a content over to be moved.
pub open spec fn hands_over(action: ActionView) -> bool {
    action matches ActionView::Command(CommandView::CreateFile { content, .. })
        && content is FileToMove
}

/// A content that is to be moved is handed to one directory at most: where several
/// get the file, each copies it.
pub proof fn law_moved_at_most_once(
    configuration: Configuration,
    skip: Skip,
    origin: ChangeOrigin,
    file_id: FileId,
    logical_path: Seq<char>,
    tags: Seq<TagId>,
    content: BytesView,
)
    ensures
        ({
            let actions = created(
                configuration,
                skip,
                origin,
                file_id,
                logical_path,
                tags,
                content,
            );
            forall|i: int, j: int|
                0 <= i < j < actions.len() ==> !(hands_over(#[trigger] actions[i]) && hands_over(
                    #[trigger] actions[j],
                ))
        }),
{
}

/// A new file is created only in directories that want it: universal ones, and those
/// all of whose tags it carries.
pub proof fn law_created_where_wanted(
    configuration: Configuration,
    skip: Skip,
    origin: ChangeOrigin,
    tags: Seq<TagId>,
)
    ensures
        forall|k: int|
            0 <= k < all_concerned(configuration, skip, origin, tags).len() ==> wants(
                (#[trigger] all_concerned(configuration, skip, origin, tags)[k]).sync_type@,
                tags,
            ),
{
    lemma_concerned_want(
        configuration.sync_directories@,
        skip,
        origin,
        tags,
        configuration.sync_directories@.len() as int,
    );
}

proof fn lemma_concerned_want(
    directories: Seq<SyncDirectory>,
    skip: Skip,
    origin: ChangeOrigin,
    tags: Seq<TagId>,
    n: int,
)
    ensures
        forall|k: int|
            0 <= k < concerned(directories, skip, origin, tags, n).len() ==> concerns(
                skip,
                origin,
                tags,
                #[trigger] concerned(directories, skip, origin, tags, n)[k],
            ),
    decreases n,
{
    if n > 0 {
        lemma_concerned_want(directories, skip, origin, tags, n - 1);
        let before = concerned(directories, skip, origin, tags, n - 1);
        let all = concerned(directories, skip, origin, tags, n);
        assert forall|k: int| 0 <= k < all.len() implies concerns(
            skip,
            origin,
            tags,
            #[trigger] all[k],
        ) by {
            if k < before.len() {
                assert(all[k] == before[k]);
            }
        }
    }
}

} // verus!
