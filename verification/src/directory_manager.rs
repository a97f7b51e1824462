//! The sync directories of this device.

use vstd::prelude::*;

pub mod events;
pub mod laws;
pub mod placement;
pub mod self_writes;
pub mod walk;

use crate::configuration::{SyncType, SyncTypeView};
use crate::database::sync_directory::SyncDirectoryDatabase;
use crate::file_bytes::{BytesView, FileBytes};
use crate::ids::{id_text, FileId, TagId};
use crate::path_text::{appended, components, is_under, join_path, lies_under, texts};
use crate::state::{LogicalPath, PhysicalPath};
use crate::text::optional_text;
use self::placement::{holding_paths, PlacementRun, RunView, SourceView};
use self::self_writes::{after_event, SelfWrites};

verus! {

/// A command to the manager of the sync directories. Whoever waits for an answer is
/// named by a number.
#[derive(Debug)]
pub enum SyncDirectoryCommand {
    /// Create a file in a directory.
    CreateFile {
        file_id: FileId,
        physical_path: PhysicalPath,
        content: FileBytes,
        sync_directory_path: String,
    },
    /// Overwrite a file in a directory.
    ChangeFile { file_id: FileId, content: FileBytes, sync_directory_path: String },
    /// Move a file within a directory.
    MoveFile { file_id: FileId, physical_path: PhysicalPath, sync_directory_path: String },
    /// Remove a file from a directory.
    RemoveFile { file_id: FileId, sync_directory_path: String },
    /// Place a file where its tags ask for it, and remove it where they do not.
    ReconcileTagPlacement { file_id: FileId, logical_path: LogicalPath, file_tags: Vec<TagId> },
    /// Where does a file lie on disk?
    LocalPath { file_id: FileId, respond_to: u64 },
    /// What are a file's bytes?
    ReadFile { file_id: FileId, respond_to: u64 },
}

/// The mathematical value of a [`SyncDirectoryCommand`].
#[verifier::ext_equal]
pub enum CommandView {
    CreateFile {
        file_id: FileId,
        physical_path: Seq<char>,
        content: BytesView,
        sync_directory_path: Seq<char>,
    },
    ChangeFile { file_id: FileId, content: BytesView, sync_directory_path: Seq<char> },
    MoveFile { file_id: FileId, physical_path: Seq<char>, sync_directory_path: Seq<char> },
    RemoveFile { file_id: FileId, sync_directory_path: Seq<char> },
    ReconcileTagPlacement { file_id: FileId, logical_path: Seq<char>, file_tags: Seq<TagId> },
    LocalPath { file_id: FileId, respond_to: u64 },
    ReadFile { file_id: FileId, respond_to: u64 },
}

impl View for SyncDirectoryCommand {
    type V = CommandView;

    open spec fn view(&self) -> CommandView {
        match *self {
            SyncDirectoryCommand::CreateFile {
                file_id,
                physical_path,
                content,
                sync_directory_path,
            } => CommandView::CreateFile {
                file_id,
                physical_path: physical_path@,
                content: content@,
                sync_directory_path: sync_directory_path@,
            },
            SyncDirectoryCommand::ChangeFile { file_id, content, sync_directory_path } =>
                CommandView::ChangeFile {
                    file_id,
                    content: content@,
                    sync_directory_path: sync_directory_path@,
                },
            SyncDirectoryCommand::MoveFile { file_id, physical_path, sync_directory_path } =>
                CommandView::MoveFile {
                    file_id,
                    physical_path: physical_path@,
                    sync_directory_path: sync_directory_path@,
                },
            SyncDirectoryCommand::RemoveFile { file_id, sync_directory_path } =>
                CommandView::RemoveFile { file_id, sync_directory_path: sync_directory_path@ },
            SyncDirectoryCommand::ReconcileTagPlacement { file_id, logical_path, file_tags } =>
                CommandView::ReconcileTagPlacement {
                    file_id,
                    logical_path: logical_path@,
                    file_tags: file_tags@,
                },
            SyncDirectoryCommand::LocalPath { file_id, respond_to } => CommandView::LocalPath {
                file_id,
                respond_to,
            },
            SyncDirectoryCommand::ReadFile { file_id, respond_to } => CommandView::ReadFile {
                file_id,
                respond_to,
            },
        }
    }
}

/// Why a command or an event could not be handled.
#[derive(Debug, Clone, Copy, PartialEq, Eq, Structural)]
pub enum SyncDirectoryError {
    /// No sync directory holds the path.
    UnmonitoredDirectory,
    FailedToReadFile,
    /// No file of the directory has that name on disk.
    MissingTrackedFile,
    FailedAddingFile,
    FailedChangingFile,
    FailedMovingFile,
    FailedRemovingFile,
}

/// A sync directory and the files that it holds.
pub struct RichSyncDirectory {
    pub path: String,
    pub sync_type: SyncType,
    pub database: SyncDirectoryDatabase,
}

/// The mathematical value of a [`RichSyncDirectory`].
#[verifier::ext_equal]
pub struct DirectoryView {
    pub path: Seq<char>,
    pub kind: SyncTypeView,
    /// The name on disk of each file.
    pub files: Map<FileId, Seq<char>>,
}

impl View for RichSyncDirectory {
    type V = DirectoryView;

    open spec fn view(&self) -> DirectoryView {
        DirectoryView { path: self.path@, kind: self.sync_type@, files: self.database@ }
    }
}

impl DirectoryView {
    /// Where a file of the directory lies.
    pub open spec fn stored_at(self, file_id: FileId) -> Seq<char> {
        appended(
            self.path,
            if self.kind is Universal {
                id_text(file_id.value)
            } else {
                self.files[file_id]
            },
        )
    }

    /// Where the row of a file says that it lies.
    pub open spec fn recorded_at(self, file_id: FileId) -> Seq<char> {
        appended(self.path, self.files[file_id])
    }
}

/// The sync directories of this device, and what the daemon wrote into them.
pub struct SyncDirectoryManager {
    pub sync_directories: Vec<RichSyncDirectory>,
    pub self_writes: SelfWrites,
}

/// The mathematical value of a [`SyncDirectoryManager`].
#[verifier::ext_equal]
pub struct ManagerView {
    pub directories: Seq<DirectoryView>,
    pub writes: Map<Seq<Seq<char>>, Option<Seq<char>>>,
}

impl View for SyncDirectoryManager {
    type V = ManagerView;

    open spec fn view(&self) -> ManagerView {
        ManagerView {
            directories: self.sync_directories@.map_values(|d: RichSyncDirectory| d@),
            writes: self.self_writes@,
        }
    }
}

impl ManagerView {
    /// The state with other files in a directory.
    pub open spec fn with_files(self, i: int, files: Map<FileId, Seq<char>>) -> ManagerView {
        ManagerView {
            directories: self.directories.update(i, DirectoryView { files, ..self.directories[i] }),
            ..self
        }
    }

    /// The state with a write recorded.
    pub open spec fn with_write(self, path: Seq<char>, hash: Option<Seq<char>>) -> ManagerView {
        ManagerView { writes: self.writes.insert(components(path), hash), ..self }
    }

    /// The state once an event for a path has been matched with the records.
    pub open spec fn matched(self, path: Seq<char>, observed: Option<Seq<char>>) -> ManagerView {
        ManagerView { writes: after_event(self.writes, path, observed), ..self }
    }
}

/// The first directory, from the `i`-th on, that a path lies under.
pub open spec fn first_directory(
    directories: Seq<DirectoryView>,
    path: Seq<char>,
    i: int,
) -> Option<int>
    decreases directories.len() - i,
{
    if i < 0 || directories.len() <= i {
        None
    } else if is_under(path, directories[i].path) {
        Some(i)
    } else {
        first_directory(directories, path, i + 1)
    }
}

/// The directory that a path lies under.
pub open spec fn directory_for(directories: Seq<DirectoryView>, path: Seq<char>) -> Option<int> {
    first_directory(directories, path, 0)
}

/// What remains to be recorded once the disk has been changed.
#[derive(Debug, Clone, PartialEq, Eq)]
pub enum Finish {
    Created { directory: usize, file_id: FileId, physical_path: PhysicalPath, file_path: String },
    Changed { file_path: String },
    Moved { from: String, to: String },
    Removed { directory: usize, file_id: FileId, file_path: String },
}

/// The mathematical value of a [`Finish`].
#[verifier::ext_equal]
pub enum FinishView {
    Created { directory: int, file_id: FileId, physical_path: Seq<char>, file_path: Seq<char> },
    Changed { file_path: Seq<char> },
    Moved { from: Seq<char>, to: Seq<char> },
    Removed { directory: int, file_id: FileId, file_path: Seq<char> },
}

impl View for Finish {
    type V = FinishView;

    open spec fn view(&self) -> FinishView {
        match *self {
            Finish::Created { directory, file_id, physical_path, file_path } =>
                FinishView::Created {
                    directory: directory as int,
                    file_id,
                    physical_path: physical_path@,
                    file_path: file_path@,
                },
            Finish::Changed { file_path } => FinishView::Changed { file_path: file_path@ },
            Finish::Moved { from, to } => FinishView::Moved { from: from@, to: to@ },
            Finish::Removed { directory, file_id, file_path } => FinishView::Removed {
                directory: directory as int,
                file_id,
                file_path: file_path@,
            },
        }
    }
}

/// What a command asks of the disk.
#[derive(Debug)]
pub enum DiskStep {
    /// Nothing.
    Done,
    /// Put content at a path, after creating the directory around it where
    /// `create_parent` says so.
    Write { file_path: String, create_parent: bool, content: FileBytes, finish: Finish },
    /// Create the directory around `to`, rename, and remove the directory around
    /// `from` if it is empty now.
    Rename { from: String, to: String, finish: Finish },
    /// Remove a file, and the directory around it if it is empty now and
    /// `clear_parent` says so.
    Remove { file_path: String, clear_parent: bool, finish: Finish },
    /// Place a file directory by directory.
    Place(PlacementRun),
    /// Answer with a path.
    AnswerPath { respond_to: u64, path: Option<String> },
    /// Answer with the first of these files that can be read: its name within the
    /// directory, and where it lies.
    Read { respond_to: u64, candidates: Vec<(PhysicalPath, String)> },
}

/// The mathematical value of a [`DiskStep`].
#[verifier::ext_equal]
pub enum DiskStepView {
    Done,
    Write {
        file_path: Seq<char>,
        create_parent: bool,
        content: BytesView,
        finish: FinishView,
    },
    Rename { from: Seq<char>, to: Seq<char>, finish: FinishView },
    Remove { file_path: Seq<char>, clear_parent: bool, finish: FinishView },
    Place(RunView),
    AnswerPath { respond_to: u64, path: Option<Seq<char>> },
    Read { respond_to: u64, candidates: Seq<(Seq<char>, Seq<char>)> },
}

impl View for DiskStep {
    type V = DiskStepView;

    open spec fn view(&self) -> DiskStepView {
        match *self {
            DiskStep::Done => DiskStepView::Done,
            DiskStep::Write { file_path, create_parent, content, finish } => DiskStepView::Write {
                file_path: file_path@,
                create_parent,
                content: content@,
                finish: finish@,
            },
            DiskStep::Rename { from, to, finish } => DiskStepView::Rename {
                from: from@,
                to: to@,
                finish: finish@,
            },
            DiskStep::Remove { file_path, clear_parent, finish } => DiskStepView::Remove {
                file_path: file_path@,
                clear_parent,
                finish: finish@,
            },
            DiskStep::Place(run) => DiskStepView::Place(run@),
            DiskStep::AnswerPath { respond_to, path } => DiskStepView::AnswerPath {
                respond_to,
                path: optional_text(path),
            },
            DiskStep::Read { respond_to, candidates } => DiskStepView::Read {
                respond_to,
                candidates: candidates@.map_values(|c: (PhysicalPath, String)| (c.0@, c.1@)),
            },
        }
    }
}

/// Where the first directory, from the `i`-th on, that holds a file says that it lies.
pub open spec fn local_path(
    directories: Seq<DirectoryView>,
    file_id: FileId,
    i: int,
) -> Option<Seq<char>>
    decreases directories.len() - i,
{
    if i < 0 || directories.len() <= i {
        None
    } else if directories[i].files.contains_key(file_id) {
        Some(directories[i].recorded_at(file_id))
    } else {
        local_path(directories, file_id, i + 1)
    }
}

/// The copies of a file in the first `n` directories: the name within the directory,
/// and where it lies.
pub open spec fn copies(directories: Seq<DirectoryView>, file_id: FileId, n: int) -> Seq<
    (Seq<char>, Seq<char>),
>
    decreases n,
{
    if n <= 0 {
        Seq::empty()
    } else {
        let before = copies(directories, file_id, n - 1);
        if directories[n - 1].files.contains_key(file_id) {
            before.push(
                (directories[n - 1].files[file_id], directories[n - 1].recorded_at(file_id)),
            )
        } else {
            before
        }
    }
}

/// What a command does to the state, and what it asks of the disk.
pub open spec fn after_command(before: ManagerView, command: CommandView) -> (
    ManagerView,
    Result<DiskStepView, SyncDirectoryError>,
) {
    match command {
        CommandView::CreateFile { file_id, physical_path, content, sync_directory_path } => {
            match directory_for(before.directories, sync_directory_path) {
                None => (before, Err(SyncDirectoryError::UnmonitoredDirectory)),
                Some(i) => {
                    let file_path = appended(before.directories[i].path, physical_path);
                    (
                        before,
                        Ok(
                            DiskStepView::Write {
                                file_path,
                                create_parent: true,
                                content,
                                finish: FinishView::Created {
                                    directory: i,
                                    file_id,
                                    physical_path,
                                    file_path,
                                },
                            },
                        ),
                    )
                },
            }
        },
        CommandView::ChangeFile { file_id, content, sync_directory_path } => {
            match directory_for(before.directories, sync_directory_path) {
                None => (before, Err(SyncDirectoryError::UnmonitoredDirectory)),
                Some(i) => {
                    let directory = before.directories[i];
                    if directory.kind is TagBased && !directory.files.contains_key(file_id) {
                        (before, Err(SyncDirectoryError::FailedChangingFile))
                    } else {
                        let file_path = directory.stored_at(file_id);
                        (
                            before,
                            Ok(
                                DiskStepView::Write {
                                    file_path,
                                    create_parent: false,
                                    content,
                                    finish: FinishView::Changed { file_path },
                                },
                            ),
                        )
                    }
                },
            }
        },
        CommandView::MoveFile { file_id, physical_path, sync_directory_path } => {
            match directory_for(before.directories, sync_directory_path) {
                None => (before, Err(SyncDirectoryError::UnmonitoredDirectory)),
                Some(i) => {
                    let directory = before.directories[i];
                    let held = directory.files.contains_key(file_id);
                    let after = before.with_files(i, directory.files.insert(file_id, physical_path));
                    if directory.kind is Universal {
                        (
                            if held {
                                after
                            } else {
                                before
                            },
                            Ok(DiskStepView::Done),
                        )
                    } else if !held {
                        (before, Err(SyncDirectoryError::FailedMovingFile))
                    } else {
                        let from = directory.recorded_at(file_id);
                        let to = appended(directory.path, physical_path);
                        (
                            after,
                            Ok(
                                DiskStepView::Rename {
                                    from,
                                    to,
                                    finish: FinishView::Moved { from, to },
                                },
                            ),
                        )
                    }
                },
            }
        },
        CommandView::RemoveFile { file_id, sync_directory_path } => {
            match directory_for(before.directories, sync_directory_path) {
                None => (before, Err(SyncDirectoryError::UnmonitoredDirectory)),
                Some(i) => {
                    let directory = before.directories[i];
                    if !directory.files.contains_key(file_id) {
                        (before, Err(SyncDirectoryError::FailedRemovingFile))
                    } else {
                        let file_path = directory.stored_at(file_id);
                        (
                            before,
                            Ok(
                                DiskStepView::Remove {
                                    file_path,
                                    clear_parent: directory.kind is TagBased,
                                    finish: FinishView::Removed {
                                        directory: i,
                                        file_id,
                                        file_path,
                                    },
                                },
                            ),
                        )
                    }
                },
            }
        },
        CommandView::ReconcileTagPlacement { file_id, logical_path, file_tags } => (
            before,
            Ok(
                DiskStepView::Place(
                    RunView {
                        file_id,
                        logical_path,
                        file_tags,
                        losing: false,
                        next: 0,
                        source: SourceView::Unknown,
                    },
                ),
            ),
        ),
        CommandView::LocalPath { file_id, respond_to } => (
            before,
            Ok(
                DiskStepView::AnswerPath {
                    respond_to,
                    path: local_path(before.directories, file_id, 0),
                },
            ),
        ),
        CommandView::ReadFile { file_id, respond_to } => (
            before,
            Ok(
                DiskStepView::Read {
                    respond_to,
                    candidates: copies(
                        before.directories,
                        file_id,
                        before.directories.len() as int,
                    ),
                },
            ),
        ),
    }
}

/// The state once the disk has been changed as a command asked. `hash` is the digest
/// of the content that was written.
pub open spec fn after_finish(
    before: ManagerView,
    finish: FinishView,
    hash: Option<Seq<char>>,
) -> (ManagerView, Result<(), SyncDirectoryError>) {
    match finish {
        FinishView::Created { directory, file_id, physical_path, file_path } => {
            if before.directories.len() <= directory {
                (before, Err(SyncDirectoryError::UnmonitoredDirectory))
            } else if before.directories[directory].files.contains_key(file_id) {
                (before, Err(SyncDirectoryError::FailedAddingFile))
            } else {
                let files = before.directories[directory].files.insert(file_id, physical_path);
                (before.with_files(directory, files).with_write(file_path, hash), Ok(()))
            }
        },
        FinishView::Changed { file_path } => (before.with_write(file_path, hash), Ok(())),
        FinishView::Moved { from, to } => (
            before.with_write(from, None).with_write(to, None),
            Ok(()),
        ),
        FinishView::Removed { directory, file_id, file_path } => {
            if before.directories.len() <= directory {
                (before, Err(SyncDirectoryError::UnmonitoredDirectory))
            } else {
                let files = before.directories[directory].files.remove(file_id);
                (before.with_files(directory, files).with_write(file_path, None), Ok(()))
            }
        },
    }
}

/// The mathematical value of the outcome of a command.
pub open spec fn outcome(r: Result<DiskStep, SyncDirectoryError>) -> Result<
    DiskStepView,
    SyncDirectoryError,
> {
    match r {
        Ok(step) => Ok(step@),
        Err(error) => Err(error),
    }
}

impl SyncDirectoryManager {
    /// A manager of directories.
    pub fn new(sync_directories: Vec<RichSyncDirectory>) -> (r: Self)
        ensures
            r.sync_directories == sync_directories,
            r@.writes == Map::<Seq<Seq<char>>, Option<Seq<char>>>::empty(),
    {
        SyncDirectoryManager { sync_directories, self_writes: SelfWrites::new() }
    }

    /// The directory that a path lies under.
    pub fn sync_directory_for_path(&self, path: &str) -> (r: Result<usize, SyncDirectoryError>)
        ensures
            match r {
                Ok(i) => i < self.sync_directories.len() && directory_for(
                    self@.directories,
                    path@,
                ) == Some(i as int) && is_under(path@, self@.directories[i as int].path),
                Err(error) => error == SyncDirectoryError::UnmonitoredDirectory && directory_for(
                    self@.directories,
                    path@,
                ) is None,
            },
    {
        let mut i: usize = 0;
        while i < self.sync_directories.len()
            invariant
                i <= self.sync_directories.len(),
                directory_for(self@.directories, path@) == first_directory(
                    self@.directories,
                    path@,
                    i as int,
                ),
            decreases self.sync_directories.len() - i,
        {
            if lies_under(path, self.sync_directories[i].path.as_str()) {
                return Ok(i);
            }
            i = i + 1;
        }
        Err(SyncDirectoryError::UnmonitoredDirectory)
    }

    /// Adds a row to a directory, unless the file has one.
    fn add_row(&mut self, i: usize, file_id: FileId, physical_path: &PhysicalPath) -> (r: bool)
        requires
            i < old(self).sync_directories.len(),
        ensures
            r == !old(self)@.directories[i as int].files.contains_key(file_id),
            final(self)@ == if r {
                old(self)@.with_files(
                    i as int,
                    old(self)@.directories[i as int].files.insert(file_id, physical_path@),
                )
            } else {
                old(self)@
            },
            final(self).sync_directories.len() == old(self).sync_directories.len(),
    {
        let ghost before = self@;
        let r = self.sync_directories[i].database.add_file(file_id, physical_path).is_ok();
        proof {
            if r {
                assert(self@.directories =~= before.with_files(
                    i as int,
                    before.directories[i as int].files.insert(file_id, physical_path@),
                ).directories);
            } else {
                assert(self@.directories =~= before.directories);
            }
        }
        r
    }

    /// Gives a file of a directory another name on disk.
    fn set_row(&mut self, i: usize, file_id: FileId, physical_path: &PhysicalPath)
        requires
            i < old(self).sync_directories.len(),
        ensures
            final(self)@ == if old(self)@.directories[i as int].files.contains_key(file_id) {
                old(self)@.with_files(
                    i as int,
                    old(self)@.directories[i as int].files.insert(file_id, physical_path@),
                )
            } else {
                old(self)@
            },
            final(self).sync_directories.len() == old(self).sync_directories.len(),
    {
        let ghost before = self@;
        let _ = self.sync_directories[i].database.update_file_physical_path(
            file_id,
            physical_path,
        );
        proof {
            if before.directories[i as int].files.contains_key(file_id) {
                assert(self@.directories =~= before.with_files(
                    i as int,
                    before.directories[i as int].files.insert(file_id, physical_path@),
                ).directories);
            } else {
                assert(self@.directories =~= before.directories);
            }
        }
    }

    /// Removes a row from a directory.
    fn remove_row(&mut self, i: usize, file_id: FileId)
        requires
            i < old(self).sync_directories.len(),
        ensures
            final(self)@ == old(self)@.with_files(
                i as int,
                old(self)@.directories[i as int].files.remove(file_id),
            ),
            final(self).sync_directories.len() == old(self).sync_directories.len(),
    {
        let ghost before = self@;
        let _ = self.sync_directories[i].database.remove_file_by_id(file_id);
        proof {
            assert(self@.directories =~= before.with_files(
                i as int,
                before.directories[i as int].files.remove(file_id),
            ).directories);
        }
    }

    /// Where a directory stores a file, if the file can be there.
    fn stored_path(&self, i: usize, file_id: FileId) -> (r: Option<String>)
        requires
            i < self.sync_directories.len(),
        ensures
            match r {
                Some(path) => path@ == self@.directories[i as int].stored_at(file_id) && (
                self@.directories[i as int].kind is Universal
                    || self@.directories[i as int].files.contains_key(file_id)),
                None => self@.directories[i as int].kind is TagBased
                    && !self@.directories[i as int].files.contains_key(file_id),
            },
    {
        let directory = &self.sync_directories[i];
        assert(self@.directories[i as int] == directory@);
        match &directory.sync_type {
            SyncType::Universal { .. } => {
                let name = file_id.to_string();
                Some(join_path(directory.path.as_str(), name.as_str()))
            },
            SyncType::TagBased { .. } => match directory.database.get_file(file_id) {
                Ok(file) => Some(
                    join_path(directory.path.as_str(), file.physical_path.as_str()),
                ),
                Err(_) => None,
            },
        }
    }

    /// Where the first directory that holds a file says that it lies.
    pub fn local_path(&self, file_id: FileId) -> (r: Option<String>)
        ensures
            optional_text(r) == local_path(self@.directories, file_id, 0),
    {
        let mut i: usize = 0;
        while i < self.sync_directories.len()
            invariant
                i <= self.sync_directories.len(),
                local_path(self@.directories, file_id, 0) == local_path(
                    self@.directories,
                    file_id,
                    i as int,
                ),
            decreases self.sync_directories.len() - i,
        {
            let directory = &self.sync_directories[i];
            assert(self@.directories[i as int] == directory@);
            match directory.database.get_file(file_id) {
                Ok(file) => {
                    return Some(join_path(directory.path.as_str(), file.physical_path.as_str()));
                },
                Err(_) => {},
            }
            i = i + 1;
        }
        None
    }

    /// The copies of a file, in the order of the directories.
    pub fn copies(&self, file_id: FileId) -> (r: Vec<(PhysicalPath, String)>)
        ensures
            r@.map_values(|c: (PhysicalPath, String)| (c.0@, c.1@)) == copies(
                self@.directories,
                file_id,
                self@.directories.len() as int,
            ),
    {
        let mut out: Vec<(PhysicalPath, String)> = Vec::new();
        let mut i: usize = 0;
        assert(out@.map_values(|c: (PhysicalPath, String)| (c.0@, c.1@)) =~= Seq::empty());
        while i < self.sync_directories.len()
            invariant
                i <= self.sync_directories.len(),
                out@.map_values(|c: (PhysicalPath, String)| (c.0@, c.1@)) == copies(
                    self@.directories,
                    file_id,
                    i as int,
                ),
            decreases self.sync_directories.len() - i,
        {
            let directory = &self.sync_directories[i];
            assert(self@.directories[i as int] == directory@);
            match directory.database.get_file(file_id) {
                Ok(file) => {
                    let path = join_path(directory.path.as_str(), file.physical_path.as_str());
                    let ghost before = out@;
                    let ghost item = (file.physical_path@, path@);
                    out.push((file.physical_path, path));
                    assert(out@.map_values(|c: (PhysicalPath, String)| (c.0@, c.1@))
                        =~= before.map_values(|c: (PhysicalPath, String)| (c.0@, c.1@)).push(
                        item,
                    ));
                },
                Err(_) => {},
            }
            i = i + 1;
        }
        assert(self@.directories.len() == i);
        out
    }

    /// Where the directories that hold a file store it, in their order.
    pub fn holding_paths(&self, file_id: FileId) -> (r: Vec<String>)
        ensures
            texts(r@) == holding_paths(
                self@.directories,
                file_id,
                self@.directories.len() as int,
            ),
    {
        let mut out: Vec<String> = Vec::new();
        let mut i: usize = 0;
        assert(texts(out@) =~= Seq::empty());
        while i < self.sync_directories.len()
            invariant
                i <= self.sync_directories.len(),
                texts(out@) == holding_paths(self@.directories, file_id, i as int),
            decreases self.sync_directories.len() - i,
        {
            assert(self@.directories[i as int] == self.sync_directories@[i as int]@);
            if self.sync_directories[i].database.get_file(file_id).is_ok() {
                if let Some(path) = self.stored_path(i, file_id) {
                    let ghost before = out@;
                    let ghost text = path@;
                    out.push(path);
                    assert(texts(out@) =~= texts(before).push(text));
                }
            }
            i = i + 1;
        }
        assert(self@.directories.len() == i);
        out
    }

    /// Handles a command: changes the rows that it changes before the disk, and says
    /// what is asked of the disk.
    pub fn handle_command(&mut self, command: SyncDirectoryCommand) -> (r: Result<
        DiskStep,
        SyncDirectoryError,
    >)
        ensures
            (final(self)@, outcome(r)) == after_command(old(self)@, command@),
    {
        match command {
            SyncDirectoryCommand::CreateFile {
                file_id,
                physical_path,
                content,
                sync_directory_path,
            } => {
                let i: usize = match self.sync_directory_for_path(sync_directory_path.as_str()) {
                    Ok(i) => i,
                    Err(error) => {
                        return Err(error);
                    },
                };
                let file_path = join_path(
                    self.sync_directories[i].path.as_str(),
                    physical_path.as_str(),
                );
                let finish = Finish::Created {
                    directory: i,
                    file_id,
                    physical_path,
                    file_path: file_path.clone(),
                };
                Ok(DiskStep::Write { file_path, create_parent: true, content, finish })
            },
            SyncDirectoryCommand::ChangeFile { file_id, content, sync_directory_path } => {
                let i: usize = match self.sync_directory_for_path(sync_directory_path.as_str()) {
                    Ok(i) => i,
                    Err(error) => {
                        return Err(error);
                    },
                };
                match self.stored_path(i, file_id) {
                    Some(file_path) => {
                        let finish = Finish::Changed { file_path: file_path.clone() };
                        Ok(DiskStep::Write { file_path, create_parent: false, content, finish })
                    },
                    None => Err(SyncDirectoryError::FailedChangingFile),
                }
            },
            SyncDirectoryCommand::MoveFile { file_id, physical_path, sync_directory_path } => {
                let i: usize = match self.sync_directory_for_path(sync_directory_path.as_str()) {
                    Ok(i) => i,
                    Err(error) => {
                        return Err(error);
                    },
                };
                let universal = match &self.sync_directories[i].sync_type {
                    SyncType::Universal { .. } => true,
                    SyncType::TagBased { .. } => false,
                };
                if universal {
                    self.set_row(i, file_id, &physical_path);
                    return Ok(DiskStep::Done);
                }
                match self.stored_path(i, file_id) {
                    Some(from) => {
                        let to = join_path(
                            self.sync_directories[i].path.as_str(),
                            physical_path.as_str(),
                        );
                        self.set_row(i, file_id, &physical_path);
                        let finish = Finish::Moved { from: from.clone(), to: to.clone() };
                        Ok(DiskStep::Rename { from, to, finish })
                    },
                    None => Err(SyncDirectoryError::FailedMovingFile),
                }
            },
            SyncDirectoryCommand::RemoveFile { file_id, sync_directory_path } => {
                let i: usize = match self.sync_directory_for_path(sync_directory_path.as_str()) {
                    Ok(i) => i,
                    Err(error) => {
                        return Err(error);
                    },
                };
                if self.sync_directories[i].database.get_file(file_id).is_err() {
                    return Err(SyncDirectoryError::FailedRemovingFile);
                }
                let clear_parent = match &self.sync_directories[i].sync_type {
                    SyncType::Universal { .. } => false,
                    SyncType::TagBased { .. } => true,
                };
                match self.stored_path(i, file_id) {
                    Some(file_path) => {
                        let finish = Finish::Removed {
                            directory: i,
                            file_id,
                            file_path: file_path.clone(),
                        };
                        Ok(DiskStep::Remove { file_path, clear_parent, finish })
                    },
                    None => Err(SyncDirectoryError::FailedRemovingFile),
                }
            },
            SyncDirectoryCommand::ReconcileTagPlacement { file_id, logical_path, file_tags } => Ok(
                DiskStep::Place(PlacementRun::new(file_id, logical_path, file_tags)),
            ),
            SyncDirectoryCommand::LocalPath { file_id, respond_to } => Ok(
                DiskStep::AnswerPath { respond_to, path: self.local_path(file_id) },
            ),
            SyncDirectoryCommand::ReadFile { file_id, respond_to } => Ok(
                DiskStep::Read { respond_to, candidates: self.copies(file_id) },
            ),
        }
    }

    /// Records what the disk has been changed to. `content_hash` is the digest of the
    /// content that was written.
    pub fn finish(&mut self, finish: Finish, content_hash: Option<String>) -> (r: Result<
        (),
        SyncDirectoryError,
    >)
        ensures
            (final(self)@, r) == after_finish(old(self)@, finish@, optional_text(content_hash)),
    {
        match finish {
            Finish::Created { directory, file_id, physical_path, file_path } => {
                if directory >= self.sync_directories.len() {
                    return Err(SyncDirectoryError::UnmonitoredDirectory);
                }
                if !self.add_row(directory, file_id, &physical_path) {
                    return Err(SyncDirectoryError::FailedAddingFile);
                }
                self.self_writes.record_self_write(file_path.as_str(), content_hash);
                Ok(())
            },
            Finish::Changed { file_path } => {
                self.self_writes.record_self_write(file_path.as_str(), content_hash);
                Ok(())
            },
            Finish::Moved { from, to } => {
                self.self_writes.record_self_write(from.as_str(), None);
                self.self_writes.record_self_write(to.as_str(), None);
                Ok(())
            },
            Finish::Removed { directory, file_id, file_path } => {
                if directory >= self.sync_directories.len() {
                    return Err(SyncDirectoryError::UnmonitoredDirectory);
                }
                self.remove_row(directory, file_id);
                self.self_writes.record_self_write(file_path.as_str(), None);
                Ok(())
            },
        }
    }
}

} // verus!
