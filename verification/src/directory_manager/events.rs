//! What the file system watcher reports, and what missed changes the directories show
//! at start.

use vstd::prelude::*;
use super::self_writes::reflects;
use super::{directory_for, DirectoryView, ManagerView, SyncDirectoryError, SyncDirectoryManager};
use crate::bus::{ContentChange, DaemonMessage, Ingest};
use crate::configuration::{SyncType, SyncTypeView};
use crate::database::sync_directory::{
    file_at, is_file_at, lists_files_at, SyncDirectoryFile,
};
use crate::file_bytes::{BytesView, FileBytes};
use crate::ids::{uuid_value, FileId, TagId};
use crate::path_text::{appended, is_under, join_path, lies_under, relative, relative_path};
use crate::state::{copy_tags, Change, ChangeOrigin, LogicalPath, PhysicalPath};
use crate::text::{optional_str, same_text};

verus! {

/// An event of the watcher.
#[derive(Debug, Clone, PartialEq, Eq)]
pub enum DebouncedEventKind {
    Create { file_name: String },
    /// A rename. One end may lie outside of what is watched.
    Move { from: Option<String>, to: Option<String> },
    Modify { file_name: String },
    Remove { file_name: String },
}

/// What a message reports of a directory.
#[verifier::ext_equal]
pub enum Report {
    Added {
        file_id: FileId,
        logical_path: Seq<char>,
        content: BytesView,
        content_hash: Seq<char>,
        tags: Seq<TagId>,
        directory: Seq<char>,
    },
    Changed {
        file_id: FileId,
        content: BytesView,
        content_hash: Seq<char>,
        directory: Seq<char>,
    },
    Moved { file_id: FileId, logical_path: Seq<char>, directory: Seq<char> },
    Deleted { file_id: FileId, deleted_at: i64, directory: Seq<char> },
    /// Anything else.
    Other,
}

/// What a message reports.
pub open spec fn report(message: DaemonMessage) -> Report {
    match message {
        DaemonMessage::Change(
            Ingest::Content(
                ContentChange::FileAdded { file_id, logical_path, content, content_hash, tags },
            ),
            ChangeOrigin::Local { directory_path },
        ) => Report::Added {
            file_id,
            logical_path: logical_path@,
            content: content@,
            content_hash: content_hash@,
            tags: tags@,
            directory: directory_path@,
        },
        DaemonMessage::Change(
            Ingest::Content(ContentChange::FileChanged { file_id, content, content_hash }),
            ChangeOrigin::Local { directory_path },
        ) => Report::Changed {
            file_id,
            content: content@,
            content_hash: content_hash@,
            directory: directory_path@,
        },
        DaemonMessage::Change(
            Ingest::Meta(Change::FileMoved { file_id, logical_path }),
            ChangeOrigin::Local { directory_path },
        ) => Report::Moved { file_id, logical_path: logical_path@, directory: directory_path@ },
        DaemonMessage::Change(
            Ingest::Meta(Change::FileDeleted { file_id, deleted_at }),
            ChangeOrigin::Local { directory_path },
        ) => Report::Deleted { file_id, deleted_at, directory: directory_path@ },
        _ => Report::Other,
    }
}

/// What messages report.
pub open spec fn reports(messages: Seq<DaemonMessage>) -> Seq<Report> {
    messages.map_values(|m: DaemonMessage| report(m))
}

/// What follows from an event.
#[derive(Debug)]
pub enum EventStep {
    /// Nothing.
    Ignore,
    /// Send these messages to the daemon.
    Send(Vec<DaemonMessage>),
    /// Hash the file and ingest it.
    Ingest { directory: usize, path: String },
    /// A file or a directory was moved in: treat each file as moved in.
    MovedIn { directory: usize, path: String },
    /// Hash the file and treat it as modified.
    ReadContent { path: String },
}

/// The mathematical value of an [`EventStep`].
#[verifier::ext_equal]
pub enum EventStepView {
    Ignore,
    Send(Seq<Report>),
    Ingest { directory: int, path: Seq<char> },
    MovedIn { directory: int, path: Seq<char> },
    ReadContent { path: Seq<char> },
}

impl View for EventStep {
    type V = EventStepView;

    open spec fn view(&self) -> EventStepView {
        match *self {
            EventStep::Ignore => EventStepView::Ignore,
            EventStep::Send(messages) => EventStepView::Send(reports(messages@)),
            EventStep::Ingest { directory, path } => EventStepView::Ingest {
                directory: directory as int,
                path: path@,
            },
            EventStep::MovedIn { directory, path } => EventStepView::MovedIn {
                directory: directory as int,
                path: path@,
            },
            EventStep::ReadContent { path } => EventStepView::ReadContent { path: path@ },
        }
    }
}

/// The mathematical value of what follows from an event.
pub open spec fn step(r: Result<EventStep, SyncDirectoryError>) -> Result<
    EventStepView,
    SyncDirectoryError,
> {
    match r {
        Ok(s) => Ok(s@),
        Err(error) => Err(error),
    }
}

/// What follows when a file was created.
pub open spec fn after_create(before: ManagerView, path: Seq<char>) -> (
    ManagerView,
    Result<EventStepView, SyncDirectoryError>,
) {
    if reflects(before.writes, path, None) {
        (before.matched(path, None), Ok(EventStepView::Ignore))
    } else {
        (
            before,
            match directory_for(before.directories, path) {
                Some(i) => Ok(EventStepView::Ingest { directory: i, path }),
                None => Err(SyncDirectoryError::UnmonitoredDirectory),
            },
        )
    }
}

/// What follows when a file was removed.
pub open spec fn after_remove(before: ManagerView, path: Seq<char>, now: i64) -> (
    ManagerView,
    Result<EventStepView, SyncDirectoryError>,
) {
    if reflects(before.writes, path, None) {
        (before.matched(path, None), Ok(EventStepView::Ignore))
    } else {
        match directory_for(before.directories, path) {
            None => (before, Err(SyncDirectoryError::UnmonitoredDirectory)),
            Some(i) => {
                let directory = before.directories[i];
                match file_at(directory.files, relative(path, directory.path)) {
                    None => (before, Err(SyncDirectoryError::MissingTrackedFile)),
                    Some(file_id) => (
                        before.with_files(i, directory.files.remove(file_id)),
                        Ok(
                            EventStepView::Send(
                                seq![
                                    Report::Deleted {
                                        file_id,
                                        deleted_at: now,
                                        directory: directory.path,
                                    },
                                ],
                            ),
                        ),
                    ),
                }
            },
        }
    }
}

/// What follows when a file was modified and now has a digest.
pub open spec fn after_modify(before: ManagerView, path: Seq<char>, hash: Seq<char>) -> (
    ManagerView,
    Result<EventStepView, SyncDirectoryError>,
) {
    if reflects(before.writes, path, Some(hash)) {
        (before.matched(path, Some(hash)), Ok(EventStepView::Ignore))
    } else {
        (
            before,
            match directory_for(before.directories, path) {
                None => Err(SyncDirectoryError::UnmonitoredDirectory),
                Some(i) => {
                    let directory = before.directories[i];
                    match file_at(directory.files, relative(path, directory.path)) {
                        None => Err(SyncDirectoryError::MissingTrackedFile),
                        Some(file_id) => Ok(
                            EventStepView::Send(
                                seq![
                                    Report::Changed {
                                        file_id,
                                        content: BytesView::FileToCopy(path),
                                        content_hash: hash,
                                        directory: directory.path,
                                    },
                                ],
                            ),
                        ),
                    }
                },
            },
        )
    }
}

/// The files of a directory after those in `list` that lie under `from` have moved
/// along to `to`.
pub open spec fn files_moved(
    files: Map<FileId, Seq<char>>,
    list: Seq<SyncDirectoryFile>,
    from: Seq<char>,
    to: Seq<char>,
) -> Map<FileId, Seq<char>>
    decreases list.len(),
{
    if list.len() == 0 {
        files
    } else {
        let before = files_moved(files, list.drop_last(), from, to);
        let path = list.last().physical_path@;
        if is_under(path, from) {
            before.insert(list.last().file_id, appended(to, relative(path, from)))
        } else {
            before
        }
    }
}

/// The reports of those moves.
pub open spec fn move_reports(
    list: Seq<SyncDirectoryFile>,
    from: Seq<char>,
    to: Seq<char>,
    directory: Seq<char>,
) -> Seq<Report>
    decreases list.len(),
{
    if list.len() == 0 {
        Seq::empty()
    } else {
        let before = move_reports(list.drop_last(), from, to, directory);
        let path = list.last().physical_path@;
        if is_under(path, from) {
            before.push(
                Report::Moved {
                    file_id: list.last().file_id,
                    logical_path: appended(to, relative(path, from)),
                    directory,
                },
            )
        } else {
            before
        }
    }
}

/// Whether a move from `from` to `to`, both relative to the `i`-th directory, has been
/// followed: the file there moved or, where there is none, every file under it.
pub open spec fn move_followed(
    before: ManagerView,
    i: int,
    from: Seq<char>,
    to: Seq<char>,
    after: ManagerView,
    sent: Seq<Report>,
) -> bool {
    let directory = before.directories[i];
    match file_at(directory.files, from) {
        Some(file_id) => {
            &&& after == before.with_files(i, directory.files.insert(file_id, to))
            &&& sent == seq![
                Report::Moved { file_id, logical_path: to, directory: directory.path },
            ]
        },
        None => exists|list: Seq<SyncDirectoryFile>| #[trigger]
            lists_files_at(list, directory.files, from) && after == before.with_files(
                i,
                files_moved(directory.files, list, from, to),
            ) && sent == move_reports(list, from, to, directory.path),
    }
}

/// The files of a directory without those in `list` that lie under `from`.
pub open spec fn files_without(
    files: Map<FileId, Seq<char>>,
    list: Seq<SyncDirectoryFile>,
    from: Seq<char>,
) -> Map<FileId, Seq<char>>
    decreases list.len(),
{
    if list.len() == 0 {
        files
    } else {
        let before = files_without(files, list.drop_last(), from);
        if is_under(list.last().physical_path@, from) {
            before.remove(list.last().file_id)
        } else {
            before
        }
    }
}

/// The reports that those files are gone.
pub open spec fn loss_reports(
    list: Seq<SyncDirectoryFile>,
    from: Seq<char>,
    now: i64,
    directory: Seq<char>,
) -> Seq<Report>
    decreases list.len(),
{
    if list.len() == 0 {
        Seq::empty()
    } else {
        let before = loss_reports(list.drop_last(), from, now, directory);
        if is_under(list.last().physical_path@, from) {
            before.push(
                Report::Deleted { file_id: list.last().file_id, deleted_at: now, directory },
            )
        } else {
            before
        }
    }
}

/// Whether a move away from `from`, relative to the `i`-th directory, has been
/// followed: the file there is gone or, where there is none, every file under it.
pub open spec fn loss_followed(
    before: ManagerView,
    i: int,
    from: Seq<char>,
    now: i64,
    after: ManagerView,
    sent: Seq<Report>,
) -> bool {
    let directory = before.directories[i];
    match file_at(directory.files, from) {
        Some(file_id) => {
            &&& after == before.with_files(i, directory.files.remove(file_id))
            &&& sent == seq![
                Report::Deleted { file_id, deleted_at: now, directory: directory.path },
            ]
        },
        None => exists|list: Seq<SyncDirectoryFile>| #[trigger]
            lists_files_at(list, directory.files, from) && after == before.with_files(
                i,
                files_without(directory.files, list, from),
            ) && sent == loss_reports(list, from, now, directory.path),
    }
}

/// Whether the outcome of a rename from `from` to `to` is what is asked for.
pub open spec fn rename_handled(
    before: ManagerView,
    from: Seq<char>,
    to: Seq<char>,
    after: ManagerView,
    r: Result<EventStepView, SyncDirectoryError>,
) -> bool {
    match directory_for(before.directories, from) {
        None => r == Err::<EventStepView, _>(SyncDirectoryError::UnmonitoredDirectory) && after
            == before,
        Some(i) => {
            let directory = before.directories[i];
            let ours = reflects(before.writes, from, None) || reflects(
                before.matched(from, None).writes,
                to,
                None,
            );
            if directory.kind is Universal {
                r == Ok::<_, SyncDirectoryError>(EventStepView::Ignore) && after == before
            } else if ours || !is_under(to, directory.path) {
                r == Ok::<_, SyncDirectoryError>(EventStepView::Ignore) && after == before.matched(
                    from,
                    None,
                ).matched(to, None)
            } else {
                &&& r matches Ok(EventStepView::Send(sent))
                &&& move_followed(
                    before,
                    i,
                    relative(from, directory.path),
                    relative(to, directory.path),
                    after,
                    sent,
                )
            }
        },
    }
}

/// Whether the outcome of an event is what is asked for.
pub open spec fn event_handled(
    before: ManagerView,
    event: DebouncedEventKind,
    now: i64,
    after: ManagerView,
    r: Result<EventStepView, SyncDirectoryError>,
) -> bool {
    match event {
        DebouncedEventKind::Create { file_name } => (after, r) == after_create(before, file_name@),
        DebouncedEventKind::Remove { file_name } => (after, r) == after_remove(
            before,
            file_name@,
            now,
        ),
        DebouncedEventKind::Modify { file_name } => after == before && r == Ok::<
            _,
            SyncDirectoryError,
        >(EventStepView::ReadContent { path: file_name@ }),
        DebouncedEventKind::Move { from: Some(from), to: Some(to) } => rename_handled(
            before,
            from@,
            to@,
            after,
            r,
        ),
        DebouncedEventKind::Move { from: Some(from), to: None } => match directory_for(
            before.directories,
            from@,
        ) {
            None => r == Err::<EventStepView, _>(SyncDirectoryError::UnmonitoredDirectory) && after
                == before,
            Some(i) => {
                &&& r matches Ok(EventStepView::Send(sent))
                &&& loss_followed(
                    before,
                    i,
                    relative(from@, before.directories[i].path),
                    now,
                    after,
                    sent,
                )
            },
        },
        DebouncedEventKind::Move { from: None, to: Some(to) } => after == before && match directory_for(
            before.directories,
            to@,
        ) {
            None => r == Err::<EventStepView, _>(SyncDirectoryError::UnmonitoredDirectory),
            Some(i) => r == Ok::<_, SyncDirectoryError>(
                EventStepView::MovedIn { directory: i, path: to@ },
            ),
        },
        DebouncedEventKind::Move { from: None, to: None } => after == before && r == Ok::<
            _,
            SyncDirectoryError,
        >(EventStepView::Ignore),
    }
}

/// What follows when a file at a path of a directory is ingested. A universal
/// directory hands its bytes over; a tagged one keeps them and gives the file its tags.
pub open spec fn after_ingest(
    before: ManagerView,
    i: int,
    path: Seq<char>,
    hash: Seq<char>,
    file_id: FileId,
) -> (ManagerView, Result<Report, SyncDirectoryError>) {
    if before.directories.len() <= i || !is_under(path, before.directories[i].path) {
        (before, Err(SyncDirectoryError::UnmonitoredDirectory))
    } else {
        let directory = before.directories[i];
        let name = relative(path, directory.path);
        match directory.kind {
            SyncTypeView::Universal { .. } => (
                before.with_write(appended(directory.path, name), None),
                Ok(
                    Report::Added {
                        file_id,
                        logical_path: name,
                        content: BytesView::FileToMove(path),
                        content_hash: hash,
                        tags: Seq::empty(),
                        directory: directory.path,
                    },
                ),
            ),
            SyncTypeView::TagBased { tags } => {
                if directory.files.contains_key(file_id) {
                    (before, Err(SyncDirectoryError::FailedAddingFile))
                } else {
                    (
                        before.with_files(i, directory.files.insert(file_id, name)),
                        Ok(
                            Report::Added {
                                file_id,
                                logical_path: name,
                                content: BytesView::FileToCopy(path),
                                content_hash: hash,
                                tags,
                                directory: directory.path,
                            },
                        ),
                    )
                }
            },
        }
    }
}

/// What a tracked file looks like on disk.
#[derive(Debug, Clone, PartialEq, Eq)]
pub enum DiskState {
    Missing,
    Unreadable,
    /// There, with this digest.
    Present(String),
}

/// What follows from what a tracked file looks like at start, where `known` is the
/// digest of its latest version.
pub open spec fn after_check(
    before: ManagerView,
    i: int,
    file: SyncDirectoryFile,
    found: DiskState,
    known: Option<Seq<char>>,
    now: i64,
) -> (ManagerView, Option<Report>) {
    if before.directories.len() <= i {
        (before, None)
    } else {
        let directory = before.directories[i];
        match found {
            DiskState::Missing => (
                before.with_files(i, directory.files.remove(file.file_id)),
                Some(
                    Report::Deleted {
                        file_id: file.file_id,
                        deleted_at: now,
                        directory: directory.path,
                    },
                ),
            ),
            DiskState::Unreadable => (before, None),
            DiskState::Present(hash) => (
                before,
                if known == Some(hash@) {
                    None
                } else {
                    Some(
                        Report::Changed {
                            file_id: file.file_id,
                            content: BytesView::FileToCopy(tracked_path(directory, file)),
                            content_hash: hash@,
                            directory: directory.path,
                        },
                    )
                },
            ),
        }
    }
}

/// Where a directory stores a file that it has a row for.
pub open spec fn tracked_path(directory: DirectoryView, file: SyncDirectoryFile) -> Seq<char> {
    appended(
        directory.path,
        if directory.kind is Universal {
            crate::ids::id_text(file.file_id.value)
        } else {
            file.physical_path@
        },
    )
}

/// Whether a file that lies in a directory is unknown to it: in a universal directory
/// unless its name spells a tracked identifier, in a tagged one unless a row has its
/// name.
pub open spec fn is_untracked(directory: DirectoryView, path: Seq<char>) -> bool {
    let name = relative(path, directory.path);
    is_under(path, directory.path) && match directory.kind {
        SyncTypeView::Universal { .. } => match uuid_value(name) {
            Some(value) => !directory.files.contains_key(FileId { value }),
            None => true,
        },
        SyncTypeView::TagBased { .. } => file_at(directory.files, name) is None,
    }
}

/// Whether a file that lies in a directory is one that it has a row for.
pub open spec fn is_tracked(directories: Seq<DirectoryView>, i: int, path: Seq<char>) -> bool {
    i < directories.len() && is_under(path, directories[i].path) && !is_untracked(
        directories[i],
        path,
    )
}

/// What follows when a file was moved into a directory.
pub open spec fn after_moved_in(before: ManagerView, i: int, path: Seq<char>) -> (
    ManagerView,
    EventStepView,
) {
    (
        before.matched(path, None),
        if reflects(before.writes, path, None) || is_tracked(before.directories, i, path) {
            EventStepView::Ignore
        } else {
            EventStepView::Ingest { directory: i, path }
        },
    )
}

/// The mathematical value of an optional message.
pub open spec fn optional_report(message: Option<DaemonMessage>) -> Option<Report> {
    match message {
        Some(m) => Some(report(m)),
        None => None,
    }
}

impl SyncDirectoryManager {
    /// The origin of a change that a directory shows.
    fn origin(&self, i: usize) -> (r: ChangeOrigin)
        requires
            i < self.sync_directories.len(),
        ensures
            r matches ChangeOrigin::Local { directory_path } && directory_path@
                == self@.directories[i as int].path,
    {
        ChangeOrigin::Local { directory_path: self.sync_directories[i].path.clone() }
    }

    /// Follows a rename: changes the row and reports the new logical path.
    fn move_file_within_directory(&mut self, i: usize, file_id: FileId, to: &str) -> (r:
        DaemonMessage)
        requires
            i < old(self).sync_directories.len(),
            old(self)@.directories[i as int].files.contains_key(file_id),
        ensures
            final(self)@ == old(self)@.with_files(
                i as int,
                old(self)@.directories[i as int].files.insert(file_id, to@),
            ),
            final(self).sync_directories.len() == old(self).sync_directories.len(),
            report(r) == (Report::Moved {
                file_id,
                logical_path: to@,
                directory: old(self)@.directories[i as int].path,
            }),
    {
        let origin = self.origin(i);
        let physical_path = PhysicalPath::new(to);
        self.set_row(i, file_id, &physical_path);
        DaemonMessage::change(
            Change::FileMoved { file_id, logical_path: LogicalPath::new(to) },
            origin,
        )
    }

    /// Forgets a file and reports that it is gone.
    fn remove_file_by_id(&mut self, i: usize, file_id: FileId, now: i64) -> (r: DaemonMessage)
        requires
            i < old(self).sync_directories.len(),
        ensures
            final(self)@ == old(self)@.with_files(
                i as int,
                old(self)@.directories[i as int].files.remove(file_id),
            ),
            final(self).sync_directories.len() == old(self).sync_directories.len(),
            report(r) == (Report::Deleted {
                file_id,
                deleted_at: now,
                directory: old(self)@.directories[i as int].path,
            }),
    {
        let origin = self.origin(i);
        self.remove_row(i, file_id);
        DaemonMessage::change(Change::FileDeleted { file_id, deleted_at: now }, origin)
    }

    /// Follows a rename within a directory; both ends are relative to it.
    fn follow_move(&mut self, i: usize, from: &str, to: &str) -> (r: Vec<DaemonMessage>)
        requires
            i < old(self).sync_directories.len(),
        ensures
            move_followed(old(self)@, i as int, from@, to@, final(self)@, reports(r@)),
    {
        let ghost before = self@;
        let ghost files = before.directories[i as int].files;
        let ghost directory = before.directories[i as int].path;
        let name = PhysicalPath::new(from);
        let mut out: Vec<DaemonMessage> = Vec::new();
        assert(before.directories[i as int] == self.sync_directories@[i as int]@);
        match self.sync_directories[i].database.get_file_id(&name) {
            Ok(file_id) => {
                out.push(self.move_file_within_directory(i, file_id, to));
                assert(reports(out@) =~= seq![
                    Report::Moved { file_id, logical_path: to@, directory },
                ]);
                return out;
            },
            Err(_) => {},
        }
        let list = match self.sync_directories[i].database.get_all_files_at(&name) {
            Ok(list) => list,
            Err(_) => Vec::new(),
        };
        assert(lists_files_at(list@, files, from@));
        let mut k: usize = 0;
        proof {
            assert(list@.take(0) =~= Seq::empty());
            assert(before.with_files(i as int, files) =~= before);
            assert(reports(out@) =~= Seq::<Report>::empty());
        }
        while k < list.len()
            invariant
                k <= list.len(),
                i < self.sync_directories.len(),
                i < before.directories.len(),
                files == before.directories[i as int].files,
                directory == before.directories[i as int].path,
                lists_files_at(list@, files, from@),
                self@ == before.with_files(
                    i as int,
                    files_moved(files, list@.take(k as int), from@, to@),
                ),
                reports(out@) == move_reports(list@.take(k as int), from@, to@, directory),
                forall|f: FileId| #[trigger]
                    files.contains_key(f) ==> files_moved(
                        files,
                        list@.take(k as int),
                        from@,
                        to@,
                    ).contains_key(f),
            decreases list.len() - k,
        {
            let ghost part = list@.take(k + 1);
            let ghost sent = out@;
            proof {
                assert(part.drop_last() =~= list@.take(k as int));
                assert(part.last() == list@[k as int]);
                assert(files.contains_key(list@[k as int].file_id));
            }
            let file = &list[k];
            if let Some(rest) = relative_path(file.physical_path.as_str(), from) {
                let new_path = join_path(to, rest.as_str());
                let message = self.move_file_within_directory(
                    i,
                    file.file_id,
                    new_path.as_str(),
                );
                out.push(message);
                proof {
                    assert(reports(out@) =~= reports(sent).push(report(message)));
                    assert(self@ =~= before.with_files(
                        i as int,
                        files_moved(files, part, from@, to@),
                    ));
                }
            }
            k = k + 1;
        }
        assert(list@.take(k as int) =~= list@);
        out
    }

    /// Follows a move out of a directory; the path is relative to it.
    fn follow_loss(&mut self, i: usize, from: &str, now: i64) -> (r: Vec<DaemonMessage>)
        requires
            i < old(self).sync_directories.len(),
        ensures
            loss_followed(old(self)@, i as int, from@, now, final(self)@, reports(r@)),
    {
        let ghost before = self@;
        let ghost files = before.directories[i as int].files;
        let ghost directory = before.directories[i as int].path;
        let name = PhysicalPath::new(from);
        let mut out: Vec<DaemonMessage> = Vec::new();
        assert(before.directories[i as int] == self.sync_directories@[i as int]@);
        match self.sync_directories[i].database.get_file_id(&name) {
            Ok(file_id) => {
                out.push(self.remove_file_by_id(i, file_id, now));
                assert(reports(out@) =~= seq![
                    Report::Deleted { file_id, deleted_at: now, directory },
                ]);
                return out;
            },
            Err(_) => {},
        }
        let list = match self.sync_directories[i].database.get_all_files_at(&name) {
            Ok(list) => list,
            Err(_) => Vec::new(),
        };
        assert(lists_files_at(list@, files, from@));
        let mut k: usize = 0;
        proof {
            assert(list@.take(0) =~= Seq::empty());
            assert(before.with_files(i as int, files) =~= before);
            assert(reports(out@) =~= Seq::<Report>::empty());
        }
        while k < list.len()
            invariant
                k <= list.len(),
                i < self.sync_directories.len(),
                i < before.directories.len(),
                files == before.directories[i as int].files,
                directory == before.directories[i as int].path,
                lists_files_at(list@, files, from@),
                self@ == before.with_files(
                    i as int,
                    files_without(files, list@.take(k as int), from@),
                ),
                reports(out@) == loss_reports(list@.take(k as int), from@, now, directory),
            decreases list.len() - k,
        {
            let ghost part = list@.take(k + 1);
            let ghost sent = out@;
            proof {
                assert(part.drop_last() =~= list@.take(k as int));
                assert(part.last() == list@[k as int]);
            }
            if lies_under(list[k].physical_path.as_str(), from) {
                let message = self.remove_file_by_id(i, list[k].file_id, now);
                out.push(message);
                proof {
                    assert(reports(out@) =~= reports(sent).push(report(message)));
                    assert(self@ =~= before.with_files(
                        i as int,
                        files_without(files, part, from@),
                    ));
                }
            }
            k = k + 1;
        }
        assert(list@.take(k as int) =~= list@);
        out
    }

    /// Handles an event of the watcher. `now` is the time to put on deletions.
    pub fn handle_event(&mut self, event: DebouncedEventKind, now: i64) -> (r: Result<
        EventStep,
        SyncDirectoryError,
    >)
        ensures
            event_handled(old(self)@, event, now, final(self)@, step(r)),
    {
        match event {
            DebouncedEventKind::Create { file_name } => self.created(file_name),
            DebouncedEventKind::Move { from: Some(from), to: Some(to) } => {
                self.renamed(from.as_str(), to.as_str())
            },
            DebouncedEventKind::Move { from: Some(from), to: None } => {
                let i: usize = match self.sync_directory_for_path(from.as_str()) {
                    Ok(i) => i,
                    Err(error) => {
                        return Err(error);
                    },
                };
                match relative_path(from.as_str(), self.sync_directories[i].path.as_str()) {
                    Some(name) => Ok(EventStep::Send(self.follow_loss(i, name.as_str(), now))),
                    None => Err(SyncDirectoryError::UnmonitoredDirectory),
                }
            },
            DebouncedEventKind::Move { from: None, to: Some(to) } => {
                match self.sync_directory_for_path(to.as_str()) {
                    Ok(i) => Ok(EventStep::MovedIn { directory: i, path: to }),
                    Err(error) => Err(error),
                }
            },
            DebouncedEventKind::Move { from: None, to: None } => Ok(EventStep::Ignore),
            DebouncedEventKind::Modify { file_name } => Ok(
                EventStep::ReadContent { path: file_name },
            ),
            DebouncedEventKind::Remove { file_name } => self.removed(file_name.as_str(), now),
        }
    }

    fn created(&mut self, path: String) -> (r: Result<EventStep, SyncDirectoryError>)
        ensures
            (final(self)@, step(r)) == after_create(old(self)@, path@),
    {
        if self.self_writes.take_matching_self_write(path.as_str(), None) {
            return Ok(EventStep::Ignore);
        }
        match self.sync_directory_for_path(path.as_str()) {
            Ok(i) => Ok(EventStep::Ingest { directory: i, path }),
            Err(error) => Err(error),
        }
    }

    fn renamed(&mut self, from: &str, to: &str) -> (r: Result<EventStep, SyncDirectoryError>)
        ensures
            rename_handled(old(self)@, from@, to@, final(self)@, step(r)),
    {
        let i: usize = match self.sync_directory_for_path(from) {
            Ok(i) => i,
            Err(error) => {
                return Err(error);
            },
        };
        assert(self@.directories[i as int] == self.sync_directories@[i as int]@);
        match &self.sync_directories[i].sync_type {
            SyncType::Universal { .. } => {
                return Ok(EventStep::Ignore);
            },
            SyncType::TagBased { .. } => {},
        }
        let from_self = self.self_writes.take_matching_self_write(from, None);
        let to_self = self.self_writes.take_matching_self_write(to, None);
        if from_self || to_self {
            return Ok(EventStep::Ignore);
        }
        assert(self@ =~= old(self)@);
        let relative_from = relative_path(from, self.sync_directories[i].path.as_str());
        let relative_to = relative_path(to, self.sync_directories[i].path.as_str());
        match (relative_from, relative_to) {
            (Some(a), Some(b)) => Ok(
                EventStep::Send(self.follow_move(i, a.as_str(), b.as_str())),
            ),
            _ => Ok(EventStep::Ignore),
        }
    }

    fn removed(&mut self, path: &str, now: i64) -> (r: Result<EventStep, SyncDirectoryError>)
        ensures
            (final(self)@, step(r)) == after_remove(old(self)@, path@, now),
    {
        if self.self_writes.take_matching_self_write(path, None) {
            return Ok(EventStep::Ignore);
        }
        assert(self@ =~= old(self)@);
        let i: usize = match self.sync_directory_for_path(path) {
            Ok(i) => i,
            Err(error) => {
                return Err(error);
            },
        };
        assert(self@.directories[i as int] == self.sync_directories@[i as int]@);
        match self.tracked_at(i, path) {
            Some(file_id) => {
                let mut out: Vec<DaemonMessage> = Vec::new();
                let message = self.remove_file_by_id(i, file_id, now);
                out.push(message);
                assert(reports(out@) =~= seq![report(message)]);
                Ok(EventStep::Send(out))
            },
            None => Err(SyncDirectoryError::MissingTrackedFile),
        }
    }

    /// The file that a directory tracks at a path under it.
    fn tracked_at(&self, i: usize, path: &str) -> (r: Option<FileId>)
        requires
            i < self.sync_directories.len(),
            is_under(path@, self@.directories[i as int].path),
        ensures
            r == file_at(
                self@.directories[i as int].files,
                relative(path@, self@.directories[i as int].path),
            ),
    {
        let directory = &self.sync_directories[i];
        assert(self@.directories[i as int] == directory@);
        match relative_path(path, directory.path.as_str()) {
            Some(name) => match directory.database.get_file_id(&PhysicalPath::new(name.as_str())) {
                Ok(file_id) => Some(file_id),
                Err(_) => None,
            },
            None => None,
        }
    }

    /// Handles the modification of a file that now has this digest.
    pub fn modified(&mut self, path: String, content_hash: String) -> (r: Result<
        EventStep,
        SyncDirectoryError,
    >)
        ensures
            (final(self)@, step(r)) == after_modify(old(self)@, path@, content_hash@),
    {
        if self.self_writes.take_matching_self_write(path.as_str(), Some(content_hash.as_str())) {
            return Ok(EventStep::Ignore);
        }
        assert(self@ =~= old(self)@);
        let i: usize = match self.sync_directory_for_path(path.as_str()) {
            Ok(i) => i,
            Err(error) => {
                return Err(error);
            },
        };
        match self.tracked_at(i, path.as_str()) {
            Some(file_id) => {
                let message = self.changed(i, file_id, path, content_hash);
                let mut out: Vec<DaemonMessage> = Vec::new();
                out.push(message);
                assert(reports(out@) =~= seq![report(message)]);
                Ok(EventStep::Send(out))
            },
            None => Err(SyncDirectoryError::MissingTrackedFile),
        }
    }

    /// Reports that a file has new content.
    fn changed(&self, i: usize, file_id: FileId, path: String, content_hash: String) -> (r:
        DaemonMessage)
        requires
            i < self.sync_directories.len(),
        ensures
            report(r) == (Report::Changed {
                file_id,
                content: BytesView::FileToCopy(path@),
                content_hash: content_hash@,
                directory: self@.directories[i as int].path,
            }),
    {
        let origin = self.origin(i);
        let content = FileBytes::FileToCopy(path);
        DaemonMessage::Change(
            Ingest::Content(ContentChange::FileChanged { file_id, content, content_hash }),
            origin,
        )
    }

    /// Handles a file that was moved into a directory: it is ingested unless the
    /// daemon put it there or the directory has a row for it.
    pub fn moved_in(&mut self, directory: usize, path: String) -> (r: EventStep)
        ensures
            final(self)@ == old(self)@.matched(path@, None),
            r@ == if reflects(old(self)@.writes, path@, None) || is_tracked(
                old(self)@.directories,
                directory as int,
                path@,
            ) {
                EventStepView::Ignore
            } else {
                EventStepView::Ingest { directory: directory as int, path: path@ }
            },
            (final(self)@, r@) == after_moved_in(old(self)@, directory as int, path@),
    {
        if self.self_writes.take_matching_self_write(path.as_str(), None) {
            return EventStep::Ignore;
        }
        if directory < self.sync_directories.len() {
            assert(self@.directories[directory as int]
                == self.sync_directories@[directory as int]@);
            let root = self.sync_directories[directory].path.as_str();
            if lies_under(path.as_str(), root) && !self.is_untracked(directory, path.as_str()) {
                return EventStep::Ignore;
            }
        }
        EventStep::Ingest { directory, path }
    }

    /// Ingests a file that lies in a directory, under a fresh identifier.
    pub fn ingest(
        &mut self,
        directory: usize,
        path: String,
        content_hash: String,
        file_id: FileId,
    ) -> (r: Result<DaemonMessage, SyncDirectoryError>)
        ensures
            (
                final(self)@,
                match r {
                    Ok(message) => Ok(report(message)),
                    Err(error) => Err(error),
                },
            ) == after_ingest(old(self)@, directory as int, path@, content_hash@, file_id),
    {
        if directory >= self.sync_directories.len() {
            return Err(SyncDirectoryError::UnmonitoredDirectory);
        }
        assert(self@.directories[directory as int] == self.sync_directories@[directory as int]@);
        let name = match relative_path(
            path.as_str(),
            self.sync_directories[directory].path.as_str(),
        ) {
            Some(name) => name,
            None => {
                return Err(SyncDirectoryError::UnmonitoredDirectory);
            },
        };
        let origin = self.origin(directory);
        let logical_path = LogicalPath::new(name.as_str());
        let tags = match &self.sync_directories[directory].sync_type {
            SyncType::Universal { .. } => None,
            SyncType::TagBased { tags } => Some(copy_tags(tags)),
        };
        match tags {
            None => {
                let full_path = join_path(
                    self.sync_directories[directory].path.as_str(),
                    name.as_str(),
                );
                self.self_writes.record_self_write(full_path.as_str(), None);
                let content = FileBytes::FileToCopy(path).into_move();
                let tags: Vec<TagId> = Vec::new();
                Ok(
                    DaemonMessage::Change(
                        Ingest::Content(
                            ContentChange::FileAdded {
                                file_id,
                                logical_path,
                                content,
                                content_hash,
                                tags,
                            },
                        ),
                        origin,
                    ),
                )
            },
            Some(tags) => {
                let physical_path = self.sync_directories[directory].sync_type.physical_for(
                    &logical_path,
                    file_id,
                );
                if !self.add_row(directory, file_id, &physical_path) {
                    return Err(SyncDirectoryError::FailedAddingFile);
                }
                let content = FileBytes::FileToCopy(path);
                Ok(
                    DaemonMessage::Change(
                        Ingest::Content(
                            ContentChange::FileAdded {
                                file_id,
                                logical_path,
                                content,
                                content_hash,
                                tags,
                            },
                        ),
                        origin,
                    ),
                )
            },
        }
    }

    /// Where a directory stores a file that it has a row for.
    pub fn tracked_path(&self, directory: usize, file: &SyncDirectoryFile) -> (r: Option<String>)
        ensures
            match r {
                Some(path) => directory < self@.directories.len() && path@ == tracked_path(
                    self@.directories[directory as int],
                    *file,
                ),
                None => directory >= self@.directories.len(),
            },
    {
        if directory >= self.sync_directories.len() {
            return None;
        }
        let place = &self.sync_directories[directory];
        assert(self@.directories[directory as int] == place@);
        match &place.sync_type {
            SyncType::Universal { .. } => {
                let name = file.file_id.to_string();
                Some(join_path(place.path.as_str(), name.as_str()))
            },
            SyncType::TagBased { .. } => Some(
                join_path(place.path.as_str(), file.physical_path.as_str()),
            ),
        }
    }

    /// Compares a tracked file with the disk at start: one that is gone is forgotten
    /// and reported deleted, one whose digest is not the last known one is reported
    /// changed.
    pub fn check_tracked(
        &mut self,
        directory: usize,
        file: &SyncDirectoryFile,
        found: DiskState,
        last_known: Option<&str>,
        now: i64,
    ) -> (r: Option<DaemonMessage>)
        ensures
            (final(self)@, optional_report(r)) == after_check(
                old(self)@,
                directory as int,
                *file,
                found,
                optional_str(last_known),
                now,
            ),
    {
        let path = match self.tracked_path(directory, file) {
            Some(path) => path,
            None => {
                return None;
            },
        };
        match found {
            DiskState::Missing => Some(self.remove_file_by_id(directory, file.file_id, now)),
            DiskState::Unreadable => None,
            DiskState::Present(hash) => {
                let same = match last_known {
                    Some(known) => same_text(known, hash.as_str()),
                    None => false,
                };
                if same {
                    None
                } else {
                    Some(self.changed(directory, file.file_id, path, hash))
                }
            },
        }
    }

    /// Whether a file that lies in a directory is unknown to it, and so to be
    /// ingested at start.
    pub fn is_untracked(&self, directory: usize, path: &str) -> (r: bool)
        ensures
            r == (directory < self@.directories.len() && is_untracked(
                self@.directories[directory as int],
                path@,
            )),
    {
        if directory >= self.sync_directories.len() {
            return false;
        }
        let place = &self.sync_directories[directory];
        assert(self@.directories[directory as int] == place@);
        let name = match relative_path(path, place.path.as_str()) {
            Some(name) => name,
            None => {
                return false;
            },
        };
        match &place.sync_type {
            SyncType::Universal { .. } => match FileId::from_string(name.as_str()) {
                Some(file_id) => place.database.get_file(file_id).is_err(),
                None => true,
            },
            SyncType::TagBased { .. } => place.database.get_file_id(
                &PhysicalPath::new(name.as_str()),
            ).is_err(),
        }
    }
}

/// What the daemon puts on disk is not ingested: once a file has been created as a
/// command asked, the event of its creation is ignored, whether it comes as a creation
/// or as a move into the directory.
pub proof fn law_own_creation_is_ignored(
    before: ManagerView,
    finish: super::FinishView,
    hash: Option<Seq<char>>,
)
    requires
        finish is Created,
        super::after_finish(before, finish, hash).1 is Ok,
    ensures
        ({
            let after = super::after_finish(before, finish, hash).0;
            let path = finish->Created_file_path;
            after_create(after, path).1 == Ok::<_, SyncDirectoryError>(EventStepView::Ignore)
                && reflects(after.writes, path, None)
        }),
{
}

/// What the daemon overwrites is not reported back: once a file has been changed as a
/// command asked, its modification is ignored while the content is what was written,
/// and a user's edit is not.
pub proof fn law_own_change_is_ignored(
    before: ManagerView,
    path: Seq<char>,
    hash: Seq<char>,
    observed: Seq<char>,
)
    ensures
        ({
            let after = super::after_finish(
                before,
                super::FinishView::Changed { file_path: path },
                Some(hash),
            ).0;
            (after_modify(after, path, observed).1 == Ok::<_, SyncDirectoryError>(
                EventStepView::Ignore,
            )) == (observed == hash)
        }),
{
}

/// The daemon's own rename is not reported back.
pub proof fn law_own_move_is_ignored(
    before: ManagerView,
    from: Seq<char>,
    to: Seq<char>,
    hash: Option<Seq<char>>,
    after: ManagerView,
    r: Result<EventStepView, SyncDirectoryError>,
)
    requires
        directory_for(before.directories, from) is Some,
        rename_handled(
            super::after_finish(before, super::FinishView::Moved { from, to }, hash).0,
            from,
            to,
            after,
            r,
        ),
    ensures
        r == Ok::<_, SyncDirectoryError>(EventStepView::Ignore),
{
}

/// The daemon's own removal is not reported back.
pub proof fn law_own_removal_is_ignored(
    before: ManagerView,
    finish: super::FinishView,
    hash: Option<Seq<char>>,
    now: i64,
)
    requires
        finish is Removed,
        super::after_finish(before, finish, hash).1 is Ok,
    ensures
        after_remove(
            super::after_finish(before, finish, hash).0,
            finish->Removed_file_path,
            now,
        ).1 == Ok::<_, SyncDirectoryError>(EventStepView::Ignore),
{
}

/// A file of a tagged directory is ingested once: afterwards the directory tracks it.
pub proof fn law_ingested_file_is_tracked(
    before: ManagerView,
    i: int,
    path: Seq<char>,
    hash: Seq<char>,
    file_id: FileId,
)
    requires
        0 <= i < before.directories.len(),
        before.directories[i].kind is TagBased,
        file_at(
            before.directories[i].files,
            relative(path, before.directories[i].path),
        ) is None,
        after_ingest(before, i, path, hash, file_id).1 is Ok,
    ensures
        ({
            let after = after_ingest(before, i, path, hash, file_id).0;
            !is_untracked(after.directories[i], path)
        }),
{
    let after = after_ingest(before, i, path, hash, file_id).0;
    let directory = before.directories[i];
    let name = relative(path, directory.path);
    let files = directory.files.insert(file_id, name);
    assert(after.directories[i].files == files);
    assert forall|f: FileId| #[trigger] files.contains_key(f) && files[f] == name implies file_id.value
        <= f.value by {
        if f != file_id {
            lemma_unnamed(directory.files, name, f);
        }
    }
    assert(is_file_at(files, name, file_id));
}

/// Where no file has a name, a given one has another.
proof fn lemma_unnamed(files: Map<FileId, Seq<char>>, name: Seq<char>, f: FileId)
    requires
        file_at(files, name) is None,
        files.contains_key(f),
    ensures
        files[f] != name,
    decreases f.value,
{
    if files[f] == name {
        assert(!is_file_at(files, name, f));
        let g = choose|g: FileId| #[trigger]
            files.contains_key(g) && files[g] == name && g.value < f.value;
        lemma_unnamed(files, name, g);
    }
}

/// A file that vanished while nobody watched is reported once: afterwards the
/// directory no longer holds it, and no other row has changed.
pub proof fn law_vanished_file_is_forgotten(
    before: ManagerView,
    i: int,
    file: SyncDirectoryFile,
    known: Option<Seq<char>>,
    now: i64,
)
    requires
        0 <= i < before.directories.len(),
    ensures
        ({
            let (after, sent) = after_check(before, i, file, DiskState::Missing, known, now);
            &&& !after.directories[i].files.contains_key(file.file_id)
            &&& forall|f: FileId|
                f != file.file_id ==> (#[trigger] after.directories[i].files.contains_key(f)
                    == before.directories[i].files.contains_key(f))
            &&& sent == Some(
                Report::Deleted {
                    file_id: file.file_id,
                    deleted_at: now,
                    directory: before.directories[i].path,
                },
            )
        }),
{
}

/// A move away of a directory takes only what lies under it along: every other file stays
/// where it was, however its name begins.
pub proof fn law_only_files_under_a_moved_directory_are_lost(
    before: ManagerView,
    i: int,
    from: Seq<char>,
    now: i64,
    after: ManagerView,
    sent: Seq<Report>,
    file_id: FileId,
)
    requires
        0 <= i < before.directories.len(),
        loss_followed(before, i, from, now, after, sent),
        file_at(before.directories[i].files, from) is None,
        before.directories[i].files.contains_key(file_id),
        !is_under(before.directories[i].files[file_id], from),
    ensures
        after.directories[i].files.contains_key(file_id),
        after.directories[i].files[file_id] == before.directories[i].files[file_id],
        forall|k: int|
            0 <= k < sent.len() ==> (#[trigger] sent[k] matches Report::Deleted { file_id: f, .. }
                ==> f != file_id),
{
    let files = before.directories[i].files;
    let list = choose|list: Seq<SyncDirectoryFile>| #[trigger]
        lists_files_at(list, files, from) && after == before.with_files(
            i,
            files_without(files, list, from),
        ) && sent == loss_reports(list, from, now, before.directories[i].path);
    assert forall|k: int| 0 <= k < list.len() implies files.contains_key(
        (#[trigger] list[k]).file_id,
    ) && files[list[k].file_id] == list[k].physical_path@ by {}
    lemma_others_stay(files, list, from, now, before.directories[i].path, file_id);
}

proof fn lemma_others_stay(
    files: Map<FileId, Seq<char>>,
    list: Seq<SyncDirectoryFile>,
    from: Seq<char>,
    now: i64,
    directory: Seq<char>,
    file_id: FileId,
)
    requires
        files.contains_key(file_id),
        !is_under(files[file_id], from),
        forall|k: int|
            0 <= k < list.len() ==> files.contains_key((#[trigger] list[k]).file_id)
                && files[list[k].file_id] == list[k].physical_path@,
    ensures
        files_without(files, list, from).contains_key(file_id),
        files_without(files, list, from)[file_id] == files[file_id],
        forall|k: int|
            0 <= k < loss_reports(list, from, now, directory).len() ==> (#[trigger] loss_reports(
                list,
                from,
                now,
                directory,
            )[k] matches Report::Deleted { file_id: f, .. } ==> f != file_id),
    decreases list.len(),
{
    if list.len() > 0 {
        let init = list.drop_last();
        assert forall|k: int| 0 <= k < init.len() implies files.contains_key(
            (#[trigger] init[k]).file_id,
        ) && files[init[k].file_id] == init[k].physical_path@ by {
            assert(init[k] == list[k]);
        }
        lemma_others_stay(files, init, from, now, directory, file_id);
        assert(list.last() == list[list.len() - 1]);
        let before = loss_reports(init, from, now, directory);
        let all = loss_reports(list, from, now, directory);
        assert forall|k: int| 0 <= k < all.len() implies (#[trigger] all[k] matches Report::Deleted {
            file_id: f,
            ..
        } ==> f != file_id) by {
            if k < before.len() {
                assert(all[k] == before[k]);
            }
        }
    }
}

} // verus!
