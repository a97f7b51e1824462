//! What the events of the watcher and the commands of the daemon are for: what is reported,
//! what is tracked, and where bytes lie.

use vstd::prelude::*;
use super::events::{
    after_check, after_ingest, after_modify, after_moved_in, event_handled, files_moved,
    files_without, is_untracked, loss_reports, move_reports, report, reports, DebouncedEventKind,
    DiskState, EventStepView, Report,
};
use super::{
    after_command, after_finish, directory_for, first_directory, CommandView, DirectoryView,
    DiskStepView, FinishView, ManagerView, SyncDirectoryError,
};
use crate::bus::{ContentChange, DaemonMessage, Ingest};
use crate::configuration::SyncTypeView;
use crate::database::sync_directory::{
    file_at, is_file_at, like, lists_files_at, SyncDirectoryFile,
};
use crate::file_bytes::BytesView;
use crate::ids::{id_text, uuid_value, FileId};
use crate::path_text::{appended, components, is_under, relative};
use crate::state::{Change, ChangeOrigin};

verus! {

/// Whether a path belongs to the `i`-th directory: it is the first that the path lies under.
pub open spec fn lies_in(directories: Seq<DirectoryView>, i: int, path: Seq<char>) -> bool {
    &&& 0 <= i < directories.len()
    &&& is_under(path, directories[i].path)
    &&& forall|j: int| 0 <= j < i ==> !is_under(path, #[trigger] directories[j].path)
}

/// Whether a path lies under no directory.
pub open spec fn lies_nowhere(directories: Seq<DirectoryView>, path: Seq<char>) -> bool {
    forall|j: int| 0 <= j < directories.len() ==> !is_under(path, #[trigger] directories[j].path)
}

/// Whether the daemon wrote a path and no event has been matched with that yet.
pub open spec fn is_own(before: ManagerView, path: Seq<char>) -> bool {
    before.writes.contains_key(components(path))
}

/// Whether a directory tracks a file under the name of a path, and no other there.
pub open spec fn tracks_at(directory: DirectoryView, path: Seq<char>, file_id: FileId) -> bool {
    &&& directory.files.contains_key(file_id)
    &&& directory.files[file_id] == relative(path, directory.path)
    &&& forall|f: FileId| #[trigger]
        directory.files.contains_key(f) && directory.files[f] == relative(path, directory.path)
            ==> f == file_id
}

/// Whether a directory tracks no file under the name of a path.
pub open spec fn tracks_nothing_at(directory: DirectoryView, path: Seq<char>) -> bool {
    forall|f: FileId| #[trigger]
        directory.files.contains_key(f) ==> directory.files[f] != relative(path, directory.path)
}

/// Whether all is as before but for the files of one directory.
pub open spec fn only_files_changed(
    before: ManagerView,
    after: ManagerView,
    i: int,
    files: Map<FileId, Seq<char>>,
) -> bool {
    &&& after.writes == before.writes
    &&& after.directories.len() == before.directories.len()
    &&& after.directories[i].path == before.directories[i].path
    &&& after.directories[i].kind == before.directories[i].kind
    &&& after.directories[i].files == files
    &&& forall|j: int|
        0 <= j < before.directories.len() && j != i ==> #[trigger] after.directories[j]
            == before.directories[j]
}

proof fn lemma_lies_in(directories: Seq<DirectoryView>, i: int, path: Seq<char>)
    requires
        lies_in(directories, i, path),
    ensures
        directory_for(directories, path) == Some(i),
{
    lemma_first(directories, i, path, 0);
}

proof fn lemma_first(directories: Seq<DirectoryView>, i: int, path: Seq<char>, k: int)
    requires
        lies_in(directories, i, path),
        0 <= k <= i,
    ensures
        first_directory(directories, path, k) == Some(i),
    decreases i - k,
{
    if k < i {
        assert(!is_under(path, directories[k].path));
        lemma_first(directories, i, path, k + 1);
    }
}

proof fn lemma_lies_nowhere(directories: Seq<DirectoryView>, path: Seq<char>, k: int)
    requires
        lies_nowhere(directories, path),
        0 <= k <= directories.len(),
    ensures
        first_directory(directories, path, k) is None,
    decreases directories.len() - k,
{
    if k < directories.len() {
        assert(!is_under(path, directories[k].path));
        lemma_lies_nowhere(directories, path, k + 1);
    }
}

proof fn lemma_tracks_at(directory: DirectoryView, path: Seq<char>, file_id: FileId)
    requires
        tracks_at(directory, path, file_id),
    ensures
        file_at(directory.files, relative(path, directory.path)) == Some(file_id),
{
    let name = relative(path, directory.path);
    assert(is_file_at(directory.files, name, file_id));
    let f = choose|f: FileId| is_file_at(directory.files, name, f);
    assert(is_file_at(directory.files, name, f));
}

/// What a report says, in terms of the message that carries it: nothing but the one change
/// that it speaks of, as one that came from the directory.
pub proof fn law_a_report_is_the_change(message: DaemonMessage)
    ensures
        match report(message) {
            Report::Added { file_id, logical_path, content, content_hash, tags, directory } => {
                &&& message matches DaemonMessage::Change(
                    Ingest::Content(
                        ContentChange::FileAdded {
                            file_id: f,
                            logical_path: p,
                            content: c,
                            content_hash: h,
                            tags: t,
                        },
                    ),
                    ChangeOrigin::Local { directory_path },
                )
                &&& f == file_id && p@ == logical_path && c@ == content && h@ == content_hash
                &&& t@ == tags && directory_path@ == directory
            },
            Report::Changed { file_id, content, content_hash, directory } => {
                &&& message matches DaemonMessage::Change(
                    Ingest::Content(
                        ContentChange::FileChanged { file_id: f, content: c, content_hash: h },
                    ),
                    ChangeOrigin::Local { directory_path },
                )
                &&& f == file_id && c@ == content && h@ == content_hash
                &&& directory_path@ == directory
            },
            Report::Moved { file_id, logical_path, directory } => {
                &&& message matches DaemonMessage::Change(
                    Ingest::Meta(Change::FileMoved { file_id: f, logical_path: p }),
                    ChangeOrigin::Local { directory_path },
                )
                &&& f == file_id && p@ == logical_path && directory_path@ == directory
            },
            Report::Deleted { file_id, deleted_at, directory } => {
                &&& message matches DaemonMessage::Change(
                    Ingest::Meta(Change::FileDeleted { file_id: f, deleted_at: at }),
                    ChangeOrigin::Local { directory_path },
                )
                &&& f == file_id && at == deleted_at && directory_path@ == directory
            },
            Report::Other => true,
        },
{
}

/// The messages of a step are reported one for one.
pub proof fn law_each_message_is_reported(messages: Seq<DaemonMessage>)
    ensures
        reports(messages).len() == messages.len(),
        forall|k: int| 0 <= k < messages.len() ==> #[trigger] reports(messages)[k] == report(
            messages[k],
        ),
{
}

/// The removal of a tracked file that is not the daemon's own leads to exactly one report,
/// that this file was deleted from this directory at the given time, and the directory
/// tracks it no longer. Nothing else changes.
pub proof fn law_a_removal_is_reported(
    before: ManagerView,
    file_name: String,
    now: i64,
    after: ManagerView,
    r: Result<EventStepView, SyncDirectoryError>,
    i: int,
    file_id: FileId,
)
    requires
        event_handled(before, DebouncedEventKind::Remove { file_name }, now, after, r),
        !is_own(before, file_name@),
        lies_in(before.directories, i, file_name@),
        tracks_at(before.directories[i], file_name@, file_id),
    ensures
        ({
            &&& r matches Ok(EventStepView::Send(sent))
            &&& sent.len() == 1
            &&& sent[0] == (Report::Deleted {
                file_id,
                deleted_at: now,
                directory: before.directories[i].path,
            })
        }),
        only_files_changed(before, after, i, before.directories[i].files.remove(file_id)),
{
    lemma_lies_in(before.directories, i, file_name@);
    lemma_tracks_at(before.directories[i], file_name@, file_id);
}

/// The removal of a file that nobody tracks is an error, and so is one outside of what is
/// watched. Nothing changes.
pub proof fn law_an_unknown_removal_is_an_error(
    before: ManagerView,
    file_name: String,
    now: i64,
    after: ManagerView,
    r: Result<EventStepView, SyncDirectoryError>,
    i: int,
)
    requires
        event_handled(before, DebouncedEventKind::Remove { file_name }, now, after, r),
        !is_own(before, file_name@),
        lies_nowhere(before.directories, file_name@) || lies_in(before.directories, i, file_name@)
            && tracks_nothing_at(before.directories[i], file_name@),
    ensures
        after == before,
        r == Err::<EventStepView, _>(
            if lies_nowhere(before.directories, file_name@) {
                SyncDirectoryError::UnmonitoredDirectory
            } else {
                SyncDirectoryError::MissingTrackedFile
            },
        ),
{
    if lies_nowhere(before.directories, file_name@) {
        lemma_lies_nowhere(before.directories, file_name@, 0);
    } else {
        lemma_lies_in(before.directories, i, file_name@);
    }
}

/// A file that appears and is not the daemon's own is ingested into its directory; outside
/// of what is watched it is an error. Nothing changes yet.
pub proof fn law_a_created_file_is_ingested(
    before: ManagerView,
    file_name: String,
    now: i64,
    after: ManagerView,
    r: Result<EventStepView, SyncDirectoryError>,
    i: int,
)
    requires
        event_handled(before, DebouncedEventKind::Create { file_name }, now, after, r),
        !is_own(before, file_name@),
        lies_nowhere(before.directories, file_name@) || lies_in(before.directories, i, file_name@),
    ensures
        after == before,
        if lies_nowhere(before.directories, file_name@) {
            r == Err::<EventStepView, _>(SyncDirectoryError::UnmonitoredDirectory)
        } else {
            r == Ok::<_, SyncDirectoryError>(
                EventStepView::Ingest { directory: i, path: file_name@ },
            )
        },
{
    if lies_nowhere(before.directories, file_name@) {
        lemma_lies_nowhere(before.directories, file_name@, 0);
    } else {
        lemma_lies_in(before.directories, i, file_name@);
    }
}

/// An event for what the daemon itself created or removed is ignored and uses up its record;
/// nothing else changes.
pub proof fn law_own_events_are_ignored(
    before: ManagerView,
    file_name: String,
    now: i64,
    after: ManagerView,
    r: Result<EventStepView, SyncDirectoryError>,
)
    requires
        event_handled(before, DebouncedEventKind::Create { file_name }, now, after, r)
            || event_handled(before, DebouncedEventKind::Remove { file_name }, now, after, r),
        is_own(before, file_name@),
    ensures
        r == Ok::<_, SyncDirectoryError>(EventStepView::Ignore),
        after.directories == before.directories,
        after.writes == before.writes.remove(components(file_name@)),
{
}

/// The content of a modified file is looked at first.
pub proof fn law_a_modified_file_is_read(
    before: ManagerView,
    file_name: String,
    now: i64,
    after: ManagerView,
    r: Result<EventStepView, SyncDirectoryError>,
)
    requires
        event_handled(before, DebouncedEventKind::Modify { file_name }, now, after, r),
    ensures
        r == Ok::<_, SyncDirectoryError>(EventStepView::ReadContent { path: file_name@ }),
        after == before,
{
}

/// An edit of a tracked file leads to exactly one report, that this file has this content
/// now, to be copied from where it lies. One that the daemon made itself, by a write of that
/// very content, leads to none. The directories stay as they are.
pub proof fn law_an_edit_is_reported(
    before: ManagerView,
    path: Seq<char>,
    hash: Seq<char>,
    i: int,
    file_id: FileId,
)
    requires
        lies_in(before.directories, i, path),
        tracks_at(before.directories[i], path, file_id),
    ensures
        ({
            let (after, r) = after_modify(before, path, hash);
            let own = is_own(before, path) && (before.writes[components(path)] == Some(hash)
                || before.writes[components(path)] is None);
            &&& after.directories == before.directories
            &&& if own {
                &&& r == Ok::<_, SyncDirectoryError>(EventStepView::Ignore)
                &&& after.writes == before.writes.remove(components(path))
            } else {
                &&& after.writes == before.writes
                &&& r matches Ok(EventStepView::Send(sent))
                &&& sent.len() == 1
                &&& sent[0] == (Report::Changed {
                    file_id,
                    content: BytesView::FileToCopy(path),
                    content_hash: hash,
                    directory: before.directories[i].path,
                })
            }
        }),
{
    lemma_lies_in(before.directories, i, path);
    lemma_tracks_at(before.directories[i], path, file_id);
}

/// An edit of a file that nobody tracks is an error, and so is one outside of what is
/// watched.
pub proof fn law_an_unknown_edit_is_an_error(
    before: ManagerView,
    path: Seq<char>,
    hash: Seq<char>,
    i: int,
)
    requires
        !is_own(before, path),
        lies_nowhere(before.directories, path) || lies_in(before.directories, i, path)
            && tracks_nothing_at(before.directories[i], path),
    ensures
        after_modify(before, path, hash) == (
            before,
            Err::<EventStepView, _>(
                if lies_nowhere(before.directories, path) {
                    SyncDirectoryError::UnmonitoredDirectory
                } else {
                    SyncDirectoryError::MissingTrackedFile
                },
            ),
        ),
{
    if lies_nowhere(before.directories, path) {
        lemma_lies_nowhere(before.directories, path, 0);
    } else {
        lemma_lies_in(before.directories, i, path);
    }
}

/// A user's rename of a tracked file within a tag directory leads to exactly one report,
/// that this file has the new path, and the directory tracks it there.
pub proof fn law_a_renamed_file_is_reported(
    before: ManagerView,
    from: String,
    to: String,
    now: i64,
    after: ManagerView,
    r: Result<EventStepView, SyncDirectoryError>,
    i: int,
    file_id: FileId,
)
    requires
        event_handled(
            before,
            DebouncedEventKind::Move { from: Some(from), to: Some(to) },
            now,
            after,
            r,
        ),
        !is_own(before, from@),
        !is_own(before, to@),
        lies_in(before.directories, i, from@),
        is_under(to@, before.directories[i].path),
        before.directories[i].kind is TagBased,
        tracks_at(before.directories[i], from@, file_id),
    ensures
        ({
            &&& r matches Ok(EventStepView::Send(sent))
            &&& sent.len() == 1
            &&& sent[0] == (Report::Moved {
                file_id,
                logical_path: relative(to@, before.directories[i].path),
                directory: before.directories[i].path,
            })
        }),
        only_files_changed(
            before,
            after,
            i,
            before.directories[i].files.insert(
                file_id,
                relative(to@, before.directories[i].path),
            ),
        ),
{
    lemma_lies_in(before.directories, i, from@);
    lemma_tracks_at(before.directories[i], from@, file_id);
}

/// A rename within a universal directory, one by the daemon itself, and one to a place
/// outside of the directory are not followed.
pub proof fn law_some_renames_mean_nothing(
    before: ManagerView,
    from: String,
    to: String,
    now: i64,
    after: ManagerView,
    r: Result<EventStepView, SyncDirectoryError>,
    i: int,
)
    requires
        event_handled(
            before,
            DebouncedEventKind::Move { from: Some(from), to: Some(to) },
            now,
            after,
            r,
        ),
        lies_in(before.directories, i, from@),
        before.directories[i].kind is Universal || is_own(before, from@) || is_own(before, to@)
            || !is_under(to@, before.directories[i].path),
    ensures
        r == Ok::<_, SyncDirectoryError>(EventStepView::Ignore),
        after.directories == before.directories,
{
    lemma_lies_in(before.directories, i, from@);
    if is_own(before, to@) && components(from@) == components(to@) {
        assert(is_own(before, from@));
    }
}

/// Whether a list of tracked files holds each file once, as it is tracked.
spec fn is_sound_list(
    list: Seq<SyncDirectoryFile>,
    files: Map<FileId, Seq<char>>,
) -> bool {
    &&& forall|k: int, l: int|
        0 <= k < l < list.len() ==> (#[trigger] list[k]).file_id.value < (
        #[trigger] list[l]).file_id.value
    &&& forall|k: int|
        0 <= k < list.len() ==> files.contains_key((#[trigger] list[k]).file_id)
            && files[list[k].file_id] == list[k].physical_path@
}

spec fn is_listed(list: Seq<SyncDirectoryFile>, file_id: FileId) -> bool {
    exists|k: int| 0 <= k < list.len() && (#[trigger] list[k]).file_id == file_id
}

proof fn lemma_moves(
    files: Map<FileId, Seq<char>>,
    list: Seq<SyncDirectoryFile>,
    from: Seq<char>,
    to: Seq<char>,
    directory: Seq<char>,
)
    requires
        is_sound_list(list, files),
    ensures
        files_moved(files, list, from, to).dom() == files.dom(),
        forall|f: FileId|
            files.contains_key(f) ==> #[trigger] files_moved(files, list, from, to)[f] == (if is_listed(
                list,
                f,
            ) && is_under(files[f], from) {
                appended(to, relative(files[f], from))
            } else {
                files[f]
            }),
        forall|f: FileId|
            is_listed(list, f) && is_under(files[f], from) ==> #[trigger] is_moved_in(
                move_reports(list, from, to, directory),
                f,
                appended(to, relative(files[f], from)),
                directory,
            ),
        forall|k: int|
            0 <= k < move_reports(list, from, to, directory).len() ==> is_move_of(
                files,
                list,
                from,
                to,
                directory,
                #[trigger] move_reports(list, from, to, directory)[k],
            ),
        move_reports(list, from, to, directory).len() <= list.len(),
        forall|k: int, l: int|
            0 <= k < l < move_reports(list, from, to, directory).len() ==> file_of(
                #[trigger] move_reports(list, from, to, directory)[k],
            ) != file_of(#[trigger] move_reports(list, from, to, directory)[l]),
    decreases list.len(),
{
    let all = move_reports(list, from, to, directory);
    let moved = files_moved(files, list, from, to);
    if list.len() == 0 {
        assert(moved.dom() =~= files.dom());
    } else {
        let init = list.drop_last();
        let last = list.last();
        assert(forall|k: int| 0 <= k < init.len() ==> #[trigger] init[k] == list[k]);
        lemma_moves(files, init, from, to, directory);
        let before = move_reports(init, from, to, directory);
        assert(list[list.len() - 1] == last);
        assert(moved.dom() =~= files.dom());
        assert forall|f: FileId| #[trigger] is_listed(list, f) <==> is_listed(init, f) || f
            == last.file_id by {
            if is_listed(list, f) && f != last.file_id {
                let k = choose|k: int| 0 <= k < list.len() && (#[trigger] list[k]).file_id == f;
                assert(init[k].file_id == f);
            }
            if is_listed(init, f) {
                let k = choose|k: int| 0 <= k < init.len() && (#[trigger] init[k]).file_id == f;
                assert(list[k].file_id == f);
            }
            assert(list[list.len() - 1].file_id == last.file_id);
        }
        assert(!is_listed(init, last.file_id)) by {
            if is_listed(init, last.file_id) {
                let k = choose|k: int|
                    0 <= k < init.len() && (#[trigger] init[k]).file_id == last.file_id;
                assert(list[k].file_id.value < list[list.len() - 1].file_id.value);
            }
        }
        assert forall|f: FileId|
            files.contains_key(f) implies #[trigger] moved[f] == (if is_listed(list, f) && is_under(
            files[f],
            from,
        ) {
            appended(to, relative(files[f], from))
        } else {
            files[f]
        }) by {
            assert(files_moved(files, init, from, to)[f] == (if is_listed(init, f) && is_under(
                files[f],
                from,
            ) {
                appended(to, relative(files[f], from))
            } else {
                files[f]
            }));
        }
        assert forall|k: int| 0 <= k < all.len() implies is_move_of(
            files,
            list,
            from,
            to,
            directory,
            #[trigger] all[k],
        ) by {
            if k < before.len() {
                assert(all[k] == before[k]);
                assert(is_move_of(files, init, from, to, directory, before[k]));
                assert(is_listed(list, file_of(before[k])));
            } else {
                assert(is_listed(list, last.file_id));
            }
        }
        assert forall|f: FileId| is_listed(list, f) && is_under(files[f], from) implies #[trigger]
        is_moved_in(all, f, appended(to, relative(files[f], from)), directory) by {
            if f == last.file_id {
                assert(all[before.len() as int] == (Report::Moved {
                    file_id: f,
                    logical_path: appended(to, relative(files[f], from)),
                    directory,
                }));
            } else {
                assert(is_listed(init, f));
                assert(is_moved_in(
                    before,
                    f,
                    appended(to, relative(files[f], from)),
                    directory,
                ));
                let k = choose|k: int|
                    0 <= k < before.len() && #[trigger] before[k] == (Report::Moved {
                        file_id: f,
                        logical_path: appended(to, relative(files[f], from)),
                        directory,
                    });
                assert(all[k] == before[k]);
            }
        }
        assert forall|k: int, l: int| 0 <= k < l < all.len() implies file_of(#[trigger] all[k])
            != file_of(#[trigger] all[l]) by {
            assert(all[k] == before[k]);
            assert(is_move_of(files, init, from, to, directory, before[k]));
            if l < before.len() {
                assert(all[l] == before[l]);
            }
        }
    }
}

/// The file that a report is about.
pub open spec fn file_of(r: Report) -> FileId {
    match r {
        Report::Added { file_id, .. } => file_id,
        Report::Changed { file_id, .. } => file_id,
        Report::Moved { file_id, .. } => file_id,
        Report::Deleted { file_id, .. } => file_id,
        Report::Other => FileId { value: 0 },
    }
}

/// Whether some report says that a file moved.
pub open spec fn is_moved_in(
    sent: Seq<Report>,
    file_id: FileId,
    logical_path: Seq<char>,
    directory: Seq<char>,
) -> bool {
    exists|k: int|
        0 <= k < sent.len() && #[trigger] sent[k] == (Report::Moved {
            file_id,
            logical_path,
            directory,
        })
}

/// Whether some report says that a file is gone.
pub open spec fn is_lost_in(
    sent: Seq<Report>,
    file_id: FileId,
    deleted_at: i64,
    directory: Seq<char>,
) -> bool {
    exists|k: int|
        0 <= k < sent.len() && #[trigger] sent[k] == (Report::Deleted {
            file_id,
            deleted_at,
            directory,
        })
}

spec fn is_move_of(
    files: Map<FileId, Seq<char>>,
    list: Seq<SyncDirectoryFile>,
    from: Seq<char>,
    to: Seq<char>,
    directory: Seq<char>,
    r: Report,
) -> bool {
    let f = file_of(r);
    &&& is_listed(list, f)
    &&& is_under(files[f], from)
    &&& r == (Report::Moved {
        file_id: f,
        logical_path: appended(to, relative(files[f], from)),
        directory,
    })
}

spec fn is_loss_of(
    files: Map<FileId, Seq<char>>,
    list: Seq<SyncDirectoryFile>,
    from: Seq<char>,
    now: i64,
    directory: Seq<char>,
    r: Report,
) -> bool {
    let f = file_of(r);
    &&& is_listed(list, f)
    &&& is_under(files[f], from)
    &&& r == (Report::Deleted { file_id: f, deleted_at: now, directory })
}

proof fn lemma_losses(
    files: Map<FileId, Seq<char>>,
    list: Seq<SyncDirectoryFile>,
    from: Seq<char>,
    now: i64,
    directory: Seq<char>,
)
    requires
        is_sound_list(list, files),
    ensures
        forall|f: FileId| #[trigger]
            files_without(files, list, from).contains_key(f) <==> files.contains_key(f) && !(
            is_listed(list, f) && is_under(files[f], from)),
        forall|f: FileId|
            files_without(files, list, from).contains_key(f) ==> #[trigger] files_without(
                files,
                list,
                from,
            )[f] == files[f],
        forall|f: FileId|
            is_listed(list, f) && is_under(files[f], from) ==> #[trigger] is_lost_in(
                loss_reports(list, from, now, directory),
                f,
                now,
                directory,
            ),
        forall|k: int|
            0 <= k < loss_reports(list, from, now, directory).len() ==> is_loss_of(
                files,
                list,
                from,
                now,
                directory,
                #[trigger] loss_reports(list, from, now, directory)[k],
            ),
        forall|k: int, l: int|
            0 <= k < l < loss_reports(list, from, now, directory).len() ==> file_of(
                #[trigger] loss_reports(list, from, now, directory)[k],
            ) != file_of(#[trigger] loss_reports(list, from, now, directory)[l]),
    decreases list.len(),
{
    let all = loss_reports(list, from, now, directory);
    if list.len() > 0 {
        let init = list.drop_last();
        let last = list.last();
        assert(forall|k: int| 0 <= k < init.len() ==> #[trigger] init[k] == list[k]);
        lemma_losses(files, init, from, now, directory);
        let before = loss_reports(init, from, now, directory);
        assert(list[list.len() - 1] == last);
        assert forall|f: FileId| #[trigger] is_listed(list, f) <==> is_listed(init, f) || f
            == last.file_id by {
            if is_listed(list, f) && f != last.file_id {
                let k = choose|k: int| 0 <= k < list.len() && (#[trigger] list[k]).file_id == f;
                assert(init[k].file_id == f);
            }
            if is_listed(init, f) {
                let k = choose|k: int| 0 <= k < init.len() && (#[trigger] init[k]).file_id == f;
                assert(list[k].file_id == f);
            }
            assert(list[list.len() - 1].file_id == last.file_id);
        }
        assert(!is_listed(init, last.file_id)) by {
            if is_listed(init, last.file_id) {
                let k = choose|k: int|
                    0 <= k < init.len() && (#[trigger] init[k]).file_id == last.file_id;
                assert(list[k].file_id.value < list[list.len() - 1].file_id.value);
            }
        }
        let fewer = files_without(files, init, from);
        let left = files_without(files, list, from);
        assert forall|f: FileId| #[trigger] left.contains_key(f) <==> files.contains_key(f) && !(
        is_listed(list, f) && is_under(files[f], from)) by {
            assert(fewer.contains_key(f) <==> files.contains_key(f) && !(is_listed(init, f)
                && is_under(files[f], from)));
            assert(is_listed(list, f) <==> is_listed(init, f) || f == last.file_id);
        }
        assert forall|f: FileId| left.contains_key(f) implies #[trigger] left[f] == files[f] by {
            assert(fewer.contains_key(f));
            assert(fewer[f] == files[f]);
        }
        assert forall|k: int| 0 <= k < all.len() implies is_loss_of(
            files,
            list,
            from,
            now,
            directory,
            #[trigger] all[k],
        ) by {
            if k < before.len() {
                assert(all[k] == before[k]);
                assert(is_loss_of(files, init, from, now, directory, before[k]));
                assert(is_listed(list, file_of(before[k])));
            } else {
                assert(is_listed(list, last.file_id));
            }
        }
        assert forall|f: FileId| is_listed(list, f) && is_under(files[f], from) implies #[trigger]
        is_lost_in(all, f, now, directory) by {
            if f == last.file_id {
                assert(all[before.len() as int] == (Report::Deleted {
                    file_id: f,
                    deleted_at: now,
                    directory,
                }));
            } else {
                assert(is_listed(init, f));
                assert(is_lost_in(before, f, now, directory));
                let k = choose|k: int|
                    0 <= k < before.len() && #[trigger] before[k] == (Report::Deleted {
                        file_id: f,
                        deleted_at: now,
                        directory,
                    });
                assert(all[k] == before[k]);
            }
        }
        assert forall|k: int, l: int| 0 <= k < l < all.len() implies file_of(#[trigger] all[k])
            != file_of(#[trigger] all[l]) by {
            assert(all[k] == before[k]);
            assert(is_loss_of(files, init, from, now, directory, before[k]));
            if l < before.len() {
                assert(all[l] == before[l]);
            }
        }
    }
}

proof fn lemma_like_prefix(prefix: Seq<char>, text: Seq<char>)
    requires
        prefix.is_prefix_of(text),
    ensures
        like(prefix.push('%'), text),
    decreases prefix.len(),
{
    let pattern = prefix.push('%');
    if prefix.len() == 0 {
        lemma_like_anything(pattern, text);
    } else {
        let rest = prefix.drop_first();
        assert(pattern.drop_first() =~= rest.push('%'));
        assert(pattern[0] == prefix[0]);
        assert(text[0] == prefix[0]) by {
            assert(text.subrange(0, prefix.len() as int)[0] == text[0]);
        }
        assert(rest.is_prefix_of(text.drop_first())) by {
            assert(text.drop_first().subrange(0, rest.len() as int) =~= text.subrange(
                0,
                prefix.len() as int,
            ).drop_first());
        }
        lemma_like_prefix(rest, text.drop_first());
        if pattern[0] == '%' {
            assert(like(pattern, text.drop_first()));
        }
    }
}

proof fn lemma_like_anything(pattern: Seq<char>, text: Seq<char>)
    requires
        pattern.len() == 1,
        pattern[0] == '%',
    ensures
        like(pattern, text),
    decreases text.len(),
{
    if text.len() > 0 {
        lemma_like_anything(pattern, text.drop_first());
    } else {
        assert(pattern.drop_first().len() == 0);
        assert(like(pattern.drop_first(), text));
    }
}

/// A user's rename of a directory within a tag directory takes the files under it along:
/// each is tracked at the same place under the new name, and reported so, once. Nothing else
/// is reported, and no other file moves.
pub proof fn law_a_renamed_directory_takes_its_files_along(
    before: ManagerView,
    from: String,
    to: String,
    now: i64,
    after: ManagerView,
    r: Result<EventStepView, SyncDirectoryError>,
    i: int,
    file_id: FileId,
)
    requires
        event_handled(
            before,
            DebouncedEventKind::Move { from: Some(from), to: Some(to) },
            now,
            after,
            r,
        ),
        !is_own(before, from@),
        !is_own(before, to@),
        lies_in(before.directories, i, from@),
        is_under(to@, before.directories[i].path),
        before.directories[i].kind is TagBased,
        tracks_nothing_at(before.directories[i], from@),
        before.directories[i].files.contains_key(file_id),
    ensures
        ({
            let directory = before.directories[i];
            let old_name = relative(from@, directory.path);
            let new_name = relative(to@, directory.path);
            let path = directory.files[file_id];
            &&& r matches Ok(EventStepView::Send(sent))
            &&& after.writes == before.writes
            &&& after.directories.len() == before.directories.len()
            &&& after.directories[i].files.dom() == directory.files.dom()
            &&& if is_under(path, old_name) && old_name.is_prefix_of(path) {
                &&& after.directories[i].files[file_id] == appended(
                    new_name,
                    relative(path, old_name),
                )
                &&& is_moved_in(
                    sent,
                    file_id,
                    appended(new_name, relative(path, old_name)),
                    directory.path,
                )
            } else {
                true
            }
            &&& !is_under(path, old_name) ==> after.directories[i].files[file_id] == path
            &&& forall|k: int|
                0 <= k < sent.len() ==> (#[trigger] sent[k] matches Report::Moved {
                    file_id: f,
                    logical_path,
                    directory: d,
                } && directory.files.contains_key(f) && is_under(directory.files[f], old_name)
                    && logical_path == appended(new_name, relative(directory.files[f], old_name))
                    && d == directory.path)
            &&& forall|k: int, l: int|
                0 <= k < l < sent.len() ==> file_of(#[trigger] sent[k]) != file_of(
                    #[trigger] sent[l],
                )
        }),
{
    let directory = before.directories[i];
    let files = directory.files;
    let old_name = relative(from@, directory.path);
    let new_name = relative(to@, directory.path);
    lemma_lies_in(before.directories, i, from@);
    assert(file_at(files, old_name) is None);
    let sent = r->Ok_0->Send_0;
    let list = choose|list: Seq<SyncDirectoryFile>| #[trigger]
        lists_files_at(list, files, old_name) && after == before.with_files(
            i,
            files_moved(files, list, old_name, new_name),
        ) && sent == move_reports(list, old_name, new_name, directory.path);
    assert(is_sound_list(list, files));
    lemma_moves(files, list, old_name, new_name, directory.path);
    let path = files[file_id];
    if old_name.is_prefix_of(path) {
        lemma_like_prefix(old_name, path);
        assert(is_listed(list, file_id));
    }
    assert forall|k: int| 0 <= k < sent.len() implies (#[trigger] sent[k] matches Report::Moved {
        file_id: f,
        logical_path,
        directory: d,
    } && directory.files.contains_key(f) && is_under(directory.files[f], old_name) && logical_path
        == appended(new_name, relative(directory.files[f], old_name)) && d == directory.path) by {
        assert(is_move_of(files, list, old_name, new_name, directory.path, sent[k]));
        let f = file_of(sent[k]);
        let l = choose|l: int| 0 <= l < list.len() && (#[trigger] list[l]).file_id == f;
        assert(files.contains_key(list[l].file_id));
    }
}

/// A file that is moved away from a directory leads to exactly one report, that it is gone,
/// and is tracked no longer.
pub proof fn law_a_file_moved_away_is_reported(
    before: ManagerView,
    from: String,
    now: i64,
    after: ManagerView,
    r: Result<EventStepView, SyncDirectoryError>,
    i: int,
    file_id: FileId,
)
    requires
        event_handled(
            before,
            DebouncedEventKind::Move { from: Some(from), to: None },
            now,
            after,
            r,
        ),
        lies_in(before.directories, i, from@),
        tracks_at(before.directories[i], from@, file_id),
    ensures
        ({
            &&& r matches Ok(EventStepView::Send(sent))
            &&& sent.len() == 1
            &&& sent[0] == (Report::Deleted {
                file_id,
                deleted_at: now,
                directory: before.directories[i].path,
            })
        }),
        only_files_changed(before, after, i, before.directories[i].files.remove(file_id)),
{
    lemma_lies_in(before.directories, i, from@);
    lemma_tracks_at(before.directories[i], from@, file_id);
}

/// A directory that is moved away takes the files under it with it: each is tracked no
/// longer and reported gone, once. Nothing else is reported, and every other file stays.
pub proof fn law_a_directory_moved_away_is_reported(
    before: ManagerView,
    from: String,
    now: i64,
    after: ManagerView,
    r: Result<EventStepView, SyncDirectoryError>,
    i: int,
    file_id: FileId,
)
    requires
        event_handled(
            before,
            DebouncedEventKind::Move { from: Some(from), to: None },
            now,
            after,
            r,
        ),
        lies_in(before.directories, i, from@),
        tracks_nothing_at(before.directories[i], from@),
        before.directories[i].files.contains_key(file_id),
    ensures
        ({
            let directory = before.directories[i];
            let name = relative(from@, directory.path);
            let path = directory.files[file_id];
            &&& r matches Ok(EventStepView::Send(sent))
            &&& after.writes == before.writes
            &&& after.directories.len() == before.directories.len()
            &&& is_under(path, name) && name.is_prefix_of(path)
                ==> !after.directories[i].files.contains_key(file_id) && is_lost_in(
                sent,
                file_id,
                now,
                directory.path,
            )
            &&& !is_under(path, name) ==> after.directories[i].files.contains_key(file_id)
                && after.directories[i].files[file_id] == path
            &&& forall|k: int|
                0 <= k < sent.len() ==> (#[trigger] sent[k] matches Report::Deleted {
                    file_id: f,
                    deleted_at,
                    directory: d,
                } && directory.files.contains_key(f) && is_under(directory.files[f], name)
                    && deleted_at == now && d == directory.path)
            &&& forall|k: int, l: int|
                0 <= k < l < sent.len() ==> file_of(#[trigger] sent[k]) != file_of(
                    #[trigger] sent[l],
                )
        }),
{
    let directory = before.directories[i];
    let files = directory.files;
    let name = relative(from@, directory.path);
    lemma_lies_in(before.directories, i, from@);
    assert(file_at(files, name) is None);
    let sent = r->Ok_0->Send_0;
    let list = choose|list: Seq<SyncDirectoryFile>| #[trigger]
        lists_files_at(list, files, name) && after == before.with_files(
            i,
            files_without(files, list, name),
        ) && sent == loss_reports(list, name, now, directory.path);
    assert(is_sound_list(list, files));
    lemma_losses(files, list, name, now, directory.path);
    let path = files[file_id];
    if name.is_prefix_of(path) {
        lemma_like_prefix(name, path);
        assert(is_listed(list, file_id));
    }
    assert forall|k: int| 0 <= k < sent.len() implies (#[trigger] sent[k] matches Report::Deleted {
        file_id: f,
        deleted_at,
        directory: d,
    } && directory.files.contains_key(f) && is_under(directory.files[f], name) && deleted_at == now
        && d == directory.path) by {
        assert(is_loss_of(files, list, name, now, directory.path, sent[k]));
        let f = file_of(sent[k]);
        let l = choose|l: int| 0 <= l < list.len() && (#[trigger] list[l]).file_id == f;
        assert(files.contains_key(list[l].file_id));
    }
}

/// What is moved into a directory is looked at there: each file of it is then treated as
/// moved in.
pub proof fn law_what_is_moved_in_is_looked_at(
    before: ManagerView,
    to: String,
    now: i64,
    after: ManagerView,
    r: Result<EventStepView, SyncDirectoryError>,
    i: int,
)
    requires
        event_handled(
            before,
            DebouncedEventKind::Move { from: None, to: Some(to) },
            now,
            after,
            r,
        ),
        lies_in(before.directories, i, to@),
    ensures
        after == before,
        r == Ok::<_, SyncDirectoryError>(EventStepView::MovedIn { directory: i, path: to@ }),
{
    lemma_lies_in(before.directories, i, to@);
}

/// A file that was moved into a directory is ingested, unless the daemon put it there, which
/// uses up the record of that, or the directory tracks it: a universal one by the identifier
/// that its name spells, a tag directory by its name.
pub proof fn law_a_file_moved_in_is_ingested(before: ManagerView, i: int, path: Seq<char>)
    requires
        lies_in(before.directories, i, path),
    ensures
        ({
            let (after, step) = after_moved_in(before, i, path);
            let directory = before.directories[i];
            let name = relative(path, directory.path);
            let has_row = match directory.kind {
                SyncTypeView::Universal { .. } => match uuid_value(name) {
                    Some(value) => directory.files.contains_key(FileId { value }),
                    None => false,
                },
                SyncTypeView::TagBased { .. } => file_at(directory.files, name) is Some,
            };
            &&& after.directories == before.directories
            &&& after.writes == (if is_own(before, path) {
                before.writes.remove(components(path))
            } else {
                before.writes
            })
            &&& step == (if is_own(before, path) || has_row {
                EventStepView::Ignore
            } else {
                EventStepView::Ingest { directory: i, path }
            })
        }),
{
}

/// An ingested file is reported once, under its path in the directory, with the digest of
/// its content. A tag directory keeps it, tracks it and gives it all the tags it asks for; a
/// universal one hands its bytes over without tags, and expects them to disappear.
pub proof fn law_an_ingested_file_is_reported(
    before: ManagerView,
    i: int,
    path: Seq<char>,
    hash: Seq<char>,
    file_id: FileId,
)
    requires
        lies_in(before.directories, i, path),
        !before.directories[i].files.contains_key(file_id),
    ensures
        ({
            let (after, r) = after_ingest(before, i, path, hash, file_id);
            let directory = before.directories[i];
            let name = relative(path, directory.path);
            match directory.kind {
                SyncTypeView::Universal { .. } => {
                    &&& r == Ok::<_, SyncDirectoryError>(
                        Report::Added {
                            file_id,
                            logical_path: name,
                            content: BytesView::FileToMove(path),
                            content_hash: hash,
                            tags: Seq::empty(),
                            directory: directory.path,
                        },
                    )
                    &&& after.directories == before.directories
                    &&& after.writes == before.writes.insert(
                        components(appended(directory.path, name)),
                        None,
                    )
                },
                SyncTypeView::TagBased { tags } => {
                    &&& r == Ok::<_, SyncDirectoryError>(
                        Report::Added {
                            file_id,
                            logical_path: name,
                            content: BytesView::FileToCopy(path),
                            content_hash: hash,
                            tags,
                            directory: directory.path,
                        },
                    )
                    &&& only_files_changed(
                        before,
                        after,
                        i,
                        directory.files.insert(file_id, name),
                    )
                },
            }
        }),
{
}

/// At start a tracked file that is gone is reported deleted and tracked no longer, one whose
/// content is not the last known is reported changed, with the content where the directory
/// stores it, and one that is unchanged or cannot be read is not reported.
pub proof fn law_missed_changes_are_reported(
    before: ManagerView,
    i: int,
    file: SyncDirectoryFile,
    found: DiskState,
    known: Option<Seq<char>>,
    now: i64,
)
    requires
        0 <= i < before.directories.len(),
    ensures
        ({
            let (after, r) = after_check(before, i, file, found, known, now);
            let directory = before.directories[i];
            match found {
                DiskState::Missing => {
                    &&& r == Some(
                        Report::Deleted {
                            file_id: file.file_id,
                            deleted_at: now,
                            directory: directory.path,
                        },
                    )
                    &&& only_files_changed(before, after, i, directory.files.remove(file.file_id))
                },
                DiskState::Unreadable => r is None && after == before,
                DiskState::Present(hash) => {
                    &&& after == before
                    &&& known == Some(hash@) ==> r is None
                    &&& known != Some(hash@) ==> r == Some(
                        Report::Changed {
                            file_id: file.file_id,
                            content: BytesView::FileToCopy(
                                appended(
                                    directory.path,
                                    if directory.kind is Universal {
                                        id_text(file.file_id.value)
                                    } else {
                                        file.physical_path@
                                    },
                                ),
                            ),
                            content_hash: hash@,
                            directory: directory.path,
                        },
                    )
                },
            }
        }),
{
}

/// A file on disk counts as unknown at start just where the directory tracks nothing by its
/// name: a universal one by the identifier that the name spells.
pub proof fn law_unknown_files_are_found(directory: DirectoryView, path: Seq<char>)
    requires
        is_under(path, directory.path),
    ensures
        ({
            let name = relative(path, directory.path);
            is_untracked(directory, path) == match directory.kind {
                SyncTypeView::Universal { .. } => forall|f: FileId| #[trigger]
                    directory.files.contains_key(f) ==> uuid_value(name) != Some(f.value),
                SyncTypeView::TagBased { .. } => !exists|f: FileId|
                    is_file_at(directory.files, name, f),
            }
        }),
{
    let name = relative(path, directory.path);
    if directory.kind is Universal {
        match uuid_value(name) {
            Some(value) => {
                let f = FileId { value };
                if directory.files.contains_key(f) {
                    assert(uuid_value(name) == Some(f.value));
                }
                assert forall|g: FileId| #[trigger]
                    directory.files.contains_key(g) && uuid_value(name) == Some(
                        g.value,
                    ) implies g == f by {}
            },
            None => {},
        }
    }
}

/// The life of a file in a directory. Created where a command says, it is tracked and found
/// there and read from there; its bytes are replaced there; and removed, it is found no
/// more. Only its directory changes.
pub proof fn law_a_created_file_is_found(
    before: ManagerView,
    i: int,
    file_id: FileId,
    physical_path: Seq<char>,
    content: BytesView,
    hash: Option<Seq<char>>,
)
    requires
        lies_in(before.directories, i, before.directories[i].path),
        !before.directories[i].files.contains_key(file_id),
    ensures
        ({
            let root = before.directories[i].path;
            let place = appended(root, physical_path);
            let (unchanged, step) = after_command(
                before,
                CommandView::CreateFile {
                    file_id,
                    physical_path,
                    content,
                    sync_directory_path: root,
                },
            );
            &&& unchanged == before
            &&& step matches Ok(
                DiskStepView::Write { file_path, create_parent, content: written, finish },
            ) && {
                let (after, done) = after_finish(before, finish, hash);
                &&& file_path == place
                &&& create_parent
                &&& written == content
                &&& done is Ok
                &&& after.directories.len() == before.directories.len()
                &&& after.directories[i].files == before.directories[i].files.insert(
                    file_id,
                    physical_path,
                )
                &&& after.directories[i].path == root
                &&& after.directories[i].kind == before.directories[i].kind
                &&& forall|j: int|
                    0 <= j < before.directories.len() && j != i ==> #[trigger] after.directories[j]
                        == before.directories[j]
                &&& after.writes == before.writes.insert(components(place), hash)
            }
        }),
{
    lemma_lies_in(before.directories, i, before.directories[i].path);
}

/// New bytes of a file are put where its directory stores it: a universal one under its
/// identifier, a tag directory where it tracks it. A tag directory that does not track it
/// refuses them. The write is expected.
pub proof fn law_new_bytes_are_put_where_the_file_is(
    before: ManagerView,
    i: int,
    file_id: FileId,
    content: BytesView,
    hash: Option<Seq<char>>,
)
    requires
        lies_in(before.directories, i, before.directories[i].path),
    ensures
        ({
            let directory = before.directories[i];
            let place = appended(
                directory.path,
                if directory.kind is Universal {
                    id_text(file_id.value)
                } else {
                    directory.files[file_id]
                },
            );
            let (unchanged, step) = after_command(
                before,
                CommandView::ChangeFile { file_id, content, sync_directory_path: directory.path },
            );
            &&& unchanged == before
            &&& if directory.kind is TagBased && !directory.files.contains_key(file_id) {
                step == Err::<DiskStepView, _>(SyncDirectoryError::FailedChangingFile)
            } else {
                step matches Ok(
                    DiskStepView::Write { file_path, create_parent, content: written, finish },
                ) && {
                    let (after, done) = after_finish(before, finish, hash);
                    &&& file_path == place
                    &&& !create_parent
                    &&& written == content
                    &&& done is Ok
                    &&& after.directories == before.directories
                    &&& after.writes == before.writes.insert(components(place), hash)
                }
            }
        }),
{
    lemma_lies_in(before.directories, i, before.directories[i].path);
}

/// A move renames a tracked file of a tag directory from where it is tracked to the new
/// place, and tracks it there; both ends are expected. A universal directory moves no bytes.
pub proof fn law_a_file_is_moved(
    before: ManagerView,
    i: int,
    file_id: FileId,
    physical_path: Seq<char>,
    hash: Option<Seq<char>>,
)
    requires
        lies_in(before.directories, i, before.directories[i].path),
        before.directories[i].files.contains_key(file_id),
    ensures
        ({
            let directory = before.directories[i];
            let old_place = appended(directory.path, directory.files[file_id]);
            let new_place = appended(directory.path, physical_path);
            let (after, step) = after_command(
                before,
                CommandView::MoveFile {
                    file_id,
                    physical_path,
                    sync_directory_path: directory.path,
                },
            );
            &&& only_files_changed(
                before,
                after,
                i,
                directory.files.insert(file_id, physical_path),
            )
            &&& if directory.kind is Universal {
                step == Ok::<_, SyncDirectoryError>(DiskStepView::Done)
            } else {
                step matches Ok(DiskStepView::Rename { from, to, finish }) && {
                    let (end, done) = after_finish(after, finish, hash);
                    &&& from == old_place
                    &&& to == new_place
                    &&& done is Ok
                    &&& end.directories == after.directories
                    &&& end.writes == before.writes.insert(components(old_place), None).insert(
                        components(new_place),
                        None,
                    )
                }
            }
        }),
{
    lemma_lies_in(before.directories, i, before.directories[i].path);
}

/// A removal takes a tracked file away from where its directory stores it, and the directory
/// tracks it no longer; the removal is expected. What is not tracked cannot be removed.
pub proof fn law_a_file_is_removed(
    before: ManagerView,
    i: int,
    file_id: FileId,
    hash: Option<Seq<char>>,
)
    requires
        lies_in(before.directories, i, before.directories[i].path),
    ensures
        ({
            let directory = before.directories[i];
            let place = appended(
                directory.path,
                if directory.kind is Universal {
                    id_text(file_id.value)
                } else {
                    directory.files[file_id]
                },
            );
            let (unchanged, step) = after_command(
                before,
                CommandView::RemoveFile { file_id, sync_directory_path: directory.path },
            );
            &&& unchanged == before
            &&& if directory.files.contains_key(file_id) {
                step matches Ok(DiskStepView::Remove { file_path, clear_parent, finish }) && {
                    let (after, done) = after_finish(before, finish, hash);
                    &&& file_path == place
                    &&& clear_parent == (directory.kind is TagBased)
                    &&& done is Ok
                    &&& after.directories.len() == before.directories.len()
                    &&& after.directories[i].files == directory.files.remove(file_id)
                    &&& forall|j: int|
                        0 <= j < before.directories.len() && j != i
                            ==> #[trigger] after.directories[j] == before.directories[j]
                    &&& after.writes == before.writes.insert(components(place), None)
                }
            } else {
                step == Err::<DiskStepView, _>(SyncDirectoryError::FailedRemovingFile)
            }
        }),
{
    lemma_lies_in(before.directories, i, before.directories[i].path);
}

/// A command for a directory that is not there is refused.
pub proof fn law_an_unknown_directory_is_refused(before: ManagerView, command: CommandView)
    requires
        match command {
            CommandView::CreateFile { sync_directory_path, .. } => lies_nowhere(
                before.directories,
                sync_directory_path,
            ),
            CommandView::ChangeFile { sync_directory_path, .. } => lies_nowhere(
                before.directories,
                sync_directory_path,
            ),
            CommandView::MoveFile { sync_directory_path, .. } => lies_nowhere(
                before.directories,
                sync_directory_path,
            ),
            CommandView::RemoveFile { sync_directory_path, .. } => lies_nowhere(
                before.directories,
                sync_directory_path,
            ),
            _ => false,
        },
    ensures
        after_command(before, command) == (
            before,
            Err::<DiskStepView, _>(SyncDirectoryError::UnmonitoredDirectory),
        ),
{
    match command {
        CommandView::CreateFile { sync_directory_path, .. } => {
            lemma_lies_nowhere(before.directories, sync_directory_path, 0);
        },
        CommandView::ChangeFile { sync_directory_path, .. } => {
            lemma_lies_nowhere(before.directories, sync_directory_path, 0);
        },
        CommandView::MoveFile { sync_directory_path, .. } => {
            lemma_lies_nowhere(before.directories, sync_directory_path, 0);
        },
        CommandView::RemoveFile { sync_directory_path, .. } => {
            lemma_lies_nowhere(before.directories, sync_directory_path, 0);
        },
        _ => {},
    }
}

/// Whoever asks where a file lies is told of the first directory that tracks it, or that
/// none does.
pub proof fn law_a_file_is_found_where_it_is_tracked(
    before: ManagerView,
    file_id: FileId,
    respond_to: u64,
    i: int,
)
    requires
        0 <= i <= before.directories.len(),
        i < before.directories.len() ==> before.directories[i].files.contains_key(file_id),
        forall|j: int|
            0 <= j < i ==> !(#[trigger] before.directories[j]).files.contains_key(file_id),
    ensures
        after_command(before, CommandView::LocalPath { file_id, respond_to }) == (
            before,
            Ok::<_, SyncDirectoryError>(
                DiskStepView::AnswerPath {
                    respond_to,
                    path: if i < before.directories.len() {
                        Some(
                            appended(
                                before.directories[i].path,
                                before.directories[i].files[file_id],
                            ),
                        )
                    } else {
                        None
                    },
                },
            ),
        ),
{
    lemma_local_path(before.directories, file_id, i, 0);
}

proof fn lemma_local_path(directories: Seq<DirectoryView>, file_id: FileId, i: int, k: int)
    requires
        0 <= k <= i <= directories.len(),
        i < directories.len() ==> directories[i].files.contains_key(file_id),
        forall|j: int| 0 <= j < i ==> !(#[trigger] directories[j]).files.contains_key(file_id),
    ensures
        super::local_path(directories, file_id, k) == if i < directories.len() {
            Some(appended(directories[i].path, directories[i].files[file_id]))
        } else {
            None
        },
    decreases i - k,
{
    if k < i {
        lemma_local_path(directories, file_id, i, k + 1);
    }
}

/// Whoever asks for the bytes of a file is read one of its copies: those of all directories
/// that track it are tried, each where it is tracked, in the order of the directories.
pub proof fn law_every_copy_is_tried(before: ManagerView, file_id: FileId, respond_to: u64, i: int)
    requires
        0 <= i < before.directories.len(),
    ensures
        ({
            let (after, step) = after_command(
                before,
                CommandView::ReadFile { file_id, respond_to },
            );
            &&& after == before
            &&& step matches Ok(DiskStepView::Read { respond_to: to, candidates }) && {
                let directory = before.directories[i];
                &&& to == respond_to
                &&& directory.files.contains_key(file_id) ==> candidates.contains(
                    (
                        directory.files[file_id],
                        appended(directory.path, directory.files[file_id]),
                    ),
                )
                &&& forall|k: int|
                    0 <= k < candidates.len() ==> is_copy(
                        before.directories,
                        file_id,
                        before.directories.len() as int,
                        #[trigger] candidates[k],
                    )
                &&& candidates.len() <= before.directories.len()
            }
        }),
{
    lemma_copies(before.directories, file_id, before.directories.len() as int);
}

/// Whether one of the first `n` directories tracks a file there.
pub open spec fn is_copy(
    directories: Seq<DirectoryView>,
    file_id: FileId,
    n: int,
    candidate: (Seq<char>, Seq<char>),
) -> bool {
    exists|j: int|
        0 <= j < n && (#[trigger] directories[j]).files.contains_key(file_id) && candidate == (
            directories[j].files[file_id],
            appended(directories[j].path, directories[j].files[file_id]),
        )
}

proof fn lemma_copies(directories: Seq<DirectoryView>, file_id: FileId, n: int)
    requires
        0 <= n <= directories.len(),
    ensures
        super::copies(directories, file_id, n).len() <= n,
        forall|j: int|
            0 <= j < n && (#[trigger] directories[j]).files.contains_key(file_id)
                ==> super::copies(directories, file_id, n).contains(
                (
                    directories[j].files[file_id],
                    appended(directories[j].path, directories[j].files[file_id]),
                ),
            ),
        forall|k: int|
            0 <= k < super::copies(directories, file_id, n).len() ==> is_copy(
                directories,
                file_id,
                n,
                #[trigger] super::copies(directories, file_id, n)[k],
            ),
    decreases n,
{
    if n > 0 {
        lemma_copies(directories, file_id, n - 1);
        let before = super::copies(directories, file_id, n - 1);
        let all = super::copies(directories, file_id, n);
        assert forall|j: int|
            0 <= j < n && (#[trigger] directories[j]).files.contains_key(
                file_id,
            ) implies all.contains(
            (
                directories[j].files[file_id],
                appended(directories[j].path, directories[j].files[file_id]),
            ),
        ) by {
            let wanted = (
                directories[j].files[file_id],
                appended(directories[j].path, directories[j].files[file_id]),
            );
            if j < n - 1 {
                let k = choose|k: int| 0 <= k < before.len() && before[k] == wanted;
                assert(all[k] == wanted);
            } else {
                assert(all[before.len() as int] == wanted);
            }
        }
        assert forall|k: int| 0 <= k < all.len() implies is_copy(
            directories,
            file_id,
            n,
            #[trigger] all[k],
        ) by {
            if k < before.len() {
                assert(all[k] == before[k]);
                assert(is_copy(directories, file_id, n - 1, before[k]));
                let j = choose|j: int|
                    0 <= j < n - 1 && (#[trigger] directories[j]).files.contains_key(file_id)
                        && before[k] == (
                        directories[j].files[file_id],
                        appended(directories[j].path, directories[j].files[file_id]),
                    );
                assert(directories[j].files.contains_key(file_id));
            } else {
                assert(directories[n - 1].files.contains_key(file_id));
            }
        }
    }
}

/// What was done on disk for a directory that is not there, or for a file that is tracked
/// already, is not taken in.
pub proof fn law_a_finish_that_does_not_fit_is_refused(
    before: ManagerView,
    directory: int,
    file_id: FileId,
    physical_path: Seq<char>,
    file_path: Seq<char>,
    hash: Option<Seq<char>>,
)
    requires
        0 <= directory,
    ensures
        ({
            let created = after_finish(
                before,
                FinishView::Created { directory, file_id, physical_path, file_path },
                hash,
            );
            let removed = after_finish(
                before,
                FinishView::Removed { directory, file_id, file_path },
                hash,
            );
            let there = directory < before.directories.len();
            &&& created.1 is Ok <==> there && !before.directories[directory].files.contains_key(
                file_id,
            )
            &&& removed.1 is Ok <==> there
            &&& created.1 is Err ==> created.0 == before
            &&& removed.1 is Err ==> removed.0 == before
        }),
{
}

/// A rename from outside of what is watched, one of which only an end outside is seen, and a
/// file that is to be ingested from outside of its directory, are errors, and change nothing.
pub proof fn law_what_lies_outside_is_an_error(
    before: ManagerView,
    from: Option<String>,
    to: Option<String>,
    now: i64,
    after: ManagerView,
    r: Result<EventStepView, SyncDirectoryError>,
    i: int,
    path: Seq<char>,
    hash: Seq<char>,
    file_id: FileId,
)
    requires
        event_handled(before, DebouncedEventKind::Move { from, to }, now, after, r),
        match (from, to) {
            (Some(from), _) => lies_nowhere(before.directories, from@),
            (None, Some(to)) => lies_nowhere(before.directories, to@),
            _ => false,
        },
        0 <= i,
        i < before.directories.len() ==> !is_under(path, before.directories[i].path),
    ensures
        r == Err::<EventStepView, _>(SyncDirectoryError::UnmonitoredDirectory),
        after == before,
        after_ingest(before, i, path, hash, file_id) == (
            before,
            Err::<Report, _>(SyncDirectoryError::UnmonitoredDirectory),
        ),
{
    match (from, to) {
        (Some(from), _) => {
            lemma_lies_nowhere(before.directories, from@, 0);
        },
        (None, Some(to)) => {
            lemma_lies_nowhere(before.directories, to@, 0);
        },
        _ => {},
    }
}

/// A rename of which neither end is known means nothing.
pub proof fn law_a_rename_without_ends_means_nothing(
    before: ManagerView,
    now: i64,
    after: ManagerView,
    r: Result<EventStepView, SyncDirectoryError>,
)
    requires
        event_handled(
            before,
            DebouncedEventKind::Move { from: None, to: None },
            now,
            after,
            r,
        ),
    ensures
        r == Ok::<_, SyncDirectoryError>(EventStepView::Ignore),
        after == before,
{
}

} // verus!
