//! Placing a file in the directories that its tags ask for.

use vstd::prelude::*;
use super::{DirectoryView, Finish, FinishView, SyncDirectoryManager};
use crate::configuration::{placement, wants, SyncType};
use crate::ids::{FileId, TagId};
use crate::path_text::{appended, join_path, texts};
use crate::state::LogicalPath;

verus! {

/// What is known of a copy of the file that is being placed.
#[derive(Debug)]
pub enum Source {
    /// Nobody has looked yet.
    Unknown,
    /// There is none to be had now.
    Missing,
    /// It lies at this path.
    Known(String),
}

/// The mathematical value of a [`Source`].
#[verifier::ext_equal]
pub enum SourceView {
    Unknown,
    Missing,
    Known(Seq<char>),
}

impl View for Source {
    type V = SourceView;

    open spec fn view(&self) -> SourceView {
        match *self {
            Source::Unknown => SourceView::Unknown,
            Source::Missing => SourceView::Missing,
            Source::Known(path) => SourceView::Known(path@),
        }
    }
}

/// A walk over the directories that places a file where its tags ask for it, and then,
/// once every copy that is wanted has been made, removes it where they do not. Universal
/// directories are passed over.
#[derive(Debug)]
pub struct PlacementRun {
    file_id: FileId,
    logical_path: LogicalPath,
    file_tags: Vec<TagId>,
    losing: bool,
    next: usize,
    source: Source,
}

/// The mathematical value of a [`PlacementRun`].
#[verifier::ext_equal]
pub struct RunView {
    pub file_id: FileId,
    pub logical_path: Seq<char>,
    pub file_tags: Seq<TagId>,
    /// Whether the copies have been made and it is the turn of the removals.
    pub losing: bool,
    /// The directory to look at next.
    pub next: int,
    pub source: SourceView,
}

/// What the walk asks of the disk.
#[derive(Debug)]
pub enum PlacementStep {
    /// Find the first of these paths that exists.
    FindSource { candidates: Vec<String> },
    /// Create the directory around `file_path` and copy `source` there.
    Gain { source: String, file_path: String, finish: Finish },
    /// Remove a file, and the directory around it if it is empty now.
    Lose { file_path: String, finish: Finish },
    /// The walk is over.
    Done,
}

/// The mathematical value of a [`PlacementStep`].
#[verifier::ext_equal]
pub enum PlacementStepView {
    FindSource { candidates: Seq<Seq<char>> },
    Gain { source: Seq<char>, file_path: Seq<char>, finish: FinishView },
    Lose { file_path: Seq<char>, finish: FinishView },
    Done,
}

impl View for PlacementStep {
    type V = PlacementStepView;

    open spec fn view(&self) -> PlacementStepView {
        match *self {
            PlacementStep::FindSource { candidates } => PlacementStepView::FindSource {
                candidates: texts(candidates@),
            },
            PlacementStep::Gain { source, file_path, finish } => PlacementStepView::Gain {
                source: source@,
                file_path: file_path@,
                finish: finish@,
            },
            PlacementStep::Lose { file_path, finish } => PlacementStepView::Lose {
                file_path: file_path@,
                finish: finish@,
            },
            PlacementStep::Done => PlacementStepView::Done,
        }
    }
}

/// Where the first `n` directories store a file that they hold.
pub open spec fn holding_paths(directories: Seq<DirectoryView>, file_id: FileId, n: int) -> Seq<
    Seq<char>,
>
    decreases n,
{
    if n <= 0 {
        Seq::empty()
    } else {
        let before = holding_paths(directories, file_id, n - 1);
        if directories[n - 1].files.contains_key(file_id) {
            before.push(directories[n - 1].stored_at(file_id))
        } else {
            before
        }
    }
}

/// Whether a directory holds a file just where the file's tags ask for it. A
/// universal directory has no tags to go by.
pub open spec fn is_placed(directory: DirectoryView, file_id: FileId, tags: Seq<TagId>) -> bool {
    directory.kind is Universal || directory.files.contains_key(file_id) == wants(
        directory.kind,
        tags,
    )
}

/// Whether the file's tags ask for a copy that a directory does not hold.
pub open spec fn lacks(directory: DirectoryView, file_id: FileId, tags: Seq<TagId>) -> bool {
    !is_placed(directory, file_id, tags) && !directory.files.contains_key(file_id)
}

/// Whether a directory holds a copy that the file's tags do not ask for.
pub open spec fn has_surplus(directory: DirectoryView, file_id: FileId, tags: Seq<TagId>) -> bool {
    !is_placed(directory, file_id, tags) && directory.files.contains_key(file_id)
}

/// The next step of a walk, and the walk after it.
pub open spec fn step_of(directories: Seq<DirectoryView>, run: RunView) -> (
    RunView,
    PlacementStepView,
)
    decreases
            (if run.losing {
                0int
            } else {
                1int
            }),
            directories.len() - run.next,
{
    if run.next < 0 || directories.len() <= run.next {
        if run.losing {
            (run, PlacementStepView::Done)
        } else {
            step_of(directories, RunView { losing: true, next: 0, ..run })
        }
    } else {
        let directory = directories[run.next];
        let passed = RunView { next: run.next + 1, ..run };
        if run.losing {
            if has_surplus(directory, run.file_id, run.file_tags) {
                let file_path = directory.stored_at(run.file_id);
                (
                    passed,
                    PlacementStepView::Lose {
                        file_path,
                        finish: FinishView::Removed {
                            directory: run.next,
                            file_id: run.file_id,
                            file_path,
                        },
                    },
                )
            } else {
                step_of(directories, passed)
            }
        } else if lacks(directory, run.file_id, run.file_tags) {
            match run.source {
                SourceView::Unknown => (
                    run,
                    PlacementStepView::FindSource {
                        candidates: holding_paths(
                            directories,
                            run.file_id,
                            directories.len() as int,
                        ),
                    },
                ),
                SourceView::Missing => step_of(
                    directories,
                    RunView { source: SourceView::Unknown, ..passed },
                ),
                SourceView::Known(source) => {
                    let physical_path = placement(directory.kind, run.logical_path, run.file_id);
                    let file_path = appended(directory.path, physical_path);
                    (
                        passed,
                        PlacementStepView::Gain {
                            source,
                            file_path,
                            finish: FinishView::Created {
                                directory: run.next,
                                file_id: run.file_id,
                                physical_path,
                                file_path,
                            },
                        },
                    )
                },
            }
        } else {
            step_of(directories, passed)
        }
    }
}

impl PlacementRun {
    pub closed spec fn view(&self) -> RunView {
        RunView {
            file_id: self.file_id,
            logical_path: self.logical_path@,
            file_tags: self.file_tags@,
            losing: self.losing,
            next: self.next as int,
            source: self.source@,
        }
    }

    /// A walk that is about to start.
    pub fn new(file_id: FileId, logical_path: LogicalPath, file_tags: Vec<TagId>) -> (r: Self)
        ensures
            r@ == (RunView {
                file_id,
                logical_path: logical_path@,
                file_tags: file_tags@,
                losing: false,
                next: 0,
                source: SourceView::Unknown,
            }),
    {
        PlacementRun {
            file_id,
            logical_path,
            file_tags,
            losing: false,
            next: 0,
            source: Source::Unknown,
        }
    }

    /// Hands the walk the copy that it asked for: the first candidate that exists, if
    /// any does.
    pub fn found(&mut self, source: Option<String>)
        ensures
            final(self)@ == (RunView {
                source: match source {
                    Some(path) => SourceView::Known(path@),
                    None => SourceView::Missing,
                },
                ..old(self)@
            }),
    {
        self.source = match source {
            Some(path) => Source::Known(path),
            None => Source::Missing,
        };
    }

    /// The next step. Where it asks for a copy, [`PlacementRun::found`] comes before
    /// the next call; where it changes the disk, what it asks to be recorded does.
    pub fn next_step(&mut self, manager: &SyncDirectoryManager) -> (r: PlacementStep)
        ensures
            (final(self)@, r@) == step_of(manager@.directories, old(self)@),
    {
        let ghost directories = manager@.directories;
        let n: usize = manager.sync_directories.len();
        assert(directories.len() == n);
        loop
            invariant
                directories == manager@.directories,
                n == manager.sync_directories.len(),
                directories.len() == n,
                step_of(directories, self@) == step_of(directories, old(self)@),
            decreases
                    (if self.losing {
                        0int
                    } else {
                        1int
                    }),
                    n - self.next,
        {
            if self.next >= n {
                if self.losing {
                    return PlacementStep::Done;
                }
                self.losing = true;
                self.next = 0;
                continue;
            }
            let i: usize = self.next;
            let file_id = self.file_id;
            let directory = &manager.sync_directories[i];
            assert(directories[i as int] == directory@);
            let should_hold = match &directory.sync_type {
                SyncType::Universal { .. } => {
                    self.next = i + 1;
                    continue;
                },
                SyncType::TagBased { .. } => directory.sync_type.wants(&self.file_tags),
            };
            let currently_holds = directory.database.get_file(file_id).is_ok();
            if should_hold == currently_holds || currently_holds != self.losing {
                self.next = i + 1;
                continue;
            }
            if self.losing {
                if let Some(file_path) = manager.stored_path(i, file_id) {
                    self.next = i + 1;
                    let finish = Finish::Removed {
                        directory: i,
                        file_id,
                        file_path: file_path.clone(),
                    };
                    return PlacementStep::Lose { file_path, finish };
                }
            }
            match &self.source {
                Source::Unknown => {
                    return PlacementStep::FindSource { candidates: manager.holding_paths(file_id) };
                },
                Source::Missing => {
                    self.next = i + 1;
                    self.source = Source::Unknown;
                },
                Source::Known(path) => {
                    let source = path.clone();
                    let physical_path = directory.sync_type.physical_for(
                        &self.logical_path,
                        file_id,
                    );
                    let file_path = join_path(directory.path.as_str(), physical_path.as_str());
                    self.next = i + 1;
                    let finish = Finish::Created {
                        directory: i,
                        file_id,
                        physical_path,
                        file_path: file_path.clone(),
                    };
                    return PlacementStep::Gain { source, file_path, finish };
                },
            }
        }
    }
}

/// Copies come before removals: a walk that lacks no copy removes one only where none of
/// the directories ahead of it lacks the file.
pub proof fn law_copies_come_before_removals(directories: Seq<DirectoryView>, run: RunView)
    requires
        0 <= run.next <= directories.len(),
        !run.losing,
        run.source !is Missing,
        step_of(directories, run).1 is Lose || step_of(directories, run).1 is Done,
    ensures
        forall|j: int|
            run.next <= j < directories.len() ==> !lacks(
                #[trigger] directories[j],
                run.file_id,
                run.file_tags,
            ),
    decreases directories.len() - run.next,
{
    if run.next < directories.len() {
        law_copies_come_before_removals(directories, RunView { next: run.next + 1, ..run });
    }
}

/// Placement is idempotent: where the file is placed as its tags ask in every
/// directory, a walk asks nothing of the disk.
pub proof fn law_placement_is_idempotent(directories: Seq<DirectoryView>, run: RunView)
    requires
        0 <= run.next,
        forall|j: int|
            0 <= j < directories.len() ==> is_placed(
                #[trigger] directories[j],
                run.file_id,
                run.file_tags,
            ),
    ensures
        step_of(directories, run).1 == PlacementStepView::Done,
    decreases
            (if run.losing {
                0int
            } else {
                1int
            }),
            directories.len() - run.next,
{
    if run.next < directories.len() {
        law_placement_is_idempotent(directories, RunView { next: run.next + 1, ..run });
    } else if !run.losing {
        law_placement_is_idempotent(directories, RunView { losing: true, next: 0, ..run });
    }
}

} // verus!
