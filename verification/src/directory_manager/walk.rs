//! What a whole placement walk leaves behind.

use vstd::prelude::*;
use super::placement::{
    has_surplus, holding_paths, is_placed, lacks, step_of, PlacementStepView, RunView, SourceView,
};
use super::{after_finish, DirectoryView, ManagerView};
use crate::configuration::{placement, wants};
use crate::file_bytes::blake3_hex;
use crate::ids::FileId;
use crate::path_text::appended;

verus! {

/// A walk on its way: the state of the directories, the files on disk, and the walk.
#[verifier::ext_equal]
pub struct Walk {
    pub manager: ManagerView,
    pub disk: Map<Seq<char>, Seq<u8>>,
    pub run: RunView,
}

/// The first of some paths, from the `i`-th on, that exists.
pub open spec fn first_existing(
    paths: Seq<Seq<char>>,
    disk: Map<Seq<char>, Seq<u8>>,
    i: int,
) -> Option<Seq<char>>
    decreases paths.len() - i,
{
    if i < 0 || paths.len() <= i {
        None
    } else if disk.contains_key(paths[i]) {
        Some(paths[i])
    } else {
        first_existing(paths, disk, i + 1)
    }
}

/// A walk after one more step, on a disk that does what it is asked.
pub open spec fn after_step(walk: Walk) -> Walk {
    let (run, step) = step_of(walk.manager.directories, walk.run);
    match step {
        PlacementStepView::FindSource { candidates } => Walk {
            run: RunView {
                source: match first_existing(candidates, walk.disk, 0) {
                    Some(path) => SourceView::Known(path),
                    None => SourceView::Missing,
                },
                ..run
            },
            ..walk
        },
        PlacementStepView::Gain { source, file_path, finish } => Walk {
            manager: after_finish(
                walk.manager,
                finish,
                Some(blake3_hex(walk.disk[source])),
            ).0,
            disk: walk.disk.insert(file_path, walk.disk[source]),
            run,
        },
        PlacementStepView::Lose { file_path, finish } => Walk {
            manager: after_finish(walk.manager, finish, None).0,
            disk: walk.disk.remove(file_path),
            run,
        },
        PlacementStepView::Done => Walk { run, ..walk },
    }
}

/// A walk after `n` more steps.
pub open spec fn after_steps(walk: Walk, n: nat) -> Walk
    decreases n,
{
    if n == 0 {
        walk
    } else {
        after_steps(after_step(walk), (n - 1) as nat)
    }
}

/// A directory that got a copy.
pub open spec fn with_copy(
    directory: DirectoryView,
    file_id: FileId,
    logical_path: Seq<char>,
) -> DirectoryView {
    DirectoryView {
        files: directory.files.insert(file_id, placement(directory.kind, logical_path, file_id)),
        ..directory
    }
}

/// A directory that lost its copy.
pub open spec fn without_copy(directory: DirectoryView, file_id: FileId) -> DirectoryView {
    DirectoryView { files: directory.files.remove(file_id), ..directory }
}

/// A directory once a file is placed as its tags ask: with a copy where they ask for one,
/// and without where they do not. A universal directory stays as it is.
pub open spec fn settled(directory: DirectoryView, run: RunView) -> DirectoryView {
    if lacks(directory, run.file_id, run.file_tags) {
        with_copy(directory, run.file_id, run.logical_path)
    } else if has_surplus(directory, run.file_id, run.file_tags) {
        without_copy(directory, run.file_id)
    } else {
        directory
    }
}

/// Where a directory stores its copy of a file, or would store one.
pub open spec fn place_in(directory: DirectoryView, run: RunView) -> Seq<char> {
    if directory.files.contains_key(run.file_id) {
        directory.stored_at(run.file_id)
    } else {
        appended(directory.path, placement(directory.kind, run.logical_path, run.file_id))
    }
}

/// Whether a walk is about to start.
pub open spec fn is_fresh(run: RunView) -> bool {
    !run.losing && run.next == 0 && run.source == SourceView::Unknown
}

/// Whether a directory has a copy of a file, by its rows, or is to get one.
pub open spec fn is_concerned(directory: DirectoryView, run: RunView) -> bool {
    directory.files.contains_key(run.file_id) || lacks(directory, run.file_id, run.file_tags)
}

/// Whether each copy that is to be removed lies apart from the copies of all other
/// directories, those to be made among them.
pub open spec fn removals_lie_apart(directories: Seq<DirectoryView>, run: RunView) -> bool {
    forall|i: int, j: int|
        0 <= i < directories.len() && 0 <= j < directories.len() && i != j && has_surplus(
            #[trigger] directories[i],
            run.file_id,
            run.file_tags,
        ) && is_concerned(#[trigger] directories[j], run) ==> place_in(directories[i], run)
            != place_in(directories[j], run)
}

/// Whether a directory has a copy of a file on disk.
pub open spec fn has_copy(
    directory: DirectoryView,
    disk: Map<Seq<char>, Seq<u8>>,
    run: RunView,
) -> bool {
    directory.files.contains_key(run.file_id) && disk.contains_key(place_in(directory, run))
}

/// Whether every copy of a file holds the same bytes, and there is one.
pub open spec fn is_source(
    directories: Seq<DirectoryView>,
    disk: Map<Seq<char>, Seq<u8>>,
    run: RunView,
    content: Seq<u8>,
) -> bool {
    &&& exists|i: int| 0 <= i < directories.len() && has_copy(#[trigger] directories[i], disk, run)
    &&& forall|i: int|
        0 <= i < directories.len() && has_copy(#[trigger] directories[i], disk, run)
            ==> disk[place_in(directories[i], run)] == content
}

/// Whether two disks agree on a path.
pub open spec fn agree(
    a: Map<Seq<char>, Seq<u8>>,
    b: Map<Seq<char>, Seq<u8>>,
    path: Seq<char>,
) -> bool {
    &&& a.contains_key(path) <==> b.contains_key(path)
    &&& a.contains_key(path) ==> a[path] == b[path]
}

/// Whether the disk holds what a settled directory should have there: the content where it
/// got a copy, nothing where it lost one, and where it keeps one, what was there.
pub open spec fn stored(
    directory: DirectoryView,
    before: Map<Seq<char>, Seq<u8>>,
    after: Map<Seq<char>, Seq<u8>>,
    run: RunView,
    content: Seq<u8>,
) -> bool {
    let path = place_in(directory, run);
    if lacks(directory, run.file_id, run.file_tags) {
        after.contains_key(path) && after[path] == content
    } else if has_surplus(directory, run.file_id, run.file_tags) {
        !after.contains_key(path)
    } else {
        has_copy(directory, before, run) ==> after.contains_key(path) && after[path]
            == before[path]
    }
}

/// Whether a path is not one where a copy is to be made or removed.
pub open spec fn is_elsewhere(
    directories: Seq<DirectoryView>,
    run: RunView,
    path: Seq<char>,
) -> bool {
    forall|j: int|
        0 <= j < directories.len() && !is_placed(
            #[trigger] directories[j],
            run.file_id,
            run.file_tags,
        ) ==> place_in(directories[j], run) != path
}

/// Whether a copy has been made in the `j`-th directory.
spec fn copied(start: Walk, run: RunView, j: int) -> bool {
    lacks(start.manager.directories[j], run.file_id, run.file_tags) && (run.losing || j < run.next)
}

/// Whether the copy in the `j`-th directory has been removed.
spec fn removed(start: Walk, run: RunView, j: int) -> bool {
    has_surplus(start.manager.directories[j], run.file_id, run.file_tags) && run.losing && j
        < run.next
}

/// The `j`-th directory as the walk has left it so far.
spec fn so_far(start: Walk, run: RunView, j: int) -> DirectoryView {
    let directory = start.manager.directories[j];
    if copied(start, run, j) {
        with_copy(directory, run.file_id, run.logical_path)
    } else if removed(start, run, j) {
        without_copy(directory, run.file_id)
    } else {
        directory
    }
}

/// What the disk has of the `j`-th directory so far.
spec fn stored_so_far(start: Walk, walk: Walk, content: Seq<u8>, j: int) -> bool {
    let path = place_in(start.manager.directories[j], walk.run);
    if copied(start, walk.run, j) {
        walk.disk.contains_key(path) && walk.disk[path] == content
    } else if removed(start, walk.run, j) {
        !walk.disk.contains_key(path)
    } else if start.manager.directories[j].files.contains_key(walk.run.file_id) {
        &&& start.disk.contains_key(path) ==> walk.disk.contains_key(path)
        &&& walk.disk.contains_key(path) ==> walk.disk[path] == content
    } else {
        true
    }
}

/// What holds all along a walk from `start`.
spec fn on_the_way(start: Walk, walk: Walk, content: Seq<u8>) -> bool {
    let n = start.manager.directories.len();
    &&& is_source(start.manager.directories, start.disk, start.run, content)
    &&& removals_lie_apart(start.manager.directories, start.run)
    &&& walk.run.file_id == start.run.file_id
    &&& walk.run.logical_path == start.run.logical_path
    &&& walk.run.file_tags == start.run.file_tags
    &&& walk.manager.directories.len() == n
    &&& 0 <= walk.run.next <= n
    &&& walk.run.source !is Missing
    &&& !walk.run.losing ==> (walk.run.source matches SourceView::Known(p)
        ==> walk.disk.contains_key(p) && walk.disk[p] == content)
    &&& forall|j: int|
        0 <= j < n ==> #[trigger] walk.manager.directories[j] == so_far(start, walk.run, j)
    &&& forall|j: int|
        0 <= j < n ==> #[trigger] stored_so_far(start, walk, content, j)
    &&& forall|path: Seq<char>| #[trigger]
        is_elsewhere(start.manager.directories, start.run, path) ==> agree(
            start.disk,
            walk.disk,
            path,
        )
}

/// What a walk from `start` leaves behind.
pub open spec fn is_settled(start: Walk, end: Walk, content: Seq<u8>) -> bool {
    let before = start.manager.directories;
    let after = end.manager.directories;
    &&& step_of(after, end.run).1 == PlacementStepView::Done
    &&& after.len() == before.len()
    &&& forall|j: int|
        0 <= j < before.len() ==> #[trigger] after[j] == settled(before[j], start.run)
    &&& forall|j: int|
        0 <= j < before.len() ==> stored(
            #[trigger] before[j],
            start.disk,
            end.disk,
            start.run,
            content,
        )
    &&& forall|path: Seq<char>| #[trigger]
        is_elsewhere(before, start.run, path) ==> agree(start.disk, end.disk, path)
}

/// A bound on the steps that a walk has left.
spec fn steps_left(n: int, run: RunView) -> int {
    if run.losing {
        n - run.next + 1
    } else {
        2 * (n - run.next) + n + 2 + (if run.source is Unknown {
            1int
        } else {
            0int
        })
    }
}

/// A walk that is over stays as it is.
proof fn lemma_over(walk: Walk, n: nat)
    requires
        step_of(walk.manager.directories, walk.run) == (walk.run, PlacementStepView::Done),
    ensures
        after_steps(walk, n) == walk,
    decreases n,
{
    if n > 0 {
        lemma_over(walk, (n - 1) as nat);
    }
}

/// Whether one of the first `n` directories stores its copy of a file at a path.
spec fn is_held_at(
    directories: Seq<DirectoryView>,
    file_id: FileId,
    n: int,
    path: Seq<char>,
) -> bool {
    exists|j: int|
        0 <= j < n && (#[trigger] directories[j]).files.contains_key(file_id) && path
            == directories[j].stored_at(file_id)
}

proof fn lemma_holders(directories: Seq<DirectoryView>, file_id: FileId, n: int)
    requires
        0 <= n <= directories.len(),
    ensures
        forall|j: int|
            0 <= j < n && (#[trigger] directories[j]).files.contains_key(file_id) ==> holding_paths(
                directories,
                file_id,
                n,
            ).contains(directories[j].stored_at(file_id)),
        forall|k: int|
            0 <= k < holding_paths(directories, file_id, n).len() ==> is_held_at(
                directories,
                file_id,
                n,
                #[trigger] holding_paths(directories, file_id, n)[k],
            ),
    decreases n,
{
    if n > 0 {
        lemma_holders(directories, file_id, n - 1);
        let before = holding_paths(directories, file_id, n - 1);
        let all = holding_paths(directories, file_id, n);
        assert forall|j: int|
            0 <= j < n && (#[trigger] directories[j]).files.contains_key(
                file_id,
            ) implies all.contains(directories[j].stored_at(file_id)) by {
            if j < n - 1 {
                let k = choose|k: int|
                    0 <= k < before.len() && before[k] == directories[j].stored_at(file_id);
                assert(all[k] == before[k]);
            } else {
                assert(all[before.len() as int] == directories[j].stored_at(file_id));
            }
        }
        assert forall|k: int| 0 <= k < all.len() implies is_held_at(
            directories,
            file_id,
            n,
            #[trigger] all[k],
        ) by {
            if k < before.len() {
                assert(all[k] == before[k]);
                assert(is_held_at(directories, file_id, n - 1, before[k]));
                let j = choose|j: int|
                    0 <= j < n - 1 && (#[trigger] directories[j]).files.contains_key(file_id)
                        && before[k] == directories[j].stored_at(file_id);
                assert(directories[j].files.contains_key(file_id));
            } else {
                assert(directories[n - 1].files.contains_key(file_id));
            }
        }
    }
}

proof fn lemma_first_existing(paths: Seq<Seq<char>>, disk: Map<Seq<char>, Seq<u8>>, i: int)
    requires
        0 <= i <= paths.len(),
        exists|k: int| i <= k < paths.len() && disk.contains_key(#[trigger] paths[k]),
    ensures
        first_existing(paths, disk, i) matches Some(path) && disk.contains_key(path)
            && paths.contains(path),
    decreases paths.len() - i,
{
    let k = choose|k: int| i <= k < paths.len() && disk.contains_key(#[trigger] paths[k]);
    if !disk.contains_key(paths[i]) {
        assert(k > i);
        lemma_first_existing(paths, disk, i + 1);
    }
}

/// On its way a walk that looks for a copy finds one.
proof fn lemma_finds_a_copy(start: Walk, walk: Walk, content: Seq<u8>)
    requires
        on_the_way(start, walk, content),
        !walk.run.losing,
    ensures
        first_existing(
            holding_paths(
                walk.manager.directories,
                walk.run.file_id,
                walk.manager.directories.len() as int,
            ),
            walk.disk,
            0,
        ) matches Some(path) && walk.disk.contains_key(path) && walk.disk[path] == content,
{
    let directories = walk.manager.directories;
    let before = start.manager.directories;
    let f = walk.run.file_id;
    let n = directories.len() as int;
    let paths = holding_paths(directories, f, n);
    lemma_holders(directories, f, n);
    let w = choose|i: int|
        0 <= i < before.len() && has_copy(#[trigger] before[i], start.disk, start.run);
    assert(stored_so_far(start, walk, content, w));
    assert(directories[w] == so_far(start, walk.run, w));
    assert(paths.contains(directories[w].stored_at(f)));
    let k = choose|k: int| 0 <= k < paths.len() && paths[k] == directories[w].stored_at(f);
    assert(walk.disk.contains_key(paths[k]));
    lemma_first_existing(paths, walk.disk, 0);
    let path = first_existing(paths, walk.disk, 0).unwrap();
    let m = choose|m: int| 0 <= m < paths.len() && paths[m] == path;
    assert(is_held_at(directories, f, n, paths[m]));
    let j = choose|j: int|
        0 <= j < n && (#[trigger] directories[j]).files.contains_key(f) && paths[m]
            == directories[j].stored_at(f);
    assert(directories[j] == so_far(start, walk.run, j));
    assert(stored_so_far(start, walk, content, j));
}

/// A copy keeps a walk on its way.
proof fn lemma_gain(start: Walk, walk: Walk, content: Seq<u8>)
    requires
        on_the_way(start, walk, content),
        !walk.run.losing,
        walk.run.source is Known,
        walk.run.next < walk.manager.directories.len(),
        lacks(
            walk.manager.directories[walk.run.next],
            walk.run.file_id,
            walk.run.file_tags,
        ),
    ensures
        on_the_way(start, after_step(walk), content),
        after_step(walk).run == (RunView { next: walk.run.next + 1, ..walk.run }),
{
    let i = walk.run.next;
    let before = start.manager.directories;
    let next = after_step(walk);
    assert(walk.manager.directories[i] == so_far(start, walk.run, i));
    assert forall|j: int| 0 <= j < before.len() implies #[trigger] next.manager.directories[j]
        == so_far(start, next.run, j) by {
        assert(walk.manager.directories[j] == so_far(start, walk.run, j));
        if j == i {
            assert(next.manager.directories[i] == with_copy(
                before[i],
                start.run.file_id,
                start.run.logical_path,
            ));
        }
    }
    assert forall|j: int| 0 <= j < before.len() implies #[trigger] stored_so_far(
        start,
        next,
        content,
        j,
    ) by {
        assert(stored_so_far(start, walk, content, j));
    }
    assert forall|path: Seq<char>| #[trigger]
        is_elsewhere(before, start.run, path) implies agree(start.disk, next.disk, path) by {
        assert(!is_placed(before[i], start.run.file_id, start.run.file_tags));
    }
}

/// A removal keeps a walk on its way.
proof fn lemma_loss(start: Walk, walk: Walk, content: Seq<u8>)
    requires
        on_the_way(start, walk, content),
        walk.run.losing,
        walk.run.next < walk.manager.directories.len(),
        has_surplus(
            walk.manager.directories[walk.run.next],
            walk.run.file_id,
            walk.run.file_tags,
        ),
    ensures
        on_the_way(start, after_step(walk), content),
        after_step(walk).run == (RunView { next: walk.run.next + 1, ..walk.run }),
{
    let i = walk.run.next;
    let before = start.manager.directories;
    let next = after_step(walk);
    assert(walk.manager.directories[i] == so_far(start, walk.run, i));
    assert forall|j: int| 0 <= j < before.len() implies #[trigger] next.manager.directories[j]
        == so_far(start, next.run, j) by {
        assert(walk.manager.directories[j] == so_far(start, walk.run, j));
    }
    assert forall|j: int| 0 <= j < before.len() implies #[trigger] stored_so_far(
        start,
        next,
        content,
        j,
    ) by {
        assert(stored_so_far(start, walk, content, j));
        if j != i && is_concerned(before[j], start.run) {
            assert(has_surplus(before[i], start.run.file_id, start.run.file_tags));
            assert(place_in(before[i], start.run) != place_in(before[j], start.run));
        }
    }
    assert forall|path: Seq<char>| #[trigger]
        is_elsewhere(before, start.run, path) implies agree(start.disk, next.disk, path) by {
        assert(!is_placed(before[i], start.run.file_id, start.run.file_tags));
    }
}

/// Passing a directory by, or turning to the removals, keeps a walk on its way.
proof fn lemma_passes(start: Walk, walk: Walk, run: RunView, content: Seq<u8>)
    requires
        on_the_way(start, walk, content),
        ({
            let n = walk.manager.directories.len();
            let directory = walk.manager.directories[walk.run.next];
            ||| walk.run.next == n && !walk.run.losing && run == (RunView {
                losing: true,
                next: 0,
                ..walk.run
            })
            ||| walk.run.next < n && run == (RunView { next: walk.run.next + 1, ..walk.run })
                && (if walk.run.losing {
                !has_surplus(directory, run.file_id, run.file_tags)
            } else {
                !lacks(directory, run.file_id, run.file_tags)
            })
        }),
    ensures
        on_the_way(start, Walk { run, ..walk }, content),
{
    let next = Walk { run, ..walk };
    let before = start.manager.directories;
    assert forall|j: int| 0 <= j < before.len() implies #[trigger] next.manager.directories[j]
        == so_far(start, run, j) by {
        assert(walk.manager.directories[j] == so_far(start, walk.run, j));
    }
    assert forall|j: int| 0 <= j < before.len() implies #[trigger] stored_so_far(
        start,
        next,
        content,
        j,
    ) by {
        assert(stored_so_far(start, walk, content, j));
        assert(walk.manager.directories[j] == so_far(start, walk.run, j));
    }
}

/// The rest of a walk that is on its way.
proof fn lemma_rest(start: Walk, walk: Walk, content: Seq<u8>, n: nat)
    requires
        on_the_way(start, walk, content),
        n >= steps_left(walk.manager.directories.len() as int, walk.run),
    ensures
        is_settled(start, after_steps(walk, n), content),
    decreases
            (if walk.run.losing {
                0int
            } else {
                1int
            }),
            walk.manager.directories.len() - walk.run.next,
            (if walk.run.source is Unknown {
                1int
            } else {
                0int
            }),
{
    let directories = walk.manager.directories;
    let run = walk.run;
    let before = start.manager.directories;
    let m = directories.len();
    if run.next == m && run.losing {
        lemma_over(walk, n);
        assert forall|j: int| 0 <= j < before.len() implies #[trigger] directories[j] == settled(
            before[j],
            start.run,
        ) by {
            assert(directories[j] == so_far(start, run, j));
        }
        assert forall|j: int| 0 <= j < before.len() implies stored(
            #[trigger] before[j],
            start.disk,
            walk.disk,
            start.run,
            content,
        ) by {
            assert(stored_so_far(start, walk, content, j));
        }
    } else if run.next == m {
        let turned = RunView { losing: true, next: 0, ..run };
        lemma_passes(start, walk, turned, content);
        assert(after_step(walk) == after_step(Walk { run: turned, ..walk }));
        lemma_rest(start, Walk { run: turned, ..walk }, content, n);
    } else {
        let passed = RunView { next: run.next + 1, ..run };
        let directory = directories[run.next];
        let stops = if run.losing {
            has_surplus(directory, run.file_id, run.file_tags)
        } else {
            lacks(directory, run.file_id, run.file_tags)
        };
        if !stops {
            lemma_passes(start, walk, passed, content);
            assert(after_step(walk) == after_step(Walk { run: passed, ..walk }));
            lemma_rest(start, Walk { run: passed, ..walk }, content, n);
        } else if run.losing {
            lemma_loss(start, walk, content);
            lemma_rest(start, after_step(walk), content, (n - 1) as nat);
        } else if run.source is Unknown {
            lemma_finds_a_copy(start, walk, content);
            let next = after_step(walk);
            assert forall|j: int|
                0 <= j < before.len() implies #[trigger] next.manager.directories[j] == so_far(
                start,
                next.run,
                j,
            ) by {
                assert(walk.manager.directories[j] == so_far(start, walk.run, j));
            }
            assert forall|j: int| 0 <= j < before.len() implies #[trigger] stored_so_far(
                start,
                next,
                content,
                j,
            ) by {
                assert(stored_so_far(start, walk, content, j));
            }
            lemma_rest(start, next, content, (n - 1) as nat);
        } else {
            lemma_gain(start, walk, content);
            lemma_rest(start, after_step(walk), content, (n - 1) as nat);
        }
    }
}

/// A whole walk: where some directory has a copy of the file on disk, the copies hold the
/// same bytes, those to be removed lie apart from the others, and the disk does what it is
/// asked, the walk comes to its end. From then on every directory is placed as the tags
/// ask, each new copy holds those bytes, the copies that stay are as they were, and so are
/// the universal directories and every other file on disk.
pub proof fn law_a_walk_places_the_file(start: Walk, content: Seq<u8>, n: nat)
    requires
        is_fresh(start.run),
        is_source(start.manager.directories, start.disk, start.run, content),
        removals_lie_apart(start.manager.directories, start.run),
        n >= 3 * start.manager.directories.len() + 3,
    ensures
        is_settled(start, after_steps(start, n), content),
        forall|j: int|
            0 <= j < start.manager.directories.len() ==> is_placed(
                #[trigger] after_steps(start, n).manager.directories[j],
                start.run.file_id,
                start.run.file_tags,
            ),
{
    assert forall|j: int| 0 <= j < start.manager.directories.len() implies #[trigger] stored_so_far(
        start,
        start,
        content,
        j,
    ) by {}
    lemma_rest(start, start, content, n);
    let end = after_steps(start, n);
    assert forall|j: int| 0 <= j < start.manager.directories.len() implies is_placed(
        #[trigger] end.manager.directories[j],
        start.run.file_id,
        start.run.file_tags,
    ) by {
        assert(end.manager.directories[j] == settled(start.manager.directories[j], start.run));
    }
}

/// No bytes are lost on a walk: where the tags ask for the file in some directory, or a
/// universal directory has a copy, a directory has one with the same bytes at the end.
pub proof fn law_a_walk_loses_no_bytes(start: Walk, content: Seq<u8>, n: nat, keeper: int)
    requires
        is_fresh(start.run),
        is_source(start.manager.directories, start.disk, start.run, content),
        removals_lie_apart(start.manager.directories, start.run),
        n >= 3 * start.manager.directories.len() + 3,
        0 <= keeper < start.manager.directories.len(),
        ({
            let directory = start.manager.directories[keeper];
            lacks(directory, start.run.file_id, start.run.file_tags) || (has_copy(
                directory,
                start.disk,
                start.run,
            ) && (directory.kind is Universal || wants(directory.kind, start.run.file_tags)))
        }),
    ensures
        ({
            let end = after_steps(start, n);
            let directory = end.manager.directories[keeper];
            let path = directory.stored_at(start.run.file_id);
            &&& directory.files.contains_key(start.run.file_id)
            &&& end.disk.contains_key(path)
            &&& end.disk[path] == content
        }),
{
    law_a_walk_places_the_file(start, content, n);
    let end = after_steps(start, n);
    let directory = start.manager.directories[keeper];
    assert(end.manager.directories[keeper] == settled(directory, start.run));
    assert(stored(directory, start.disk, end.disk, start.run, content));
}

/// A second walk changes nothing: once a walk is through, another one asks nothing of the
/// disk.
pub proof fn law_a_second_walk_changes_nothing(start: Walk, content: Seq<u8>, n: nat)
    requires
        is_fresh(start.run),
        is_source(start.manager.directories, start.disk, start.run, content),
        removals_lie_apart(start.manager.directories, start.run),
        n >= 3 * start.manager.directories.len() + 3,
    ensures
        step_of(after_steps(start, n).manager.directories, start.run).1
            == PlacementStepView::Done,
{
    law_a_walk_places_the_file(start, content, n);
    super::placement::law_placement_is_idempotent(
        after_steps(start, n).manager.directories,
        start.run,
    );
}

} // verus!
