//! What of a batch of raw events is reported: every change once, and in its order.

use vstd::prelude::*;
use super::{is_paired, is_written, reported, reported_first, RawEvent};
use crate::directory_manager::events::DebouncedEventKind;
use crate::reconcile::laws::picks;

verus! {

/// Whether an event puts bytes at a path.
pub open spec fn puts_bytes(event: RawEvent, path: Seq<char>) -> bool {
    match event {
        RawEvent::Created { path: p } => p@ == path,
        RawEvent::Written { path: p } => p@ == path,
        _ => false,
    }
}

/// Whether an event takes the file at a path away.
pub open spec fn takes_away(event: RawEvent, path: Seq<char>) -> bool {
    event matches RawEvent::Removed { path: p } && p@ == path
}

/// Whether one of the first `n` events put bytes at a path, and none behind it took them away.
pub open spec fn has_bytes_put(batch: Seq<RawEvent>, path: Seq<char>, n: int) -> bool {
    exists|i: int|
        0 <= i < n && #[trigger] puts_bytes(batch[i], path) && forall|j: int|
            i < j < n ==> !#[trigger] takes_away(batch[j], path)
}

proof fn lemma_written(batch: Seq<RawEvent>, path: Seq<char>, n: int)
    requires
        0 <= n <= batch.len(),
    ensures
        is_written(batch, path, n) == has_bytes_put(batch, path, n),
    decreases n,
{
    if n > 0 {
        lemma_written(batch, path, n - 1);
        let last = batch[n - 1];
        if puts_bytes(last, path) {
            assert(has_bytes_put(batch, path, n));
        } else {
            if is_written(batch, path, n) {
                let i = choose|i: int|
                    0 <= i < n - 1 && #[trigger] puts_bytes(batch[i], path) && forall|j: int|
                        i < j < n - 1 ==> !#[trigger] takes_away(batch[j], path);
                assert forall|j: int| i < j < n implies !#[trigger] takes_away(
                    batch[j],
                    path,
                ) by {}
                assert(has_bytes_put(batch, path, n));
            }
            if has_bytes_put(batch, path, n) {
                let i = choose|i: int|
                    0 <= i < n && #[trigger] puts_bytes(batch[i], path) && forall|j: int|
                        i < j < n ==> !#[trigger] takes_away(batch[j], path);
                assert(!takes_away(batch[n - 1], path));
                assert(has_bytes_put(batch, path, n - 1));
            }
        }
    }
}

/// A file that appears or is written is reported as what it is, unless its bytes were put in
/// the batch before and are still there.
pub proof fn law_new_bytes_are_reported_once(batch: Seq<RawEvent>, i: int)
    requires
        0 <= i < batch.len(),
    ensures
        batch[i] matches RawEvent::Created { path } ==> reported(batch, i) == (if has_bytes_put(
            batch,
            path@,
            i,
        ) {
            None
        } else {
            Some(DebouncedEventKind::Create { file_name: path })
        }),
        batch[i] matches RawEvent::Written { path } ==> reported(batch, i) == (if has_bytes_put(
            batch,
            path@,
            i,
        ) {
            None
        } else {
            Some(DebouncedEventKind::Modify { file_name: path })
        }),
{
    match batch[i] {
        RawEvent::Created { path } => {
            lemma_written(batch, path@, i);
        },
        RawEvent::Written { path } => {
            lemma_written(batch, path@, i);
        },
        _ => {},
    }
}

/// Every removal is reported, and every rename as one move with both ends. An end of a rename
/// of its own is reported as a move with that end alone, unless the batch holds the rename
/// that it belongs to.
pub proof fn law_removals_and_renames_are_reported(batch: Seq<RawEvent>, i: int, j: int)
    requires
        0 <= i < batch.len(),
    ensures
        batch[i] matches RawEvent::Removed { path } ==> reported(batch, i) == Some(
            DebouncedEventKind::Remove { file_name: path },
        ),
        batch[i] matches RawEvent::Renamed { from, to, .. } ==> reported(batch, i) == Some(
            DebouncedEventKind::Move { from: Some(from), to },
        ),
        batch[i] matches RawEvent::RenamedFrom { path, tracker } ==> reported(batch, i) == None::<
            DebouncedEventKind,
        > || reported(batch, i) == Some(DebouncedEventKind::Move { from: Some(path), to: None }),
        batch[i] matches RawEvent::RenamedTo { path, tracker } ==> reported(batch, i) == None::<
            DebouncedEventKind,
        > || reported(batch, i) == Some(DebouncedEventKind::Move { from: None, to: Some(path) }),
        batch[i] matches RawEvent::RenamedFrom { tracker: None, .. } ==> reported(batch, i) is Some,
        batch[i] matches RawEvent::RenamedTo { tracker: None, .. } ==> reported(batch, i) is Some,
        0 <= j < batch.len() ==> match (batch[i], batch[j]) {
            (
                RawEvent::RenamedFrom { tracker: Some(half), .. },
                RawEvent::Renamed { tracker: Some(whole), .. },
            ) => half == whole ==> reported(batch, i) is None,
            (
                RawEvent::RenamedTo { tracker: Some(half), .. },
                RawEvent::Renamed { tracker: Some(whole), .. },
            ) => half == whole ==> reported(batch, i) is None,
            _ => true,
        },
        reported(batch, i) is None && (batch[i] is RenamedFrom || batch[i] is RenamedTo)
            ==> exists|k: int| 0 <= k < batch.len() && #[trigger] batch[k] is Renamed,
{
    if 0 <= j < batch.len() {
        match (batch[i], batch[j]) {
            (
                RawEvent::RenamedFrom { tracker, .. },
                RawEvent::Renamed { tracker: Some(whole), .. },
            ) => {
                if tracker == Some(whole) {
                    assert(batch[j] matches RawEvent::Renamed { tracker: t, .. } && t == tracker);
                    assert(is_paired(batch, tracker));
                }
            },
            (
                RawEvent::RenamedTo { tracker, .. },
                RawEvent::Renamed { tracker: Some(whole), .. },
            ) => {
                if tracker == Some(whole) {
                    assert(batch[j] matches RawEvent::Renamed { tracker: t, .. } && t == tracker);
                    assert(is_paired(batch, tracker));
                }
            },
            _ => {},
        }
    }
}

/// What the events of a batch are reported as.
pub open spec fn all_reports(batch: Seq<RawEvent>) -> Seq<Option<DebouncedEventKind>> {
    Seq::new(batch.len(), |i: int| reported(batch, i))
}

/// The reports stand in the order of the events, each once.
pub proof fn law_reports_keep_their_order(batch: Seq<RawEvent>, n: int)
    requires
        0 <= n <= batch.len(),
    ensures
        picks(
            all_reports(batch),
            n,
            |event: Option<DebouncedEventKind>| event is Some,
            |event: Option<DebouncedEventKind>| event->0,
            reported_first(batch, n),
        ),
    decreases n,
{
    if n > 0 {
        law_reports_keep_their_order(batch, n - 1);
        let before = reported_first(batch, n - 1);
        match reported(batch, n - 1) {
            Some(event) => {
                assert(before.push(event).drop_last() =~= before);
            },
            None => {},
        }
    }
}

} // verus!
