//! What a batch of raw events of the file system amounts to.

use vstd::prelude::*;

pub mod laws;

use crate::directory_manager::events::DebouncedEventKind;

verus! {

/// A raw event of the file system.
#[derive(Debug)]
pub enum RawEvent {
    /// A file appeared.
    Created { path: String },
    /// The content of a file changed.
    Written { path: String },
    /// A rename, both ends of which were seen.
    Renamed { from: String, to: Option<String>, tracker: Option<usize> },
    /// The one end of a rename.
    RenamedFrom { path: String, tracker: Option<usize> },
    /// The other end of a rename.
    RenamedTo { path: String, tracker: Option<usize> },
    /// A file was removed.
    Removed { path: String },
}

/// Whether one of the first `n` events created or wrote a file that has not been removed
/// since.
pub open spec fn is_written(batch: Seq<RawEvent>, path: Seq<char>, n: int) -> bool
    decreases n,
{
    if n <= 0 {
        false
    } else {
        match batch[n - 1] {
            RawEvent::Created { path: p } => p@ == path || is_written(batch, path, n - 1),
            RawEvent::Written { path: p } => p@ == path || is_written(batch, path, n - 1),
            RawEvent::Removed { path: p } => p@ != path && is_written(batch, path, n - 1),
            _ => is_written(batch, path, n - 1),
        }
    }
}

/// Whether the end of a rename belongs to one both ends of which were seen.
pub open spec fn is_paired(batch: Seq<RawEvent>, tracker: Option<usize>) -> bool {
    tracker is Some && exists|j: int|
        0 <= j < batch.len() && (#[trigger] batch[j] matches RawEvent::Renamed { tracker: t, .. }
            && t == tracker)
}

/// What the `i`-th event of a batch is reported as, if it is. Both ends of a rename are one
/// move. A file that was written several times, or created and written, is reported once,
/// unless it was removed in between.
pub open spec fn reported(batch: Seq<RawEvent>, i: int) -> Option<DebouncedEventKind> {
    match batch[i] {
        RawEvent::Created { path } => if is_written(batch, path@, i) {
            None
        } else {
            Some(DebouncedEventKind::Create { file_name: path })
        },
        RawEvent::Written { path } => if is_written(batch, path@, i) {
            None
        } else {
            Some(DebouncedEventKind::Modify { file_name: path })
        },
        RawEvent::Renamed { from, to, .. } => Some(
            DebouncedEventKind::Move { from: Some(from), to },
        ),
        RawEvent::RenamedFrom { path, tracker } => if is_paired(batch, tracker) {
            None
        } else {
            Some(DebouncedEventKind::Move { from: Some(path), to: None })
        },
        RawEvent::RenamedTo { path, tracker } => if is_paired(batch, tracker) {
            None
        } else {
            Some(DebouncedEventKind::Move { from: None, to: Some(path) })
        },
        RawEvent::Removed { path } => Some(DebouncedEventKind::Remove { file_name: path }),
    }
}

/// What the first `n` events of a batch are reported as, in order.
pub open spec fn reported_first(batch: Seq<RawEvent>, n: int) -> Seq<DebouncedEventKind>
    decreases n,
{
    if n <= 0 {
        Seq::empty()
    } else {
        let before = reported_first(batch, n - 1);
        match reported(batch, n - 1) {
            Some(event) => before.push(event),
            None => before,
        }
    }
}

fn find_written(batch: &Vec<RawEvent>, path: &String, n: usize) -> (r: bool)
    requires
        n <= batch.len(),
    ensures
        r == is_written(batch@, path@, n as int),
{
    let mut i: usize = n;
    while i > 0
        invariant
            i <= n <= batch.len(),
            is_written(batch@, path@, n as int) == is_written(batch@, path@, i as int),
        decreases i,
    {
        match &batch[i - 1] {
            RawEvent::Created { path: p } => {
                if *p == *path {
                    return true;
                }
            },
            RawEvent::Written { path: p } => {
                if *p == *path {
                    return true;
                }
            },
            RawEvent::Removed { path: p } => {
                if *p == *path {
                    return false;
                }
            },
            _ => {},
        }
        i = i - 1;
    }
    false
}

fn find_pair(batch: &Vec<RawEvent>, tracker: Option<usize>) -> (r: bool)
    ensures
        r == is_paired(batch@, tracker),
{
    let wanted: usize = match tracker {
        Some(wanted) => wanted,
        None => {
            return false;
        },
    };
    let mut i: usize = 0;
    while i < batch.len()
        invariant
            i <= batch.len(),
            tracker == Some(wanted),
            forall|j: int|
                0 <= j < i ==> !(#[trigger] batch@[j] matches RawEvent::Renamed { tracker: t, .. }
                    && t == tracker),
        decreases batch.len() - i,
    {
        if let RawEvent::Renamed { tracker: Some(t), .. } = &batch[i] {
            if *t == wanted {
                assert(batch@[i as int] matches RawEvent::Renamed { tracker: t, .. } && t
                    == tracker);
                return true;
            }
        }
        i = i + 1;
    }
    false
}

fn report_of(batch: &Vec<RawEvent>, i: usize) -> (r: Option<DebouncedEventKind>)
    requires
        i < batch.len(),
    ensures
        r == reported(batch@, i as int),
{
    match &batch[i] {
        RawEvent::Created { path } => if find_written(batch, path, i) {
            None
        } else {
            Some(DebouncedEventKind::Create { file_name: path.clone() })
        },
        RawEvent::Written { path } => if find_written(batch, path, i) {
            None
        } else {
            Some(DebouncedEventKind::Modify { file_name: path.clone() })
        },
        RawEvent::Renamed { from, to, .. } => {
            let to: Option<String> = match to {
                Some(path) => Some(path.clone()),
                None => None,
            };
            Some(DebouncedEventKind::Move { from: Some(from.clone()), to })
        },
        RawEvent::RenamedFrom { path, tracker } => if find_pair(batch, *tracker) {
            None
        } else {
            Some(DebouncedEventKind::Move { from: Some(path.clone()), to: None })
        },
        RawEvent::RenamedTo { path, tracker } => if find_pair(batch, *tracker) {
            None
        } else {
            Some(DebouncedEventKind::Move { from: None, to: Some(path.clone()) })
        },
        RawEvent::Removed { path } => Some(
            DebouncedEventKind::Remove { file_name: path.clone() },
        ),
    }
}

/// What a batch of raw events is reported as.
pub fn debounce(batch: &Vec<RawEvent>) -> (r: Vec<DebouncedEventKind>)
    ensures
        r@ == reported_first(batch@, batch@.len() as int),
{
    let mut out: Vec<DebouncedEventKind> = Vec::new();
    let mut i: usize = 0;
    while i < batch.len()
        invariant
            i <= batch.len(),
            out@ == reported_first(batch@, i as int),
        decreases batch.len() - i,
    {
        match report_of(batch, i) {
            Some(event) => {
                out.push(event);
            },
            None => {},
        }
        i = i + 1;
    }
    out
}

/// Whether an event reports a file as created or changed.
pub open spec fn reports(event: DebouncedEventKind, path: Seq<char>) -> bool {
    ||| event matches DebouncedEventKind::Create { file_name } && file_name@ == path
    ||| event matches DebouncedEventKind::Modify { file_name } && file_name@ == path
}

/// No write is passed over in silence: a file that was created or written in a batch, and
/// not removed behind that, is reported as created or changed.
pub proof fn law_written_files_are_reported(batch: Seq<RawEvent>, path: Seq<char>, n: int)
    requires
        0 <= n <= batch.len(),
        is_written(batch, path, n),
    ensures
        exists|k: int|
            0 <= k < reported_first(batch, n).len() && reports(
                #[trigger] reported_first(batch, n)[k],
                path,
            ),
    decreases n,
{
    let before = reported_first(batch, n - 1);
    let all = reported_first(batch, n);
    if is_written(batch, path, n - 1) {
        law_written_files_are_reported(batch, path, n - 1);
        let k = choose|k: int| 0 <= k < before.len() && reports(#[trigger] before[k], path);
        assert(reports(all[k], path));
    } else {
        assert(reports(all[before.len() as int], path));
    }
}

} // verus!
