//! The append-only log of file versions.

use vstd::prelude::*;
use crate::ids::FileId;
use crate::table::{Key, Table};

verus! {

/// A recorded version of a file's content.
#[derive(Debug, Clone, PartialEq, Eq)]
pub struct FileVersion {
    pub file_id: FileId,
    pub content_hash: String,
    /// Wall-clock milliseconds at which the version was recorded. It does not order
    /// versions.
    pub observed_at: i64,
    /// Counts the versions of one file from 1 on.
    pub version_number: i64,
    /// `local`, or the public key of the peer that announced the version.
    pub origin: String,
}

/// The mathematical value of a [`FileVersion`].
#[verifier::ext_equal]
pub struct VersionView {
    pub file_id: FileId,
    pub content_hash: Seq<char>,
    pub observed_at: i64,
    pub version_number: i64,
    pub origin: Seq<char>,
}

impl View for FileVersion {
    type V = VersionView;

    open spec fn view(&self) -> VersionView {
        VersionView {
            file_id: self.file_id,
            content_hash: self.content_hash@,
            observed_at: self.observed_at,
            version_number: self.version_number,
            origin: self.origin@,
        }
    }
}

impl FileVersion {
    pub fn duplicate(&self) -> (r: Self)
        ensures
            r == *self,
    {
        FileVersion {
            file_id: self.file_id,
            content_hash: self.content_hash.clone(),
            observed_at: self.observed_at,
            version_number: self.version_number,
            origin: self.origin.clone(),
        }
    }
}

/// The mathematical value of a list of versions.
pub open spec fn version_views(list: Seq<FileVersion>) -> Seq<VersionView> {
    list.map_values(|v: FileVersion| v@)
}

/// The history of a file: empty where none was recorded.
pub open spec fn history_in(log: Map<FileId, Seq<VersionView>>, file_id: FileId) -> Seq<
    VersionView,
> {
    if log.contains_key(file_id) {
        log[file_id]
    } else {
        Seq::empty()
    }
}

/// Whether a history belongs to one file and its versions count from 1.
pub open spec fn consecutive(file_id: FileId, history: Seq<VersionView>) -> bool {
    forall|i: int|
        0 <= i < history.len() ==> (#[trigger] history[i]).version_number == i + 1
            && history[i].file_id == file_id
}

/// What holds of every version log: histories are not empty, belong to their file,
/// and count their versions from 1.
pub open spec fn log_invariant(log: Map<FileId, Seq<VersionView>>) -> bool {
    forall|file_id: FileId| #[trigger]
        log.contains_key(file_id) ==> log[file_id].len() > 0 && consecutive(file_id, log[file_id])
}

/// The version log of all files.
pub struct VersionLog {
    table: Table<FileId, Vec<FileVersion>>,
}

spec fn log_of(table: Table<FileId, Vec<FileVersion>>) -> Map<FileId, Seq<VersionView>> {
    table@.map_values(|list: Vec<FileVersion>| version_views(list@))
}

/// The largest number of versions that a file can have.
pub const MAX_VERSIONS: u64 = 0x7fff_ffff_ffff_ffff;

impl VersionLog {
    #[verifier::type_invariant]
    spec fn inv(self) -> bool {
        log_invariant(log_of(self.table))
    }

    pub closed spec fn view(&self) -> Map<FileId, Seq<VersionView>> {
        log_of(self.table)
    }

    pub fn new() -> (r: Self)
        ensures
            r@ == Map::<FileId, Seq<VersionView>>::empty(),
    {
        let table: Table<FileId, Vec<FileVersion>> = Table::new();
        assert(log_of(table) =~= Map::<FileId, Seq<VersionView>>::empty());
        VersionLog { table }
    }

    /// The versions of a file, oldest first.
    pub fn history(&self, file_id: FileId) -> (r: Option<&Vec<FileVersion>>)
        ensures
            log_invariant(self@),
            match r {
                Some(list) => list.len() > 0 && self@.contains_key(file_id) && self@[file_id]
                    == version_views(list@) && consecutive(file_id, version_views(list@)),
                None => !self@.contains_key(file_id),
            },
    {
        proof {
            use_type_invariant(self);
        }
        match self.table.get(file_id) {
            Some(list) => {
                proof {
                    assert(self@.contains_key(file_id));
                    assert(self@[file_id] == version_views(list@));
                }
                Some(list)
            },
            None => None,
        }
    }

    /// Number of files with a history.
    pub fn len(&self) -> (r: usize)
        ensures
            r == self.files().len(),
            log_invariant(self@),
            forall|i: int, j: int|
                0 <= i < j < r ==> (#[trigger] self.files()[i]).value < (
                #[trigger] self.files()[j]).value,
            forall|f: FileId| self.files().contains(f) <==> #[trigger] self@.contains_key(f),
    {
        proof {
            use_type_invariant(self);
        }
        let n: usize = self.table.len();
        proof {
            let rows = self.table.rows();
            let files = self.files();
            assert forall|f: FileId| files.contains(f) <==> #[trigger] self@.contains_key(f) by {
                if files.contains(f) {
                    let i = choose|i: int| 0 <= i < files.len() && files[i] == f;
                    assert(rows[i].0 == f);
                }
                if self@.contains_key(f) {
                    assert(crate::table::has_key(rows, f));
                    let i = choose|i: int| 0 <= i < rows.len() && (#[trigger] rows[i]).0 == f;
                    assert(files[i] == f);
                }
            }
            assert forall|i: int, j: int| 0 <= i < j < n implies (#[trigger] files[i]).value < (
            #[trigger] files[j]).value by {
                assert(rows[i].0.precedes(rows[j].0));
            }
        }
        n
    }

    /// The files with a history, in ascending order of their identifiers.
    pub closed spec fn files(&self) -> Seq<FileId> {
        self.table.rows().map_values(|row: (FileId, Vec<FileVersion>)| row.0)
    }

    /// The file at position `i` of [`VersionLog::files`].
    pub fn file_at(&self, i: usize) -> (r: FileId)
        requires
            i < self.files().len(),
        ensures
            r == self.files()[i as int],
            self@.contains_key(r),
    {
        self.table.key_at(i)
    }

    /// Appends a version, numbered one higher than the latest, and returns its
    /// number. `None` where the file has as many versions as it can have.
    pub fn append(
        &mut self,
        file_id: FileId,
        content_hash: &str,
        observed_at: i64,
        origin: &str,
    ) -> (r: Option<i64>)
        ensures
            match r {
                Some(n) => {
                    &&& n == history_in(old(self)@, file_id).len() + 1
                    &&& final(self)@ == old(self)@.insert(
                        file_id,
                        history_in(old(self)@, file_id).push(
                            (VersionView {
                                file_id,
                                content_hash: content_hash@,
                                observed_at,
                                version_number: n,
                                origin: origin@,
                            }),
                        ),
                    )
                },
                None => final(self)@ == old(self)@ && history_in(old(self)@, file_id).len()
                    >= MAX_VERSIONS,
            },
            log_invariant(old(self)@),
            log_invariant(final(self)@),
    {
        proof {
            use_type_invariant(&*self);
        }
        let ghost before = log_of(self.table);
        let count: usize = match self.history(file_id) {
            Some(list) => list.len(),
            None => 0,
        };
        if count as u64 >= MAX_VERSIONS {
            return None;
        }
        let number: i64 = count as i64 + 1;
        let mut table: Table<FileId, Vec<FileVersion>> = Table::new();
        proof {
            assert(log_of(table) =~= Map::<FileId, Seq<VersionView>>::empty());
        }
        core::mem::swap(&mut self.table, &mut table);
        let ghost old_rows = table@;
        let mut list: Vec<FileVersion> = match table.remove(file_id) {
            Some(list) => list,
            None => Vec::new(),
        };
        let ghost old_list = list@;
        assert(version_views(old_list) =~= history_in(before, file_id));
        list.push(
            FileVersion {
                file_id,
                content_hash: content_hash.to_owned(),
                observed_at,
                version_number: number,
                origin: origin.to_owned(),
            },
        );
        let ghost added = list@.last()@;
        assert(version_views(list@) =~= version_views(old_list).push(added));
        let ghost after_list = version_views(list@);
        table.insert(file_id, list);
        proof {
            assert(log_of(table) =~= before.insert(file_id, after_list)) by {
                assert(old_rows.remove(file_id).insert(file_id, list) =~= old_rows.insert(
                    file_id,
                    list,
                ));
            }
            assert forall|f: FileId| #[trigger] log_of(table).contains_key(f) implies log_of(
                table,
            )[f].len() > 0 && consecutive(f, log_of(table)[f]) by {
                if f == file_id {
                    if before.contains_key(f) {
                        assert(consecutive(f, before[f]));
                    }
                    assert forall|i: int| 0 <= i < after_list.len() implies (
                    #[trigger] after_list[i]).version_number == i + 1 && after_list[i].file_id
                        == f by {
                        if i < after_list.len() - 1 {
                            assert(after_list[i] == history_in(before, f)[i]);
                        }
                    }
                } else {
                    assert(before.contains_key(f));
                }
            }
        }
        self.table = table;
        Some(number)
    }
}

} // verus!
