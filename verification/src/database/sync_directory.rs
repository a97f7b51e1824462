//! Which files a sync directory holds, and under which name on disk.

use vstd::prelude::*;
use super::DatabaseError;
use crate::ids::FileId;
use crate::state::PhysicalPath;
use crate::table::{has_key, Key, Table};
use crate::text::{chars_of, same_text};

verus! {

/// A file in a sync directory.
#[derive(Debug, Clone, PartialEq, Eq)]
pub struct SyncDirectoryFile {
    pub file_id: FileId,
    /// Where the bytes lie, relative to the directory.
    pub physical_path: PhysicalPath,
}

/// The ASCII letter in lower case.
pub open spec fn ascii_lower(c: char) -> int {
    if 'A' <= c <= 'Z' {
        c as int + 32
    } else {
        c as int
    }
}

/// Whether a text fits a pattern in which `%` stands for any text and `_` for any
/// character. The case of ASCII letters does not matter.
pub open spec fn like(pattern: Seq<char>, text: Seq<char>) -> bool
    decreases pattern.len(), text.len(),
{
    if pattern.len() == 0 {
        text.len() == 0
    } else if pattern[0] == '%' {
        like(pattern.drop_first(), text) || (text.len() > 0 && like(pattern, text.drop_first()))
    } else {
        text.len() > 0 && (pattern[0] == '_' || ascii_lower(pattern[0]) == ascii_lower(text[0]))
            && like(pattern.drop_first(), text.drop_first())
    }
}

fn lower(c: char) -> (r: u32)
    ensures
        r == ascii_lower(c),
{
    let u: u32 = c as u32;
    if 0x41 <= u && u <= 0x5a {
        u + 32
    } else {
        u
    }
}

fn fits_like(pattern: &Vec<char>, i: usize, text: &Vec<char>, j: usize) -> (r: bool)
    requires
        i <= pattern.len(),
        j <= text.len(),
    ensures
        r == like(pattern@.skip(i as int), text@.skip(j as int)),
    decreases pattern.len() - i, text.len() - j,
{
    if i == pattern.len() {
        return j == text.len();
    }
    assert(pattern@.skip(i as int).drop_first() =~= pattern@.skip(i + 1));
    assert(pattern@.skip(i as int)[0] == pattern@[i as int]);
    if pattern[i] == '%' {
        if fits_like(pattern, i + 1, text, j) {
            return true;
        }
        if j == text.len() {
            return false;
        }
        assert(text@.skip(j as int).drop_first() =~= text@.skip(j + 1));
        return fits_like(pattern, i, text, j + 1);
    }
    if j == text.len() {
        return false;
    }
    assert(text@.skip(j as int).drop_first() =~= text@.skip(j + 1));
    assert(text@.skip(j as int)[0] == text@[j as int]);
    if pattern[i] != '_' && lower(pattern[i]) != lower(text[j]) {
        return false;
    }
    fits_like(pattern, i + 1, text, j + 1)
}

/// Which files a sync directory holds.
pub struct SyncDirectoryDatabase {
    files: Table<FileId, PhysicalPath>,
}

/// Whether `list` holds the files of a directory that satisfy a condition, in
/// ascending order of their identifiers.
pub open spec fn lists_rows(
    list: Seq<SyncDirectoryFile>,
    files: Map<FileId, Seq<char>>,
    wanted: spec_fn(Seq<char>) -> bool,
) -> bool {
    &&& forall|i: int, j: int|
        0 <= i < j < list.len() ==> (#[trigger] list[i]).file_id.value < (
        #[trigger] list[j]).file_id.value
    &&& forall|i: int|
        0 <= i < list.len() ==> files.contains_key((#[trigger] list[i]).file_id)
            && files[list[i].file_id] == list[i].physical_path@ && wanted(list[i].physical_path@)
    &&& forall|f: FileId| #[trigger]
        files.contains_key(f) && wanted(files[f]) ==> exists|i: int|
            0 <= i < list.len() && (#[trigger] list[i]).file_id == f
}

/// Whether a file is the one with a name on disk: of several, the one with the least
/// identifier.
pub open spec fn is_file_at(
    files: Map<FileId, Seq<char>>,
    path: Seq<char>,
    file_id: FileId,
) -> bool {
    &&& files.contains_key(file_id)
    &&& files[file_id] == path
    &&& forall|f: FileId| #[trigger]
        files.contains_key(f) && files[f] == path ==> file_id.value <= f.value
}

/// The file with a name on disk.
pub open spec fn file_at(files: Map<FileId, Seq<char>>, path: Seq<char>) -> Option<FileId> {
    if exists|f: FileId| is_file_at(files, path, f) {
        Some(choose|f: FileId| is_file_at(files, path, f))
    } else {
        None
    }
}

/// Whether `list` holds all files of a directory.
pub open spec fn lists_all_files(
    list: Seq<SyncDirectoryFile>,
    files: Map<FileId, Seq<char>>,
) -> bool {
    lists_rows(list, files, |path: Seq<char>| true)
}

/// Whether `list` holds the files of a directory whose name on disk begins like
/// `prefix`, taken as a pattern.
pub open spec fn lists_files_at(
    list: Seq<SyncDirectoryFile>,
    files: Map<FileId, Seq<char>>,
    prefix: Seq<char>,
) -> bool {
    lists_rows(list, files, |path: Seq<char>| like(prefix.push('%'), path))
}

impl SyncDirectoryDatabase {
    /// The name on disk of each file.
    pub closed spec fn view(&self) -> Map<FileId, Seq<char>> {
        self.files@.map_values(|p: PhysicalPath| p@)
    }

    pub fn new() -> (r: Self)
        ensures
            r@ == Map::<FileId, Seq<char>>::empty(),
    {
        let r = SyncDirectoryDatabase { files: Table::new() };
        assert(r@ =~= Map::<FileId, Seq<char>>::empty());
        r
    }

    /// Adds a file. One that is held already is an error, and nothing changes.
    pub fn add_file(&mut self, file_id: FileId, physical_path: &PhysicalPath) -> (r: Result<
        (),
        DatabaseError,
    >)
        ensures
            match r {
                Ok(()) => !old(self)@.contains_key(file_id) && final(self)@ == old(self)@.insert(
                    file_id,
                    physical_path@,
                ),
                Err(error) => old(self)@.contains_key(file_id) && final(self)@ == old(self)@
                    && error == DatabaseError::FailedToExecuteCommand,
            },
    {
        if self.files.contains(file_id) {
            return Err(DatabaseError::FailedToExecuteCommand);
        }
        self.files.insert(file_id, physical_path.duplicate());
        assert(self@ =~= old(self)@.insert(file_id, physical_path@));
        Ok(())
    }

    /// Gives a file another name on disk. A file that is not held stays so.
    pub fn update_file_physical_path(
        &mut self,
        file_id: FileId,
        physical_path: &PhysicalPath,
    ) -> (r: Result<(), DatabaseError>)
        ensures
            r is Ok,
            final(self)@ == if old(self)@.contains_key(file_id) {
                old(self)@.insert(file_id, physical_path@)
            } else {
                old(self)@
            },
    {
        if self.files.contains(file_id) {
            self.files.insert(file_id, physical_path.duplicate());
            assert(self@ =~= old(self)@.insert(file_id, physical_path@));
        }
        Ok(())
    }

    /// Forgets a file.
    pub fn remove_file_by_id(&mut self, file_id: FileId) -> (r: Result<(), DatabaseError>)
        ensures
            r is Ok,
            final(self)@ == old(self)@.remove(file_id),
    {
        let _ = self.files.remove(file_id);
        assert(self@ =~= old(self)@.remove(file_id));
        Ok(())
    }

    /// The row of a file.
    pub fn get_file(&self, file_id: FileId) -> (r: Result<SyncDirectoryFile, DatabaseError>)
        ensures
            match r {
                Ok(file) => file.file_id == file_id && self@.contains_key(file_id)
                    && self@[file_id] == file.physical_path@,
                Err(error) => !self@.contains_key(file_id) && error == DatabaseError::MissingFile,
            },
    {
        match self.files.get(file_id) {
            Some(path) => Ok(SyncDirectoryFile { file_id, physical_path: path.duplicate() }),
            None => Err(DatabaseError::MissingFile),
        }
    }

    /// The file with a name on disk: of several, the one with the least identifier.
    pub fn get_file_id(&self, physical_path: &PhysicalPath) -> (r: Result<FileId, DatabaseError>)
        ensures
            match r {
                Ok(file_id) => is_file_at(self@, physical_path@, file_id) && file_at(
                    self@,
                    physical_path@,
                ) == Some(file_id),
                Err(error) => error == DatabaseError::MissingFile && file_at(self@, physical_path@)
                    is None && forall|f: FileId| #[trigger]
                    self@.contains_key(f) ==> self@[f] != physical_path@,
            },
    {
        let n: usize = self.files.len();
        let ghost rows = self.files.rows();
        let mut i: usize = 0;
        while i < n
            invariant
                i <= n,
                n == rows.len(),
                rows == self.files.rows(),
                self.files.well_formed(),
                forall|j: int| 0 <= j < i ==> (#[trigger] rows[j]).1@ != physical_path@,
            decreases n - i,
        {
            if same_text(self.files.value_at(i).as_str(), physical_path.as_str()) {
                let file_id = self.files.key_at(i);
                proof {
                    assert forall|f: FileId| #[trigger]
                        self@.contains_key(f) && self@[f] == physical_path@ implies file_id.value
                        <= f.value by {
                        assert(has_key(rows, f));
                        let k = choose|k: int| 0 <= k < rows.len() && (#[trigger] rows[k]).0 == f;
                        if i < k {
                            assert(rows[i as int].0.precedes(rows[k].0));
                        }
                    }
                    assert(is_file_at(self@, physical_path@, file_id));
                    let found = choose|f: FileId| is_file_at(self@, physical_path@, f);
                    assert(found.value == file_id.value);
                }
                return Ok(file_id);
            }
            i = i + 1;
        }
        proof {
            assert forall|f: FileId| #[trigger] self@.contains_key(f) implies self@[f]
                != physical_path@ by {
                assert(has_key(rows, f));
                let k = choose|k: int| 0 <= k < rows.len() && (#[trigger] rows[k]).0 == f;
            }
        }
        Err(DatabaseError::MissingFile)
    }

    fn collect(&self, pattern: Option<&Vec<char>>) -> (r: Vec<SyncDirectoryFile>)
        ensures
            lists_rows(
                r@,
                self@,
                |path: Seq<char>|
                    match pattern {
                        Some(p) => like(p@, path),
                        None => true,
                    },
            ),
    {
        let ghost wanted = |path: Seq<char>|
            match pattern {
                Some(p) => like(p@, path),
                None => true,
            };
        let n: usize = self.files.len();
        let ghost rows = self.files.rows();
        let mut list: Vec<SyncDirectoryFile> = Vec::new();
        let mut i: usize = 0;
        while i < n
            invariant
                i <= n,
                n == rows.len(),
                rows == self.files.rows(),
                self.files.well_formed(),
                wanted == (|path: Seq<char>|
                    match pattern {
                        Some(p) => like(p@, path),
                        None => true,
                    }),
                forall|a: int, b: int|
                    0 <= a < b < list@.len() ==> (#[trigger] list@[a]).file_id.value < (
                    #[trigger] list@[b]).file_id.value,
                forall|a: int|
                    0 <= a < list@.len() ==> self@.contains_key((#[trigger] list@[a]).file_id)
                        && self@[list@[a].file_id] == list@[a].physical_path@ && wanted(
                        list@[a].physical_path@,
                    ) && (i < n ==> list@[a].file_id.value < rows[i as int].0.value),
                forall|j: int|
                    0 <= j < i && wanted((#[trigger] rows[j]).1@) ==> exists|a: int|
                        0 <= a < list@.len() && (#[trigger] list@[a]).file_id == rows[j].0,
            decreases n - i,
        {
            let file_id = self.files.key_at(i);
            let path = self.files.value_at(i);
            let chosen = match pattern {
                Some(p) => {
                    let text = chars_of(path.as_str());
                    assert(p@.skip(0) =~= p@);
                    assert(text@.skip(0) =~= text@);
                    fits_like(p, 0, &text, 0)
                },
                None => true,
            };
            assert(chosen == wanted(path@));
            let ghost before = list@;
            if chosen {
                list.push(SyncDirectoryFile { file_id, physical_path: path.duplicate() });
                assert(list@[before.len() as int].file_id == file_id);
            }
            proof {
                if i + 1 < n {
                    assert(rows[i as int].0.precedes(rows[i + 1].0));
                }
                assert forall|j: int| 0 <= j < i + 1 && wanted((#[trigger] rows[j]).1@) implies
                    exists|a: int| 0 <= a < list@.len() && (#[trigger] list@[a]).file_id
                    == rows[j].0 by {
                    if j < i {
                        let a = choose|a: int|
                            0 <= a < before.len() && (#[trigger] before[a]).file_id == rows[j].0;
                        assert(list@[a] == before[a]);
                    }
                }
            }
            i = i + 1;
        }
        proof {
            assert forall|f: FileId| #[trigger] self@.contains_key(f) && wanted(
                self@[f],
            ) implies exists|a: int| 0 <= a < list@.len() && (#[trigger] list@[a]).file_id
                == f by {
                assert(has_key(rows, f));
                let k = choose|k: int| 0 <= k < rows.len() && (#[trigger] rows[k]).0 == f;
                assert(wanted(rows[k].1@));
            }
        }
        list
    }

    /// All files.
    pub fn get_all_files(&self) -> (r: Result<Vec<SyncDirectoryFile>, DatabaseError>)
        ensures
            r matches Ok(list) && lists_all_files(list@, self@),
    {
        let list = self.collect(None);
        Ok(list)
    }

    /// The files whose name on disk begins like `physical_path`, taken as a pattern.
    pub fn get_all_files_at(&self, physical_path: &PhysicalPath) -> (r: Result<
        Vec<SyncDirectoryFile>,
        DatabaseError,
    >)
        ensures
            r matches Ok(list) && lists_files_at(list@, self@, physical_path@),
    {
        let mut pattern = chars_of(physical_path.as_str());
        pattern.push('%');
        let list = self.collect(Some(&pattern));
        Ok(list)
    }
}

/// Letters count as the same where they are, or where one is the small form of the other, a
/// letter of ASCII; every other character counts as itself.
pub proof fn law_only_the_case_of_letters_is_ignored(a: char, b: char)
    ensures
        ascii_lower(a) == ascii_lower(b) <==> a == b || ('A' <= a <= 'Z' && b as int == a as int
            + 32) || ('A' <= b <= 'Z' && a as int == b as int + 32),
{
}

} // verus!
