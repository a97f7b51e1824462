//! Where a tagnet instance keeps its files.

use vstd::prelude::*;
use crate::path_text::{appended, file_name_of, join_path, last_name};
use crate::runtime::RunPaths;
use crate::text::joined;

verus! {

/// The places of one instance.
#[derive(Debug, Clone, PartialEq, Eq)]
pub struct Paths {
    data_dir: String,
    identity_file: String,
}

impl Paths {
    /// The directory that holds the databases.
    pub closed spec fn data(&self) -> Seq<char> {
        self.data_dir@
    }

    /// The file that holds this machine's identity key.
    pub closed spec fn identity(&self) -> Seq<char> {
        self.identity_file@
    }

    /// The places under a data directory, with the identity key apart.
    pub fn new(data_dir: String, identity_file: String) -> (r: Self)
        ensures
            r.data() == data_dir@,
            r.identity() == identity_file@,
    {
        Paths { data_dir, identity_file }
    }

    /// The directory that holds the databases.
    pub fn data_dir(&self) -> (r: &str)
        ensures
            r@ == self.data(),
    {
        self.data_dir.as_str()
    }

    /// The file that holds this machine's identity key.
    pub fn identity_path(&self) -> (r: &str)
        ensures
            r@ == self.identity(),
    {
        self.identity_file.as_str()
    }

    /// The main database.
    pub fn main_db_path(&self) -> (r: String)
        ensures
            r@ == appended(self.data(), "main.db"@),
    {
        join_path(self.data_dir.as_str(), "main.db")
    }

    /// The database of a sync directory, named after the directory.
    pub fn sync_directory_db_path(&self, sync_directory: &str) -> (r: String)
        ensures
            r@ == appended(
                self.data(),
                match last_name(sync_directory@) {
                    Some(name) => name,
                    None => "unnamed"@,
                } + ".db"@,
            ),
    {
        let name = match file_name_of(sync_directory) {
            Some(name) => name,
            None => "unnamed".to_owned(),
        };
        let file = joined(name.as_str(), ".db");
        join_path(self.data_dir.as_str(), file.as_str())
    }

    /// The directory for the results of on-demand fetches. Each result is handed over
    /// to whoever asked for it; what is left over is cleared at start.
    pub fn fetch_temp_dir(&self) -> (r: String)
        ensures
            r@ == appended(self.data(), "fetch-temp"@),
    {
        join_path(self.data_dir.as_str(), "fetch-temp")
    }
}

impl From<RunPaths> for Paths {
    fn from(run_paths: RunPaths) -> (r: Self)
        ensures
            r.data() == run_paths.data_dir@,
            r.identity() == run_paths.identity_file@,
    {
        Paths { data_dir: run_paths.data_dir, identity_file: run_paths.identity_file }
    }
}

impl vstd::std_specs::convert::FromSpecImpl<RunPaths> for Paths {
    open spec fn obeys_from_spec() -> bool {
        true
    }

    closed spec fn from_spec(run_paths: RunPaths) -> Self {
        Paths { data_dir: run_paths.data_dir, identity_file: run_paths.identity_file }
    }
}

/// The daemon's control socket: one fixed address, so that the daemon and its clients
/// cannot disagree.
pub const CONTROL_SOCKET_PATH: &'static str = "/run/tagnet/tagnet.sock";

/// The daemon's control socket.
pub fn control_socket_path() -> (r: String)
    ensures
        r@ == CONTROL_SOCKET_PATH@,
{
    CONTROL_SOCKET_PATH.to_owned()
}

} // verus!
