//! Branch names.

use vstd::prelude::*;

use crate::error::Result;
use crate::file_system::FileSystem;
use crate::io::atomic::work_branch::{WorkingIo, working_decoded, working_path};
use crate::io::file_bytes;
use crate::path::segs;

verus! {

/// The name of a branch.
#[derive(Debug, Clone, Hash, PartialEq, Eq, PartialOrd, Ord)]
pub struct BranchName(pub String);

impl BranchName {
    /// The branch a repository starts with.
    pub fn owner() -> (r: BranchName)
        ensures
            r.0@ == "owner"@,
    {
        BranchName("owner".to_owned())
    }

    /// The branch that is checked out, as recorded in the repository.
    pub fn working<Fs: FileSystem>(fs: &Fs) -> (r: Result<BranchName>)
        requires
            fs.fs_inv(),
        ensures
            r matches Ok(b) ==> file_bytes(fs.fs_lookup(segs(working_path()))) matches Some(bytes)
                && working_decoded(bytes) == Some(b.0@),
    {
        WorkingIo::new().try_read(fs)
    }

    pub fn as_str(&self) -> (r: &str)
        ensures
            r@ == self.0@,
    {
        self.0.as_str()
    }

    /// A copy of the name.
    pub fn copy(&self) -> (r: BranchName)
        ensures
            r.0@ == self.0@,
    {
        BranchName(self.0.clone())
    }

    /// Whether two names are the same.
    pub fn same(&self, other: &BranchName) -> (r: bool)
        ensures
            r == (self.0@ == other.0@),
    {
        crate::util::str_eq(self.0.as_str(), other.0.as_str())
    }
}

impl From<&str> for BranchName {
    fn from(name: &str) -> BranchName {
        BranchName(name.to_owned())
    }
}

impl vstd::std_specs::convert::FromSpecImpl<&str> for BranchName {
    open spec fn obeys_from_spec() -> bool {
        false
    }

    open spec fn from_spec(v: &str) -> BranchName {
        choose|b: BranchName| b.0@ == v@
    }
}

} // verus!
