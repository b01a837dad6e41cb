//! Making a branch that starts where another one stands.

use vstd::prelude::*;

use crate::branch::BranchName;
use crate::error::{Result, is_data_error};
use crate::file_system::FileSystem;
use crate::io::atomic::head::{HeadIo, head_path, head_read_reports, head_written};

verus! {

/// Makes branches.
pub struct NewBranch;

impl NewBranch {
    pub fn new() -> (r: NewBranch) {
        NewBranch
    }

    /// Gives the branch `to` the head of the branch `from`.
    pub fn execute<Fs: FileSystem>(&self, fs: &mut Fs, from: BranchName, to: BranchName) -> (r: Result<()>)
        requires
            old(fs).fs_inv(),
        ensures
            r matches Err(e) ==> is_data_error(e),
            final(fs).fs_inv(),
            r is Ok ==> exists|h: crate::object::commit::CommitHash|
                #![trigger head_read_reports(*old(fs), head_path(from.0@), Ok(Some(h)))]
                head_read_reports(*old(fs), head_path(from.0@), Ok(Some(h)))
                    && head_written(*old(fs), *final(fs), head_path(to.0@), h.0.0@),
            old(fs).fs_lookup(crate::path::segs(head_path(from.0@))) is None ==> r is Err,
            old(fs).fs_exact() ==> final(fs).fs_exact(),
            old(fs).fs_exact() && crate::io::atomic::head::head_of(*old(fs), from.0@) is Some
                && crate::file_system::write_allowed(
                crate::file_system::files_of(*old(fs)),
                crate::path::segs(head_path(to.0@)),
            ) ==> r is Ok,
    {
        let head = HeadIo::new();
        let old_branch_head = head.try_read(fs, &from)?;
        head.write(fs, &to, &old_branch_head)
    }
}

} // verus!
