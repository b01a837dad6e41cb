//! The local commits of each branch, kept in `.meltos/branches/{branch}/LOCAL`.

use vstd::prelude::*;

use crate::branch::BranchName;
use crate::error::{Error, Result, is_data_error};
use crate::file_system::{FileSystem, FsNode, after_write, files_of, write_allowed};
use crate::io::{concat, file_bytes, lift};
use crate::object::commit::CommitHash;
use crate::object::local_commits::{LocalCommitsObj, local_commits_decoded, local_commits_encoded};
use crate::io::layout::{fam_branches, lemma_local_commits_path, lemma_write_frame, touches_only};
use crate::path::segs;

verus! {

/// The file that holds the local commits of a branch.
pub open spec fn local_commits_path(b: Seq<char>) -> Seq<char> {
    ".meltos/branches/"@ + b + "/LOCAL"@
}

/// The local commits recorded in a file entry: none where there is no entry.
pub open spec fn prior_local_commits(n: Option<FsNode>) -> Option<Seq<Seq<char>>> {
    match n {
        Some(FsNode::File(b)) => local_commits_decoded(b),
        Some(FsNode::Dir) => None,
        None => Some(Seq::empty()),
    }
}

/// Reads and writes the local commits of branches.
pub struct LocalCommitsIo;

impl LocalCommitsIo {
    pub fn new() -> (r: LocalCommitsIo) {
        LocalCommitsIo
    }

    fn file_path(&self, branch_name: &BranchName) -> (r: String)
        ensures
            r@ == local_commits_path(branch_name.0@),
    {
        let p = concat(".meltos/branches/", branch_name.0.as_str());
        concat(p.as_str(), "/LOCAL")
    }

    /// Replaces the local commits of a branch.
    pub fn write<Fs: FileSystem>(&self, fs: &mut Fs, local_commits: &LocalCommitsObj, branch_name: &BranchName) -> (r: Result<()>)
        requires
            old(fs).fs_inv(),
        ensures
            r matches Err(e) ==> is_data_error(e),
            final(fs).fs_inv(),
            r is Ok ==> segs(local_commits_path(branch_name.0@)).len() > 0 && forall|q: Seq<Seq<char>>|
                #[trigger] final(fs).fs_lookup(q) == after_write(
                    old(fs).fs_lookup(q),
                    q,
                    segs(local_commits_path(branch_name.0@)),
                    local_commits_encoded(local_commits@),
                ),
            r is Ok ==> touches_only(*old(fs), *final(fs), fam_branches()),
            old(fs).fs_exact() ==> final(fs).fs_exact(),
            old(fs).fs_exact() && write_allowed(files_of(*old(fs)), segs(local_commits_path(branch_name.0@))) ==> r is Ok,
    {
        let ghost before = *fs;
        let path = self.file_path(branch_name);
        let buf = local_commits.encode();
        let r = lift(fs.write_file(path.as_str(), buf.as_slice()));
        proof {
            if r is Ok {
                lemma_local_commits_path(branch_name.0@);
                lemma_write_frame(
                    before,
                    *fs,
                    segs(local_commits_path(branch_name.0@)),
                    local_commits_encoded(local_commits@),
                    fam_branches(),
                );
            }
        }
        r
    }

    /// Adds a commit as the newest local commit of a branch.
    pub fn append<Fs: FileSystem>(&self, fs: &mut Fs, commit_hash: CommitHash, branch_name: &BranchName) -> (r: Result<()>)
        requires
            old(fs).fs_inv(),
        ensures
            r matches Err(e) ==> is_data_error(e),
            final(fs).fs_inv(),
            r is Ok ==> (prior_local_commits(old(fs).fs_lookup(segs(local_commits_path(branch_name.0@)))) matches Some(prev)
                && forall|q: Seq<Seq<char>>|
                    #[trigger] final(fs).fs_lookup(q) == after_write(
                        old(fs).fs_lookup(q),
                        q,
                        segs(local_commits_path(branch_name.0@)),
                        local_commits_encoded(prev.push(commit_hash.0.0@)),
                    )),
            r is Ok ==> touches_only(*old(fs), *final(fs), fam_branches()),
            old(fs).fs_exact() ==> final(fs).fs_exact(),
            old(fs).fs_exact() && write_allowed(files_of(*old(fs)), segs(local_commits_path(branch_name.0@)))
                && prior_local_commits(old(fs).fs_lookup(segs(local_commits_path(branch_name.0@)))) is Some ==> r is Ok,
    {
        let mut local_commits = match self.read(fs, branch_name)? {
            Some(l) => l,
            None => {
                let l = LocalCommitsObj::new();
                assert(l@ =~= Seq::<Seq<char>>::empty());
                l
            },
        };
        local_commits.push(commit_hash);
        self.write(fs, &local_commits, branch_name)
    }

    /// The local commits of a branch; an error where none are recorded.
    pub fn try_read<Fs: FileSystem>(&self, fs: &Fs, branch_name: &BranchName) -> (r: Result<LocalCommitsObj>)
        requires
            fs.fs_inv(),
        ensures
            r matches Err(e) ==> is_data_error(e),
            r matches Ok(l) ==> file_bytes(fs.fs_lookup(segs(local_commits_path(branch_name.0@)))) matches Some(b)
                && local_commits_decoded(b) == Some(l@),
            fs.fs_lookup(segs(local_commits_path(branch_name.0@))) is None ==> r is Err,
            fs.fs_exact() && fs.fs_lookup(segs(local_commits_path(branch_name.0@))) is None ==> r == Err::<
                LocalCommitsObj,
                Error,
            >(Error::NotfoundLocalCommits),
            fs.fs_exact() && (file_bytes(fs.fs_lookup(segs(local_commits_path(branch_name.0@)))) matches Some(b)
                && local_commits_decoded(b) is Some) ==> r is Ok,
    {
        match self.read(fs, branch_name)? {
            Some(l) => Ok(l),
            None => Err(Error::NotfoundLocalCommits),
        }
    }

    /// The local commits of a branch, where they are recorded.
    pub fn read<Fs: FileSystem>(&self, fs: &Fs, branch_name: &BranchName) -> (r: Result<Option<LocalCommitsObj>>)
        requires
            fs.fs_inv(),
        ensures
            r matches Err(e) ==> is_data_error(e),
            r matches Ok(Some(l)) ==> file_bytes(fs.fs_lookup(segs(local_commits_path(branch_name.0@)))) matches Some(b)
                && local_commits_decoded(b) == Some(l@),
            r matches Ok(None) ==> fs.fs_lookup(segs(local_commits_path(branch_name.0@))) is None,
            (file_bytes(fs.fs_lookup(segs(local_commits_path(branch_name.0@)))) matches Some(b)
                && local_commits_decoded(b) is None) ==> r is Err,
            fs.fs_exact() && prior_local_commits(fs.fs_lookup(segs(local_commits_path(branch_name.0@)))) is Some ==> r is Ok,
    {
        let path = self.file_path(branch_name);
        let buf = match lift(fs.read_file(path.as_str()))? {
            Some(b) => b,
            None => return Ok(None),
        };
        let l = LocalCommitsObj::decode(buf.as_slice())?;
        Ok(Some(l))
    }
}

} // verus!
