//! Bundles: the traces, objects and branch heads that travel between
//! repositories.

use vstd::prelude::*;

use crate::branch::BranchName;
use crate::error::{Result, is_data_error};
use crate::file_system::FileSystem;
use crate::io::atomic::head::{HeadIo, head_path, head_read_reports, heads_readable, listed_head, lists_heads};
use crate::io::atomic::object::{ObjIo, all_objs, stored_under};
use crate::io::atomic::trace::{TraceIo, all_traces, traced_under, unreadable_trace};
use crate::io::{file_name, lift};
use crate::object::commit::CommitHash;
use crate::object::{CompressedBuf, ObjHash};
use crate::path::{has_prefix, segs};

verus! {

/// A commit and the hash of its trace tree.
#[derive(Debug, Clone, PartialEq, Eq, PartialOrd, Ord)]
pub struct BundleTrace {
    pub commit_hash: CommitHash,
    pub obj_hash: ObjHash,
}

/// A compressed object and its hash.
#[derive(Debug, Clone, PartialEq, Eq, PartialOrd, Ord)]
pub struct BundleObject {
    pub hash: ObjHash,
    pub compressed_buf: CompressedBuf,
}

/// A branch and commits of it.
#[derive(Debug, Clone, PartialEq, Eq, PartialOrd, Ord)]
pub struct BundleBranch {
    pub branch_name: BranchName,
    pub commits: Vec<CommitHash>,
}

/// What is sent to, or received from, another repository.
#[derive(Debug, Clone, PartialEq, Eq, Default)]
pub struct Bundle {
    pub traces: Vec<BundleTrace>,
    pub objs: Vec<BundleObject>,
    pub branches: Vec<BundleBranch>,
}

/// The total size of the compressed objects.
pub open spec fn objs_size(objs: Seq<BundleObject>) -> int
    decreases objs.len(),
{
    if objs.len() == 0 {
        0
    } else {
        objs_size(objs.drop_last()) + objs.last().compressed_buf.0@.len()
    }
}

impl Bundle {
    /// The total size of the compressed objects, or `usize::MAX` where it is larger.
    pub fn obj_data_size(&self) -> (r: usize)
        ensures
            r == if objs_size(self.objs@) <= usize::MAX {
                objs_size(self.objs@)
            } else {
                usize::MAX as int
            },
    {
        let mut total: usize = 0;
        let mut i: usize = 0;
        assert(self.objs@.take(0) =~= Seq::<BundleObject>::empty());
        while i < self.objs.len()
            invariant
                i <= self.objs@.len(),
                total == if objs_size(self.objs@.take(i as int)) <= usize::MAX {
                    objs_size(self.objs@.take(i as int))
                } else {
                    usize::MAX as int
                },
            decreases self.objs@.len() - i,
        {
            proof {
                let t = self.objs@.take(i + 1);
                assert(t.drop_last() =~= self.objs@.take(i as int));
                assert(objs_size(self.objs@.take(i as int)) >= 0) by {
                    lemma_objs_size_nonneg(self.objs@.take(i as int));
                }
            }
            total = total.saturating_add(self.objs[i].compressed_buf.0.len());
            i = i + 1;
        }
        assert(self.objs@.take(self.objs@.len() as int) =~= self.objs@);
        total
    }
}

pub proof fn lemma_objs_size_nonneg(objs: Seq<BundleObject>)
    ensures
        objs_size(objs) >= 0,
    decreases objs.len(),
{
    if objs.len() > 0 {
        lemma_objs_size_nonneg(objs.drop_last());
    }
}

/// Gathers bundles from a repository.
pub struct BundleIo;

impl BundleIo {
    pub fn new() -> (r: BundleIo) {
        BundleIo
    }

    /// A bundle of every object and trace, and of the head of every local branch.
    pub fn create<Fs: FileSystem>(&self, fs: &Fs) -> (r: Result<Bundle>)
        requires
            fs.fs_inv(),
        ensures
            r matches Err(e) ==> is_data_error(e),
            r matches Ok(b) ==> {
                &&& forall|i: int| 0 <= i < b.objs@.len() ==> #[trigger] stored_under(*fs, b.objs@[i])
                &&& forall|i: int| 0 <= i < b.traces@.len() ==> #[trigger] traced_under(*fs, b.traces@[i])
                &&& forall|i: int|
                    0 <= i < b.branches@.len() ==> #[trigger] b.branches@[i].commits@.len() == 1
                        && head_read_reports(
                        *fs,
                        head_path(b.branches@[i].branch_name.0@),
                        Ok(Some(b.branches@[i].commits@[0])),
                    )
                &&& all_objs(*fs, b.objs@)
                &&& all_traces(*fs, b.traces@)
                &&& exists|files: Seq<String>|
                    #[trigger] lists_heads(*fs, files) && b.branches@.len() == files.len() && forall|i: int|
                        0 <= i < b.branches@.len() ==> #[trigger] listed_head(
                            *fs,
                            files[i],
                            b.branches@[i].branch_name.0@,
                            b.branches@[i].commits@[0],
                        )
            },
            fs.fs_exact() && heads_readable(*fs) && !unreadable_trace(*fs) ==> r is Ok,
    {
        let branches = self.read_branch_heads(fs)?;
        let objs = ObjIo::new().read_all(fs)?;
        let traces = TraceIo::new().read_all(fs)?;
        Ok(Bundle { branches, objs, traces })
    }

    fn read_branch_heads<Fs: FileSystem>(&self, fs: &Fs) -> (r: Result<Vec<BundleBranch>>)
        requires
            fs.fs_inv(),
        ensures
            r matches Err(e) ==> is_data_error(e),
            r matches Ok(v) ==> forall|i: int|
                0 <= i < v@.len() ==> #[trigger] v@[i].commits@.len() == 1 && head_read_reports(
                    *fs,
                    head_path(v@[i].branch_name.0@),
                    Ok(Some(v@[i].commits@[0])),
                ),
            r matches Ok(v) ==> exists|files: Seq<String>|
                #[trigger] lists_heads(*fs, files) && v@.len() == files.len() && forall|i: int|
                    0 <= i < v@.len() ==> #[trigger] listed_head(*fs, files[i], v@[i].branch_name.0@, v@[i].commits@[0]),
            fs.fs_exact() && heads_readable(*fs) ==> r is Ok,
    {
        proof {
            crate::io::layout::lemma_heads_dir();
        }
        let head_files = lift(fs.all_files_in(".meltos/refs/heads"))?;
        let head = HeadIo::new();
        let ghost owed = fs.fs_exact() && heads_readable(*fs);
        let mut branches: Vec<BundleBranch> = Vec::new();
        let mut i: usize = 0;
        while i < head_files.len()
            invariant
                fs.fs_inv(),
                i <= head_files@.len(),
                forall|j: int|
                    0 <= j < branches@.len() ==> #[trigger] branches@[j].commits@.len() == 1 && head_read_reports(
                        *fs,
                        head_path(branches@[j].branch_name.0@),
                        Ok(Some(branches@[j].commits@[0])),
                    ),
                lists_heads(*fs, head_files@),
                branches@.len() == i,
                forall|j: int|
                    0 <= j < i ==> #[trigger] listed_head(*fs, head_files@[j], branches@[j].branch_name.0@, branches@[j].commits@[0]),
                owed == (fs.fs_exact() && heads_readable(*fs)),
            decreases head_files@.len() - i,
        {
            proof {
                let q = segs(head_files@[i as int]@);
                assert(has_prefix(q, crate::io::layout::fam_heads()));
                if owed {
                    assert(crate::file_system::is_file(fs.fs_lookup(q)));
                    assert(q.len() > 0 && crate::io::atomic::head::head_of(*fs, q.last()) is Some);
                }
            }
            match file_name(head_files[i].as_str()) {
                Some(name) => {
                    let branch_name = BranchName(name);
                    let h = head.try_read(fs, &branch_name)?;
                    let mut commits: Vec<CommitHash> = Vec::new();
                    commits.push(h);
                    branches.push(BundleBranch { commits, branch_name });
                },
                None => {},
            }
            i = i + 1;
        }
        Ok(branches)
    }
}

} // verus!
