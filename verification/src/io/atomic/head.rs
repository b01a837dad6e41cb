//! Branch heads: the newest commit of each branch, kept as the text of its
//! hash in one file per branch.

use vstd::prelude::*;
use vstd::utf8::encode_utf8;

use crate::branch::BranchName;
use crate::error::{Error, Result, is_data_error};
use crate::file_system::{FileSystem, after_delete, after_write, files_of, lists_files, write_allowed};
use crate::io::{concat, file_bytes, file_name, lemma_text_roundtrip, lift, text_decoded};
use crate::object::ObjHash;
use crate::object::commit::CommitHash;
use crate::io::layout::{
    fam_heads, fam_remotes, lemma_delete_frame, lemma_head_path, lemma_remote_head_path,
    lemma_write_frame, touches_only,
};
use crate::path::{has_prefix, segs};

verus! {

/// The message of a commit.
#[derive(Debug, Clone, PartialEq, Eq, Hash)]
pub struct CommitText(pub String);

impl From<&str> for CommitText {
    fn from(text: &str) -> CommitText {
        CommitText(text.to_owned())
    }
}

impl vstd::std_specs::convert::FromSpecImpl<&str> for CommitText {
    open spec fn obeys_from_spec() -> bool {
        false
    }

    open spec fn from_spec(v: &str) -> CommitText {
        choose|t: CommitText| t.0@ == v@
    }
}

impl CommitText {
    pub fn encode(&self) -> (r: Vec<u8>)
        ensures
            r@ == encode_utf8(self.0@),
    {
        crate::encode::str_to_bytes(self.0.as_str())
    }

    pub fn decode(buf: &[u8]) -> (r: Result<CommitText>)
        ensures
            r matches Err(e) ==> is_data_error(e),
            match r {
                Ok(t) => text_decoded(buf@) == Some(t.0@),
                Err(e) => text_decoded(buf@) is None && e == Error::InvalidUtf8,
            },
    {
        match crate::encode::string_from_utf8(crate::util::copy_bytes(buf)) {
            Some(s) => Ok(CommitText(s)),
            None => Err(Error::InvalidUtf8),
        }
    }
}

/// The file that holds the head of a local branch.
pub open spec fn head_path(b: Seq<char>) -> Seq<char> {
    ".meltos/refs/heads/"@ + b
}

/// The file that holds the head of a branch as the remote last had it.
pub open spec fn remote_head_path(b: Seq<char>) -> Seq<char> {
    ".meltos/refs/remotes/"@ + b
}

/// The head of a local branch, as recorded.
pub open spec fn head_of<Fs: FileSystem>(fs: Fs, b: Seq<char>) -> Option<Seq<char>> {
    crate::io::text_at(fs.fs_lookup(segs(head_path(b))))
}

/// What reading a head file at `p` gives.
pub open spec fn head_read_reports<Fs: FileSystem>(fs: Fs, p: Seq<char>, r: Result<Option<CommitHash>>) -> bool {
    &&& r matches Ok(Some(h)) ==> file_bytes(fs.fs_lookup(segs(p))) matches Some(b) && text_decoded(b)
        == Some(h.0.0@)
    &&& r matches Ok(None) ==> fs.fs_lookup(segs(p)) is None
    &&& (file_bytes(fs.fs_lookup(segs(p))) matches Some(b) && text_decoded(b) is None) ==> r is Err
}

/// What writing `hash` into the head file at `p` does.
pub open spec fn head_written<Fs: FileSystem>(before: Fs, after: Fs, p: Seq<char>, hash: Seq<char>) -> bool {
    &&& segs(p).len() > 0
    &&& forall|q: Seq<Seq<char>>|
        #[trigger] after.fs_lookup(q) == after_write(before.fs_lookup(q), q, segs(p), encode_utf8(hash))
}

/// `files` names, once each, every file below `.meltos/refs/heads`.
pub open spec fn lists_heads<Fs: FileSystem>(fs: Fs, files: Seq<String>) -> bool {
    lists_files(Set::new(|q: Seq<Seq<char>>| crate::file_system::is_file(fs.fs_lookup(q))), fam_heads(), files)
}

/// Every file below `.meltos/refs/heads` is the head file of the branch named
/// by its last segment, and holds a readable head.
pub open spec fn heads_readable<Fs: FileSystem>(fs: Fs) -> bool {
    forall|q: Seq<Seq<char>>|
        #![trigger fs.fs_lookup(q)]
        has_prefix(q, fam_heads()) && crate::file_system::is_file(fs.fs_lookup(q)) ==> q.len() > 0 && head_of(fs, q.last()) is Some
}

/// `name` is the name of the file that the path string `f` names, and the
/// head file of the branch `name` holds `h`.
pub open spec fn listed_head<Fs: FileSystem>(fs: Fs, f: String, name: Seq<char>, h: CommitHash) -> bool {
    &&& segs(f@).len() > 0
    &&& name == segs(f@).last()
    &&& head_read_reports(fs, head_path(name), Ok(Some(h)))
}

/// Reads and writes branch heads.
pub struct HeadIo;

impl HeadIo {
    pub fn new() -> (r: HeadIo) {
        HeadIo
    }

    fn write_at<Fs: FileSystem>(&self, fs: &mut Fs, path: &str, commit_hash: &CommitHash) -> (r: Result<()>)
        requires
            old(fs).fs_inv(),
        ensures
            r matches Err(e) ==> is_data_error(e),
            final(fs).fs_inv(),
            r is Ok ==> head_written(*old(fs), *final(fs), path@, commit_hash.0.0@),
            old(fs).fs_exact() ==> final(fs).fs_exact(),
            old(fs).fs_exact() && write_allowed(files_of(*old(fs)), segs(path@)) ==> r is Ok,
    {
        let buf = commit_hash.0.encode();
        lift(fs.write_file(path, buf.as_slice()))
    }

    fn read_at<Fs: FileSystem>(&self, fs: &Fs, path: &str) -> (r: Result<Option<CommitHash>>)
        requires
            fs.fs_inv(),
        ensures
            r matches Err(e) ==> is_data_error(e),
            head_read_reports(*fs, path@, r),
            fs.fs_exact() && (fs.fs_lookup(segs(path@)) is None || crate::io::text_at(fs.fs_lookup(segs(path@))) is Some)
                ==> r is Ok,
    {
        let buf = match lift(fs.read_file(path)) {
            Ok(Some(b)) => b,
            Ok(None) => return Ok(None),
            Err(e) => return Err(e),
        };
        let h = ObjHash::decode(buf.as_slice())?;
        Ok(Some(CommitHash(h)))
    }

    /// Records the head of a branch as the remote has it.
    pub fn write_remote<Fs: FileSystem>(&self, fs: &mut Fs, branch_name: &BranchName, commit_hash: &CommitHash) -> (r: Result<()>)
        requires
            old(fs).fs_inv(),
        ensures
            r matches Err(e) ==> is_data_error(e),
            final(fs).fs_inv(),
            r is Ok ==> head_written(*old(fs), *final(fs), remote_head_path(branch_name.0@), commit_hash.0.0@),
            r is Ok ==> touches_only(*old(fs), *final(fs), fam_remotes()),
    {
        let ghost before = *fs;
        let path = concat(".meltos/refs/remotes/", branch_name.0.as_str());
        let r = self.write_at(fs, path.as_str(), commit_hash);
        proof {
            if r is Ok {
                lemma_remote_head_path(branch_name.0@);
                lemma_write_frame(
                    before,
                    *fs,
                    segs(remote_head_path(branch_name.0@)),
                    encode_utf8(commit_hash.0.0@),
                    fam_remotes(),
                );
            }
        }
        r
    }

    /// Sets the head of a local branch.
    pub fn write<Fs: FileSystem>(&self, fs: &mut Fs, branch_name: &BranchName, commit_hash: &CommitHash) -> (r: Result<()>)
        requires
            old(fs).fs_inv(),
        ensures
            r matches Err(e) ==> is_data_error(e),
            final(fs).fs_inv(),
            r is Ok ==> head_written(*old(fs), *final(fs), head_path(branch_name.0@), commit_hash.0.0@),
            r is Ok ==> touches_only(*old(fs), *final(fs), fam_heads()),
            old(fs).fs_exact() ==> final(fs).fs_exact(),
            old(fs).fs_exact() && write_allowed(files_of(*old(fs)), segs(head_path(branch_name.0@))) ==> r is Ok,
    {
        let ghost before = *fs;
        let path = concat(".meltos/refs/heads/", branch_name.0.as_str());
        let r = self.write_at(fs, path.as_str(), commit_hash);
        proof {
            if r is Ok {
                lemma_head_path(branch_name.0@);
                lemma_write_frame(before, *fs, segs(head_path(branch_name.0@)), encode_utf8(commit_hash.0.0@), fam_heads());
            }
        }
        r
    }

    /// Removes the head of a local branch.
    pub fn delete<Fs: FileSystem>(&self, fs: &mut Fs, branch_name: &BranchName) -> (r: Result<()>)
        requires
            old(fs).fs_inv(),
        ensures
            r matches Err(e) ==> is_data_error(e),
            final(fs).fs_inv(),
            r is Ok ==> forall|q: Seq<Seq<char>>|
                #[trigger] final(fs).fs_lookup(q) == after_delete(old(fs).fs_lookup(q), q, segs(head_path(branch_name.0@))),
            r is Ok ==> touches_only(*old(fs), *final(fs), fam_heads()),
    {
        let ghost before = *fs;
        let path = concat(".meltos/refs/heads/", branch_name.0.as_str());
        let r = lift(fs.delete(path.as_str()));
        proof {
            if r is Ok {
                lemma_head_path(branch_name.0@);
                lemma_delete_frame(before, *fs, segs(head_path(branch_name.0@)), fam_heads());
            }
        }
        r
    }

    /// The head of a branch as the remote has it; an error where there is none.
    pub fn try_read_remote<Fs: FileSystem>(&self, fs: &Fs, branch_name: &BranchName) -> (r: Result<CommitHash>)
        requires
            fs.fs_inv(),
        ensures
            r matches Err(e) ==> is_data_error(e),
            r matches Ok(h) ==> head_read_reports(*fs, remote_head_path(branch_name.0@), Ok(Some(h))),
            fs.fs_lookup(segs(remote_head_path(branch_name.0@))) is None ==> r is Err,
            fs.fs_exact() && fs.fs_lookup(segs(remote_head_path(branch_name.0@))) is None ==> (r matches Err(
                crate::error::Error::NotfoundHead(n),
            ) && n.0@ == branch_name.0@),
    {
        match self.read_remote(fs, branch_name)? {
            Some(h) => Ok(h),
            None => Err(Error::NotfoundHead(branch_name.copy())),
        }
    }

    /// The head of a branch as the remote has it.
    pub fn read_remote<Fs: FileSystem>(&self, fs: &Fs, branch_name: &BranchName) -> (r: Result<Option<CommitHash>>)
        requires
            fs.fs_inv(),
        ensures
            r matches Err(e) ==> is_data_error(e),
            head_read_reports(*fs, remote_head_path(branch_name.0@), r),
            fs.fs_exact() && (fs.fs_lookup(segs(remote_head_path(branch_name.0@))) is None || crate::io::text_at(
                fs.fs_lookup(segs(remote_head_path(branch_name.0@))),
            ) is Some) ==> r is Ok,
    {
        let path = concat(".meltos/refs/remotes/", branch_name.0.as_str());
        self.read_at(fs, path.as_str())
    }

    /// The head of a local branch; an error where there is none.
    pub fn try_read<Fs: FileSystem>(&self, fs: &Fs, branch_name: &BranchName) -> (r: Result<CommitHash>)
        requires
            fs.fs_inv(),
        ensures
            r matches Err(e) ==> is_data_error(e),
            r matches Ok(h) ==> head_read_reports(*fs, head_path(branch_name.0@), Ok(Some(h))),
            fs.fs_lookup(segs(head_path(branch_name.0@))) is None ==> r is Err,
            fs.fs_exact() && head_of(*fs, branch_name.0@) is Some ==> r is Ok,
            fs.fs_exact() && fs.fs_lookup(segs(head_path(branch_name.0@))) is None ==> (r matches Err(
                crate::error::Error::NotfoundHead(n),
            ) && n.0@ == branch_name.0@),
    {
        match self.read(fs, branch_name)? {
            Some(h) => Ok(h),
            None => Err(Error::NotfoundHead(branch_name.copy())),
        }
    }

    /// The head of a local branch.
    pub fn read<Fs: FileSystem>(&self, fs: &Fs, branch_name: &BranchName) -> (r: Result<Option<CommitHash>>)
        requires
            fs.fs_inv(),
        ensures
            r matches Err(e) ==> is_data_error(e),
            head_read_reports(*fs, head_path(branch_name.0@), r),
            fs.fs_exact() && (fs.fs_lookup(segs(head_path(branch_name.0@))) is None || head_of(*fs, branch_name.0@) is Some)
                ==> r is Ok,
    {
        let path = concat(".meltos/refs/heads/", branch_name.0.as_str());
        self.read_at(fs, path.as_str())
    }

    /// Every local branch with its head, one per file below `.meltos/refs/heads`.
    pub fn read_all<Fs: FileSystem>(&self, fs: &Fs) -> (r: Result<Vec<(BranchName, CommitHash)>>)
        requires
            fs.fs_inv(),
        ensures
            r matches Err(e) ==> is_data_error(e),
            r matches Ok(v) ==> forall|i: int| 0 <= i < v@.len() ==> #[trigger] head_read_reports(
                *fs,
                head_path(v@[i].0.0@),
                Ok(Some(v@[i].1)),
            ),
            r matches Ok(v) ==> exists|files: Seq<String>|
                #[trigger] lists_heads(*fs, files) && v@.len() == files.len() && forall|i: int|
                    0 <= i < v@.len() ==> #[trigger] listed_head(*fs, files[i], v@[i].0.0@, v@[i].1),
    {
        proof {
            crate::io::layout::lemma_heads_dir();
        }
        let files = lift(fs.all_files_in(".meltos/refs/heads/"))?;
        let mut branches: Vec<(BranchName, CommitHash)> = Vec::new();
        let mut i: usize = 0;
        while i < files.len()
            invariant
                fs.fs_inv(),
                i <= files@.len(),
                forall|j: int| 0 <= j < branches@.len() ==> #[trigger] head_read_reports(
                    *fs,
                    head_path(branches@[j].0.0@),
                    Ok(Some(branches@[j].1)),
                ),
                lists_heads(*fs, files@),
                branches@.len() == i,
                forall|j: int| 0 <= j < i ==> #[trigger] listed_head(*fs, files@[j], branches@[j].0.0@, branches@[j].1),
            decreases files@.len() - i,
        {
            proof {
                assert(has_prefix(segs(files@[i as int]@), fam_heads()));
            }
            match file_name(files[i].as_str()) {
                Some(name) => {
                    let branch_name = BranchName(name);
                    let commit_hash = self.try_read(fs, &branch_name)?;
                    branches.push((branch_name, commit_hash));
                },
                None => {},
            }
            i = i + 1;
        }
        Ok(branches)
    }
}

/// A head read after it was written gives back the written hash.
pub proof fn lemma_head_read_after_write<Fs: FileSystem>(before: Fs, after: Fs, p: Seq<char>, hash: Seq<char>)
    requires
        head_written(before, after, p, hash),
    ensures
        file_bytes(after.fs_lookup(segs(p))) == Some(encode_utf8(hash)),
        text_decoded(encode_utf8(hash)) == Some(hash),
{
    lemma_text_roundtrip(hash);
    assert(after.fs_lookup(segs(p)) == after_write(before.fs_lookup(segs(p)), segs(p), segs(p), encode_utf8(hash)));
}

} // verus!
