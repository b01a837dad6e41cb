//! Switching the working branch.

use vstd::prelude::*;

use crate::branch::BranchName;
use crate::error::{Result, is_data_error};
use crate::file_system::{FileSystem, FsNode, files_of, lemma_write_keeps_allowed, write_allowed};
use vstd::utf8::encode_utf8;
use crate::io::atomic::head::{HeadIo, head_of, head_path, lemma_head_read_after_write, remote_head_path};
use crate::io::atomic::work_branch::{WorkingIo, working_decoded, working_path};
use crate::io::layout::{
    fam_heads, fam_working, lemma_fams_apart, lemma_head_path, lemma_kept, lemma_working_path, outside,
    touches_only2,
};
use crate::io::{file_bytes, text_at};
use crate::object::ObjView;
use crate::operation::new_branch::NewBranch;
use crate::operation::unzip::{UnZip, lemma_unzip_owed_kept, unzip_owed, unzipped};
use crate::path::segs;

verus! {

/// What a checkout did.
#[derive(Debug, Clone, Copy, PartialEq, Eq, Hash, Structural)]
pub enum CheckOutStatus {
    AlreadyCheckedOut,
    Checkout,
    NewBranch,
}

/// The branch that `fs` records as checked out: `owner` where none is recorded.
pub open spec fn working_of<Fs: FileSystem>(fs: Fs) -> Option<Seq<char>> {
    match fs.fs_lookup(segs(working_path())) {
        None => Some("owner"@),
        Some(FsNode::File(b)) => working_decoded(b),
        Some(FsNode::Dir) => None,
    }
}

/// `mid` records `t` as checked out and gives `t` its local head, or its
/// remote head where it has no local one; nothing else changed since `before`
/// but the heads and the record of the checked-out branch.
pub open spec fn switched<Fs: FileSystem>(before: Fs, mid: Fs, t: Seq<char>) -> bool {
    &&& file_bytes(mid.fs_lookup(segs(working_path()))) matches Some(b) && working_decoded(b) == Some(t)
    &&& head_of(mid, t) == if before.fs_lookup(segs(head_path(t))) is Some {
        head_of(before, t)
    } else {
        text_at(before.fs_lookup(segs(remote_head_path(t))))
    }
    &&& head_of(mid, t) is Some
    &&& touches_only2(before, mid, fam_heads(), fam_working())
}

/// A checkout of `t` is owed a new branch: the storage answers exactly, the
/// working branch `w` is recorded (or is `owner`) and is not `t`, `t` has
/// neither a local nor a remote head, `w` has a head, and no file stands
/// where the head of `t` or the record of the working branch belong.
pub open spec fn new_branch_owed<Fs: FileSystem>(fs: Fs, t: Seq<char>) -> bool {
    &&& fs.fs_exact()
    &&& working_of(fs) matches Some(w) && w != t && head_of(fs, w) is Some
    &&& fs.fs_lookup(segs(head_path(t))) is None
    &&& fs.fs_lookup(segs(remote_head_path(t))) is None
    &&& write_allowed(files_of(fs), segs(head_path(t)))
    &&& write_allowed(files_of(fs), segs(working_path()))
}

/// A checkout of `t`, which has a local head, is owed success: the storage
/// answers exactly, the working branch (recorded, or `owner`) is not `t`, no
/// file stands where the record of the working branch belongs, and restoring
/// `t` is owed success.
pub open spec fn checkout_owed<Fs: FileSystem>(fs: Fs, t: Seq<char>) -> bool {
    &&& fs.fs_exact()
    &&& working_of(fs) matches Some(w) && w != t
    &&& head_of(fs, t) is Some
    &&& write_allowed(files_of(fs), segs(working_path()))
    &&& unzip_owed(fs, t)
}

/// Switches the working branch.
pub struct Checkout;

/// Making a new branch by checkout leaves the workspace as it was: a change
/// confined to the heads and the working-branch record touches nothing below
/// `/workspace`.
pub proof fn lemma_new_branch_keeps_workspace<Fs: FileSystem>(before: Fs, after: Fs, q: Seq<Seq<char>>)
    requires
        touches_only2(before, after, fam_heads(), fam_working()),
        crate::path::has_prefix(q, crate::io::layout::fam_workspace()),
    ensures
        after.fs_lookup(q) == before.fs_lookup(q),
{
    crate::io::layout::lemma_workspace_apart();
    crate::io::layout::lemma_outside_fam(q, crate::io::layout::fam_workspace(), fam_heads());
    crate::io::layout::lemma_outside_fam(q, crate::io::layout::fam_workspace(), fam_working());
}

impl Checkout {
    pub fn new() -> (r: Checkout) {
        Checkout
    }

    /// Makes `target_branch` the working branch. Nothing changes where it
    /// already is; where it has a local head (or a remote one, which then
    /// becomes its local head) the workspace is restored from it; otherwise
    /// it is made from the working branch.
    pub fn execute<Fs: FileSystem>(&self, fs: &mut Fs, target_branch: &BranchName) -> (r: Result<CheckOutStatus>)
        requires
            old(fs).fs_inv(),
        ensures
            r matches Err(e) ==> is_data_error(e),
            final(fs).fs_inv(),
            r == Ok::<CheckOutStatus, crate::error::Error>(CheckOutStatus::AlreadyCheckedOut) ==> *final(fs) == *old(fs)
                && working_of(*old(fs)) == Some(target_branch.0@),
            r == Ok::<CheckOutStatus, crate::error::Error>(CheckOutStatus::Checkout) ==> (working_of(*old(fs)) matches Some(w)
                && w != target_branch.0@ && exists|mid: Fs, es: Seq<(Seq<char>, Seq<char>)>, objs: Seq<ObjView>|
                #![trigger switched(*old(fs), mid, target_branch.0@), unzipped(mid, *final(fs), target_branch.0@, es, objs)]
                switched(*old(fs), mid, target_branch.0@) && unzipped(mid, *final(fs), target_branch.0@, es, objs)),
            r == Ok::<CheckOutStatus, crate::error::Error>(CheckOutStatus::NewBranch) ==> (working_of(*old(fs)) matches Some(w)
                && w != target_branch.0@ && old(fs).fs_lookup(segs(head_path(target_branch.0@))) is None
                && old(fs).fs_lookup(segs(remote_head_path(target_branch.0@))) is None && head_of(*old(fs), w) is Some
                && head_of(*final(fs), target_branch.0@) == head_of(*old(fs), w) && (file_bytes(
                final(fs).fs_lookup(segs(working_path())),
            ) matches Some(b) && working_decoded(b) == Some(target_branch.0@))),
            r == Ok::<CheckOutStatus, crate::error::Error>(CheckOutStatus::NewBranch) ==> touches_only2(
                *old(fs),
                *final(fs),
                fam_heads(),
                fam_working(),
            ),
            r == Ok::<CheckOutStatus, crate::error::Error>(CheckOutStatus::NewBranch) ==> forall|q: Seq<Seq<char>>|
                crate::path::has_prefix(q, crate::io::layout::fam_workspace()) ==> #[trigger] final(fs).fs_lookup(q)
                    == old(fs).fs_lookup(q),
            old(fs).fs_exact() && working_of(*old(fs)) == Some(target_branch.0@) ==> r == Ok::<
                CheckOutStatus,
                crate::error::Error,
            >(CheckOutStatus::AlreadyCheckedOut),
            new_branch_owed(*old(fs), target_branch.0@) ==> r == Ok::<CheckOutStatus, crate::error::Error>(
                CheckOutStatus::NewBranch,
            ),
            checkout_owed(*old(fs), target_branch.0@) ==> r == Ok::<CheckOutStatus, crate::error::Error>(
                CheckOutStatus::Checkout,
            ),
    {
        let ghost s0 = *fs;
        let ghost tp = segs(head_path(target_branch.0@));
        proof {
            lemma_fams_apart();
            lemma_head_path(target_branch.0@);
            lemma_working_path();
        }
        let working_io = WorkingIo::new();
        let working = match working_io.read(fs)? {
            Some(b) => b,
            None => BranchName::owner(),
        };
        if working.same(target_branch) {
            return Ok(CheckOutStatus::AlreadyCheckedOut);
        }
        let heads = HeadIo::new();
        if heads.read(fs, target_branch)?.is_some() {
            working_io.write(fs, target_branch)?;
            let ghost mid = *fs;
            proof {
                self.lemma_working_written(s0, mid, target_branch.0@);
                lemma_kept(s0, mid, fam_working(), tp, fam_heads());
                assert(switched(s0, mid, target_branch.0@));
                if checkout_owed(s0, target_branch.0@) {
                    lemma_unzip_owed_kept(s0, mid, target_branch.0@, fam_working());
                }
            }
            UnZip::new().execute(fs, target_branch)?;
            return Ok(CheckOutStatus::Checkout);
        }
        match heads.read_remote(fs, target_branch)? {
            Some(branch_hash) => {
                heads.write(fs, target_branch, &branch_hash)?;
                let ghost s1 = *fs;
                proof {
                    lemma_head_read_after_write(s0, s1, head_path(target_branch.0@), branch_hash.0.0@);
                }
                working_io.write(fs, target_branch)?;
                let ghost mid = *fs;
                proof {
                    self.lemma_working_written(s1, mid, target_branch.0@);
                    lemma_kept(s1, mid, fam_working(), tp, fam_heads());
                    assert forall|q: Seq<Seq<char>>| outside(q, fam_heads()) && outside(q, fam_working()) implies #[trigger] mid.fs_lookup(q)
                        == s0.fs_lookup(q) by {
                        assert(s1.fs_lookup(q) == s0.fs_lookup(q));
                    }
                    assert(switched(s0, mid, target_branch.0@));
                }
                UnZip::new().execute(fs, target_branch)?;
                return Ok(CheckOutStatus::Checkout);
            },
            None => {},
        }
        NewBranch::new().execute(fs, working, target_branch.copy())?;
        let ghost s1 = *fs;
        proof {
            let h = choose|h: crate::object::commit::CommitHash| #[trigger] crate::io::atomic::head::head_read_reports(
                s0,
                head_path(working.0@),
                Ok(Some(h)),
            ) && crate::io::atomic::head::head_written(s0, s1, head_path(target_branch.0@), h.0.0@);
            lemma_head_read_after_write(s0, s1, head_path(target_branch.0@), h.0.0@);
        }
        proof {
            if new_branch_owed(s0, target_branch.0@) {
                let h = choose|h: crate::object::commit::CommitHash| #[trigger] crate::io::atomic::head::head_read_reports(
                    s0,
                    head_path(working.0@),
                    Ok(Some(h)),
                ) && crate::io::atomic::head::head_written(s0, s1, head_path(target_branch.0@), h.0.0@);
                crate::io::layout::lemma_not_above(tp, segs(working_path()), fam_heads(), fam_working());
                lemma_write_keeps_allowed(s0, s1, segs(working_path()), tp, encode_utf8(h.0.0@));
            }
        }
        proof {
            let h = choose|h: crate::object::commit::CommitHash| #[trigger] crate::io::atomic::head::head_read_reports(
                s0,
                head_path(working.0@),
                Ok(Some(h)),
            ) && crate::io::atomic::head::head_written(s0, s1, head_path(target_branch.0@), h.0.0@);
            crate::io::layout::lemma_write_frame(s0, s1, tp, encode_utf8(h.0.0@), fam_heads());
        }
        working_io.write(fs, target_branch)?;
        proof {
            self.lemma_working_written(s1, *fs, target_branch.0@);
            lemma_kept(s1, *fs, fam_working(), tp, fam_heads());
            assert forall|q: Seq<Seq<char>>| outside(q, fam_heads()) && outside(q, fam_working()) implies #[trigger] fs.fs_lookup(q)
                == s0.fs_lookup(q) by {
                assert(s1.fs_lookup(q) == s0.fs_lookup(q));
            }
            assert forall|q: Seq<Seq<char>>| crate::path::has_prefix(q, crate::io::layout::fam_workspace()) implies #[trigger] fs.fs_lookup(q)
                == s0.fs_lookup(q) by {
                lemma_new_branch_keeps_workspace(s0, *fs, q);
            }
        }
        Ok(CheckOutStatus::NewBranch)
    }

    proof fn lemma_working_written<Fs: FileSystem>(&self, before: Fs, after: Fs, t: Seq<char>)
        requires
            segs(working_path()).len() > 0,
            forall|q: Seq<Seq<char>>|
                #[trigger] after.fs_lookup(q) == crate::file_system::after_write(
                    before.fs_lookup(q),
                    q,
                    segs(working_path()),
                    crate::io::atomic::work_branch::json_string_encoded(t),
                ),
            working_decoded(crate::io::atomic::work_branch::json_string_encoded(t)) == Some(t),
        ensures
            file_bytes(after.fs_lookup(segs(working_path()))) matches Some(b) && working_decoded(b) == Some(t),
    {
        crate::io::lemma_written(
            before.fs_lookup(segs(working_path())),
            segs(working_path()),
            crate::io::atomic::work_branch::json_string_encoded(t),
        );
    }
}

} // verus!
