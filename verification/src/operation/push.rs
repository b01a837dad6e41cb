//! Pushing local commits to a remote.

use vstd::prelude::*;

use crate::branch::BranchName;
use crate::error::{Error, Result, is_data_error};
use crate::file_system::{FileSystem, FsNode};
use crate::io::layout::{fam_branches, touches_only};
use crate::io::atomic::local_commits::{LocalCommitsIo, local_commits_path, prior_local_commits};
use crate::io::atomic::object::{obj_path, stored_obj};
use crate::io::atomic::trace::{TraceIo, all_traces, traced_under, unreadable_trace};
use crate::io::bundle::{Bundle, BundleBranch, BundleObject, BundleTrace};
use crate::io::commit_obj::{
    CommitObjIo, bundle_hashes, first_parent, local_commits_decoded_at, local_history_readable, objs_reachable,
};
use crate::io::file_bytes;
use crate::object::commit::{CommitHash, CommitObj};
use crate::object::local_commits::{local_commits_decoded, local_commits_encoded};
use crate::object::ObjView;
use crate::path::segs;

verus! {

/// A remote that takes bundles.
pub trait Pushable<Output> {
    /// Whether the remote keeps the record of `sent`; a remote that says
    /// nothing of what it was handed keeps the default, `false`.
    open spec fn obeys_push_spec() -> bool {
        false
    }

    /// The bundles handed to the remote so far, oldest first.
    open spec fn sent(&self) -> Seq<Bundle> {
        Seq::empty()
    }

    /// Sends a bundle; an error carries the remote's message. Either way a
    /// remote that keeps the record has the bundle added to it.
    fn push(&mut self, bundle: Bundle) -> (r: core::result::Result<Output, String>)
        ensures
            Self::obeys_push_spec() ==> final(self).sent() == old(self).sent().push(bundle),
    ;
}

/// `b` is a push bundle of branch `name` in `fs`: the branch with its local
/// commits, oldest first, every recorded trace, and the compressed objects
/// that scanning from the newest local commit finds, stopping at the parent
/// of the oldest.
pub open spec fn push_bundle_of<Fs: FileSystem>(fs: Fs, name: Seq<char>, b: Bundle) -> bool {
    &&& b.branches@.len() == 1
    &&& b.branches@[0].branch_name.0@ == name
    &&& b.branches@[0].commits@.len() > 0
    &&& local_commits_decoded_at(fs, name, b.branches@[0].commits@.map_values(|h: CommitHash| h.0.0@))
    &&& forall|i: int| 0 <= i < b.traces@.len() ==> #[trigger] traced_under(fs, b.traces@[i])
    &&& all_traces(fs, b.traces@)
    &&& forall|i: int|
        0 <= i < b.objs@.len() ==> file_bytes(fs.fs_lookup(segs(obj_path(#[trigger] b.objs@[i].hash.0@)))) == Some(
            b.objs@[i].compressed_buf.0@,
        )
    &&& objs_reachable(
        fs,
        b.branches@[0].commits@.last().0.0@,
        first_parent(fs, b.branches@[0].commits@[0].0.0@),
        bundle_hashes(b.objs@),
    )
}

/// `after` is `before` with one bundle more, a push bundle of branch `name` in `fs`.
pub open spec fn pushed_once<Fs: FileSystem>(fs: Fs, name: Seq<char>, before: Seq<Bundle>, after: Seq<Bundle>) -> bool {
    &&& after.len() == before.len() + 1
    &&& after.drop_last() == before
    &&& push_bundle_of(fs, name, after.last())
}

/// Pushes local commits.
pub struct Push;

impl Push {
    pub fn new() -> (r: Push) {
        Push
    }

    /// Sends the local commits of a branch to the remote, then empties them.
    /// Fails where the branch has no local commits or the remote refuses the
    /// bundle.
    pub fn execute<Fs: FileSystem, Output, P: Pushable<Output>>(&self, fs: &mut Fs, branch_name: BranchName, remote: &mut P) -> (r: Result<Output>)
        requires
            old(fs).fs_inv(),
        ensures
            final(fs).fs_inv(),
            r is Ok ==> (file_bytes(old(fs).fs_lookup(segs(local_commits_path(branch_name.0@)))) matches Some(bytes)
                && local_commits_decoded(bytes) matches Some(l) && l.len() > 0),
            r is Ok ==> final(fs).fs_lookup(segs(local_commits_path(branch_name.0@))) == Some(
                FsNode::File(local_commits_encoded(Seq::empty())),
            ),
            r is Ok ==> touches_only(*old(fs), *final(fs), fam_branches()),
            r is Ok ==> forall|q: Seq<Seq<char>>|
                #[trigger] final(fs).fs_lookup(q) == crate::file_system::after_write(
                    old(fs).fs_lookup(q),
                    q,
                    segs(local_commits_path(branch_name.0@)),
                    local_commits_encoded(Seq::empty()),
                ),
            r is Ok ==> forall|b2: Seq<char>|
                !crate::path::has_prefix(segs(local_commits_path(b2)), segs(local_commits_path(branch_name.0@)))
                    && !crate::path::has_prefix(segs(local_commits_path(branch_name.0@)), segs(local_commits_path(b2)))
                    ==> #[trigger] final(fs).fs_lookup(segs(local_commits_path(b2))) == old(fs).fs_lookup(
                    segs(local_commits_path(b2)),
                ),
            old(fs).fs_lookup(segs(local_commits_path(branch_name.0@))) is None ==> r is Err,
            r matches Err(e) ==> is_data_error(e) || (e is FailedConnectServer && *final(fs) == *old(fs)),
            old(fs).fs_exact() && crate::file_system::write_allowed(
                crate::file_system::files_of(*old(fs)),
                segs(local_commits_path(branch_name.0@)),
            ) && r is Err ==> *final(fs) == *old(fs),
            r matches Err(e) ==> (old(fs).fs_exact() && crate::file_system::write_allowed(
                crate::file_system::files_of(*old(fs)),
                segs(local_commits_path(branch_name.0@)),
            ) && !(e is FailedConnectServer) ==> *final(remote) == *old(remote)),
            P::obeys_push_spec() && r is Ok ==> pushed_once(*old(fs), branch_name.0@, old(remote).sent(), final(remote).sent()),
            P::obeys_push_spec() && (r matches Err(e) && e is FailedConnectServer) ==> pushed_once(
                *old(fs),
                branch_name.0@,
                old(remote).sent(),
                final(remote).sent(),
            ),
            P::obeys_push_spec() ==> (final(remote).sent() == old(remote).sent() || pushed_once(
                *old(fs),
                branch_name.0@,
                old(remote).sent(),
                final(remote).sent(),
            )),
    {
        let ghost s0 = *fs;
        let bundle = self.create_push_bundle(fs, branch_name.copy())?;
        let ghost sent0 = remote.sent();
        let pushed = remote.push(bundle);
        proof {
            if P::obeys_push_spec() {
                assert(remote.sent().drop_last() =~= sent0);
                assert(pushed_once(s0, branch_name.0@, sent0, remote.sent()));
            }
        }
        let output = match pushed {
            Ok(o) => o,
            Err(e) => return Err(Error::FailedConnectServer(e)),
        };
        CommitObjIo::new().reset_local_commits(fs, &branch_name)?;
        proof {
            crate::io::layout::lemma_local_commits_path(branch_name.0@);
            crate::io::layout::lemma_write_frame(
                s0,
                *fs,
                segs(local_commits_path(branch_name.0@)),
                local_commits_encoded(Seq::empty()),
                fam_branches(),
            );
            crate::io::lemma_written(
                s0.fs_lookup(segs(local_commits_path(branch_name.0@))),
                segs(local_commits_path(branch_name.0@)),
                local_commits_encoded(Seq::empty()),
            );
            assert forall|b2: Seq<char>|
                !crate::path::has_prefix(segs(local_commits_path(b2)), segs(local_commits_path(branch_name.0@)))
                    && !crate::path::has_prefix(segs(local_commits_path(branch_name.0@)), segs(local_commits_path(b2)))
                    implies #[trigger] fs.fs_lookup(segs(local_commits_path(b2))) == s0.fs_lookup(segs(local_commits_path(b2))) by {
                lemma_push_keeps_other_branches(s0, *fs, branch_name.0@, b2);
            }
        }
        Ok(output)
    }

    /// The bundle of the local commits of a branch: every trace, the objects
    /// the local commits need, and the branch with its local commits. Fails
    /// where the branch has no local commits.
    #[verifier::spinoff_prover]
    pub fn create_push_bundle<Fs: FileSystem>(&self, fs: &Fs, branch_name: BranchName) -> (r: Result<Bundle>)
        requires
            fs.fs_inv(),
        ensures
            r matches Err(e) ==> is_data_error(e),
            r matches Ok(b) ==> push_bundle_of(*fs, branch_name.0@, b),
            fs.fs_lookup(segs(local_commits_path(branch_name.0@))) is None ==> r is Err,
            fs.fs_exact() && fs.fs_lookup(segs(local_commits_path(branch_name.0@))) is None ==> r == Err::<Bundle, Error>(
                Error::NotfoundLocalCommits,
            ),
            fs.fs_exact() && local_commits_decoded_at(*fs, branch_name.0@, Seq::empty()) ==> r == Err::<Bundle, Error>(
                Error::NotfoundLocalCommits,
            ),
            fs.fs_exact() && local_history_readable(*fs, branch_name.0@) && !unreadable_trace(*fs) ==> r is Ok,
    {
        proof {
            if fs.fs_exact() && local_history_readable(*fs, branch_name.0@) {
                let hs = choose|hs: Seq<Seq<char>>|
                    #[trigger] local_commits_decoded_at(*fs, branch_name.0@, hs) && hs.len() > 0 && (stored_obj(*fs, hs[0]) matches Some(
                        ObjView::Commit(_),
                    )) && crate::io::commit_obj::history_readable(*fs, hs.last());
                assert(local_commits_decoded_at(*fs, branch_name.0@, hs));
            }
        }
        let local_commits = match LocalCommitsIo::new().read(fs, &branch_name)? {
            Some(l) => l,
            None => return Err(Error::NotfoundLocalCommits),
        };
        if local_commits.is_empty() {
            return Err(Error::NotfoundLocalCommits);
        }
        let traces = TraceIo::new().read_all(fs)?;
        let objs = CommitObjIo::new().read_objs_associated_with_local_commits(fs, &branch_name)?;
        let mut branches: Vec<BundleBranch> = Vec::new();
        let ghost hs = local_commits@;
        branches.push(BundleBranch { branch_name, commits: local_commits.0 });
        let b = Bundle { objs, traces, branches };
        proof {
            let cs = b.branches@[0].commits@;
            assert(cs.map_values(|h: CommitHash| h.0.0@) =~= hs);
            let ws = choose|w: Seq<Seq<char>>|
                #[trigger] local_commits_decoded_at(*fs, b.branches@[0].branch_name.0@, w) && w.len() > 0 && objs_reachable(
                    *fs,
                    w.last(),
                    first_parent(*fs, w[0]),
                    bundle_hashes(b.objs@),
                );
            assert(ws == hs);
            assert(hs.last() == cs.last().0.0@);
            assert(hs[0] == cs[0].0.0@);
        }
        Ok(b)
    }
}

/// A successful push of branch `b` leaves the local commits of every other
/// branch `b2` as they were, where neither local commits file lies at or
/// below the other.
pub proof fn lemma_push_keeps_other_branches<Fs: FileSystem>(before: Fs, after: Fs, b: Seq<char>, b2: Seq<char>)
    requires
        forall|q: Seq<Seq<char>>|
            #[trigger] after.fs_lookup(q) == crate::file_system::after_write(
                before.fs_lookup(q),
                q,
                segs(local_commits_path(b)),
                local_commits_encoded(Seq::empty()),
            ),
        !crate::path::has_prefix(segs(local_commits_path(b2)), segs(local_commits_path(b))),
        !crate::path::has_prefix(segs(local_commits_path(b)), segs(local_commits_path(b2))),
    ensures
        after.fs_lookup(segs(local_commits_path(b2))) == before.fs_lookup(segs(local_commits_path(b2))),
        prior_local_commits(after.fs_lookup(segs(local_commits_path(b2)))) == prior_local_commits(
            before.fs_lookup(segs(local_commits_path(b2))),
        ),
{
    let q = segs(local_commits_path(b2));
    let p = segs(local_commits_path(b));
    assert(after.fs_lookup(q) == crate::file_system::after_write(before.fs_lookup(q), q, p, local_commits_encoded(Seq::empty())));
    if q == p {
        assert(p.subrange(0, p.len() as int) =~= p);
    }
}

/// What a push sends, with the commits themselves.
pub struct PushBundle {
    pub traces: Vec<BundleTrace>,
    pub objs: Vec<BundleObject>,
    pub branch_name: BranchName,
    pub commits: Vec<CommitObj>,
}

} // verus!
