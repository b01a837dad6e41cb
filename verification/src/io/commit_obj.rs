//! Commit objects read and made through branch heads and local commits.

use vstd::prelude::*;

use crate::branch::BranchName;
use crate::error::{Error, Result, is_data_error};
use crate::file_system::{FileSystem, is_file};
use crate::io::atomic::head::{CommitText, HeadIo, head_path, head_read_reports};
use crate::io::atomic::local_commits::{LocalCommitsIo, local_commits_path};
use crate::io::atomic::object::{ObjIo, obj_path, stored_obj};
use crate::io::bundle::BundleObject;
use crate::io::commit_hashes::{commit_parents, hashes_view, parent_path, reachable};
use crate::io::file_bytes;
use crate::object::commit::{CommitHash, CommitObj};
use crate::object::local_commits::{LocalCommitsObj, local_commits_decoded, local_commits_encoded};
use crate::object::tree::TreeObj;
use crate::object::{ObjHash, ObjView};
use crate::path::segs;

verus! {

/// The views of a list of object hashes.
pub open spec fn obj_hashes_view(v: Seq<ObjHash>) -> Seq<Seq<char>> {
    v.map_values(|h: ObjHash| h.0@)
}

/// What scanning the commit `c` adds: the commit, its tree and every hash in
/// the tree are in `v`, and, unless `to` is one of its parents, so is
/// every parent in the scanned set `s`.
pub open spec fn scanned<Fs: FileSystem>(
    fs: Fs,
    s: Set<Seq<char>>,
    v: Seq<Seq<char>>,
    to: Option<Seq<char>>,
    c: Seq<char>,
) -> bool {
    &&& stored_obj(fs, c) matches Some(ObjView::Commit(cv))
    &&& v.contains(c)
    &&& v.contains(stored_obj(fs, c)->0->Commit_0.tree)
    &&& stored_obj(fs, stored_obj(fs, c)->0->Commit_0.tree) matches Some(ObjView::Tree(es))
    &&& forall|i: int| 0 <= i < es.len() ==> v.contains(#[trigger] es[i].1)
    &&& !(to matches Some(t) && stored_obj(fs, c)->0->Commit_0.parents.contains(t)) ==> forall|j: int|
        0 <= j < stored_obj(fs, c)->0->Commit_0.parents.len() ==> s.contains(
            #[trigger] stored_obj(fs, c)->0->Commit_0.parents[j],
        )
}

/// Some entry of the tree entries `es` has the hash `x`.
pub open spec fn holds_hash(es: Seq<(Seq<char>, Seq<char>)>, x: Seq<char>) -> bool {
    exists|i: int| 0 <= i < es.len() && #[trigger] es[i].1 == x
}

/// `x` is the stored commit `c`, its tree, or a hash that its tree holds.
pub open spec fn from_commit<Fs: FileSystem>(fs: Fs, c: Seq<char>, x: Seq<char>) -> bool {
    &&& stored_obj(fs, c) matches Some(ObjView::Commit(cv))
    &&& x == c || x == cv.tree || (stored_obj(fs, cv.tree) matches Some(ObjView::Tree(es)) && holds_hash(es, x))
}

/// `x` comes from one of the commits of `s`.
pub open spec fn found_in<Fs: FileSystem>(fs: Fs, s: Set<Seq<char>>, x: Seq<char>) -> bool {
    exists|c: Seq<char>| #[trigger] s.contains(c) && from_commit(fs, c, x)
}

/// `v` holds what scanning from `from` finds, and nothing else: some set of
/// commits that lie behind `from`, holding `from`, is scanned into `v`, and
/// each hash of `v` comes from one of them.
pub open spec fn objs_reachable<Fs: FileSystem>(
    fs: Fs,
    from: Seq<char>,
    to: Option<Seq<char>>,
    v: Seq<Seq<char>>,
) -> bool {
    exists|s: Set<Seq<char>>|
        #![trigger s.contains(from)]
        s.contains(from) && (forall|c: Seq<char>| s.contains(c) ==> #[trigger] scanned(fs, s, v, to, c)) && (forall|c: Seq<char>|
            #[trigger] s.contains(c) ==> reachable(fs, from, c)) && forall|x: Seq<char>| v.contains(x) ==> #[trigger] found_in(fs, s, x)
}

/// Every commit that lies behind `from` is stored, with its tree, and each
/// hash in the tree names a file in the objects directory.
pub open spec fn history_readable<Fs: FileSystem>(fs: Fs, from: Seq<char>) -> bool {
    forall|c: Seq<char>|
        #[trigger] reachable(fs, from, c) ==> (stored_obj(fs, c) matches Some(ObjView::Commit(cv)) && stored_obj(fs, cv.tree)
            matches Some(ObjView::Tree(es)) && forall|i: int|
            0 <= i < es.len() ==> is_file(fs.fs_lookup(segs(obj_path(#[trigger] es[i].1)))))
}

/// What scanning a readable history finds are files in the objects directory.
pub proof fn lemma_found_is_file<Fs: FileSystem>(fs: Fs, from: Seq<char>, to: Option<Seq<char>>, v: Seq<Seq<char>>, x: Seq<char>)
    requires
        objs_reachable(fs, from, to, v),
        history_readable(fs, from),
        v.contains(x),
    ensures
        is_file(fs.fs_lookup(segs(obj_path(x)))),
{
    let s = choose|s: Set<Seq<char>>|
        #![trigger s.contains(from)]
        s.contains(from) && (forall|c: Seq<char>| s.contains(c) ==> #[trigger] scanned(fs, s, v, to, c)) && (forall|c: Seq<char>|
            #[trigger] s.contains(c) ==> reachable(fs, from, c)) && forall|x: Seq<char>| v.contains(x) ==> #[trigger] found_in(fs, s, x);
    assert(found_in(fs, s, x));
    let c = choose|c: Seq<char>| #[trigger] s.contains(c) && from_commit(fs, c, x);
    assert(reachable(fs, from, c));
    let cv = stored_obj(fs, c)->Some_0->Commit_0;
    if x != c && x != cv.tree {
        let es = stored_obj(fs, cv.tree)->Some_0->Tree_0;
        let i = choose|i: int| 0 <= i < es.len() && #[trigger] es[i].1 == x;
        assert(is_file(fs.fs_lookup(segs(obj_path(es[i].1)))));
    }
}

/// The local commits of branch `b` are recorded, at least one; the oldest
/// is a stored commit, and the history behind the newest is readable.
pub open spec fn local_history_readable<Fs: FileSystem>(fs: Fs, b: Seq<char>) -> bool {
    exists|hs: Seq<Seq<char>>|
        #[trigger] local_commits_decoded_at(fs, b, hs) && hs.len() > 0 && (stored_obj(fs, hs[0]) matches Some(
            ObjView::Commit(_),
        )) && history_readable(fs, hs.last())
}

/// Once the local commits file of `b` holds the empty list, the local
/// commits of `b` read back as none: reading owes success on exact storage
/// and gives an empty list.
pub proof fn lemma_reset_reads_empty<Fs: FileSystem>(fs: Fs, b: Seq<char>)
    requires
        fs.fs_lookup(segs(local_commits_path(b))) == Some(
            crate::file_system::FsNode::File(crate::object::local_commits::local_commits_encoded(Seq::empty())),
        ),
    ensures
        crate::io::atomic::local_commits::prior_local_commits(fs.fs_lookup(segs(local_commits_path(b)))) == Some(
            Seq::<Seq<char>>::empty(),
        ),
        local_commits_decoded_at(fs, b, Seq::empty()),
{
    let e = Seq::<Seq<char>>::empty();
    assert(crate::encode::utf8_fields(e) =~= Seq::<Seq<u8>>::empty());
    crate::object::local_commits::lemma_local_commits_roundtrip(e);
}

/// Reads and makes commit objects.
pub struct CommitObjIo;

impl CommitObjIo {
    pub fn new() -> (r: CommitObjIo) {
        CommitObjIo
    }

    /// The local commits of a branch, oldest first; none where none are recorded.
    pub fn read_local_commits<Fs: FileSystem>(&self, fs: &Fs, branch_name: &BranchName) -> (r: Result<Vec<CommitObj>>)
        requires
            fs.fs_inv(),
        ensures
            r matches Err(e) ==> is_data_error(e),
            r matches Ok(v) ==> match file_bytes(fs.fs_lookup(segs(local_commits_path(branch_name.0@)))) {
                Some(b) => local_commits_decoded(b) matches Some(hs) && v@.len() == hs.len() && forall|i: int|
                    0 <= i < hs.len() ==> stored_obj(*fs, #[trigger] hs[i]) == Some(ObjView::Commit(v@[i]@)),
                None => v@.len() == 0,
            },
            fs.fs_exact() && fs.fs_lookup(segs(local_commits_path(branch_name.0@))) is None ==> (r matches Ok(v)
                && v@.len() == 0),
            fs.fs_exact() && (crate::io::atomic::local_commits::prior_local_commits(
                fs.fs_lookup(segs(local_commits_path(branch_name.0@))),
            ) matches Some(hs) && forall|i: int| 0 <= i < hs.len() ==> #[trigger] stored_obj(*fs, hs[i]) matches Some(
                ObjView::Commit(_),
            )) ==> r is Ok,
    {
        let local = match LocalCommitsIo::new().read(fs, branch_name)? {
            Some(l) => l,
            None => return Ok(Vec::new()),
        };
        let obj = ObjIo::new();
        let mut commit_objs: Vec<CommitObj> = Vec::new();
        let mut i: usize = 0;
        let ghost owed = fs.fs_exact() && forall|j: int| 0 <= j < local@.len() ==> #[trigger] stored_obj(*fs, local@[j]) matches Some(
            ObjView::Commit(_),
        );
        while i < local.0.len()
            invariant
                fs.fs_inv(),
                i <= local@.len(),
                commit_objs@.len() == i,
                forall|j: int| 0 <= j < i ==> stored_obj(*fs, #[trigger] local@[j]) == Some(ObjView::Commit(commit_objs@[j]@)),
                file_bytes(fs.fs_lookup(segs(local_commits_path(branch_name.0@)))) matches Some(b)
                    && local_commits_decoded(b) == Some(local@),
                owed == (fs.fs_exact() && forall|j: int| 0 <= j < local@.len() ==> #[trigger] stored_obj(*fs, local@[j]) matches Some(
                    ObjView::Commit(_),
                )),
            decreases local@.len() - i,
        {
            proof {
                if owed {
                    assert(stored_obj(*fs, local@[i as int]) matches Some(ObjView::Commit(_)));
                }
            }
            let c = obj.read_to_commit(fs, &local.0[i])?;
            commit_objs.push(c);
            i = i + 1;
        }
        Ok(commit_objs)
    }

    /// The commit at the head of a branch.
    pub fn read_head<Fs: FileSystem>(&self, fs: &Fs, branch_name: &BranchName) -> (r: Result<CommitObj>)
        requires
            fs.fs_inv(),
        ensures
            r matches Err(e) ==> is_data_error(e),
            r matches Ok(c) ==> exists|h: CommitHash|
                #![trigger head_read_reports(*fs, head_path(branch_name.0@), Ok(Some(h)))]
                head_read_reports(*fs, head_path(branch_name.0@), Ok(Some(h))) && stored_obj(*fs, h.0.0@)
                    == Some(ObjView::Commit(c@)),
    {
        let hash = HeadIo::new().try_read(fs, branch_name)?;
        self.read(fs, &hash.0)
    }

    /// The commit object with a given hash.
    pub fn read<Fs: FileSystem>(&self, fs: &Fs, commit_hash: &ObjHash) -> (r: Result<CommitObj>)
        requires
            fs.fs_inv(),
        ensures
            r matches Err(e) ==> is_data_error(e),
            r matches Ok(c) ==> stored_obj(*fs, commit_hash.0@) == Some(ObjView::Commit(c@)),
            stored_obj(*fs, commit_hash.0@) is None ==> r is Err,
            fs.fs_exact() && (stored_obj(*fs, commit_hash.0@) matches Some(ObjView::Commit(_))) ==> r is Ok,
    {
        let commit = ObjIo::new().try_read_obj(fs, commit_hash)?;
        commit.commit()
    }

    /// The tree committed by a commit.
    pub fn read_commit_tree<Fs: FileSystem>(&self, fs: &Fs, commit_hash: &ObjHash) -> (r: Result<TreeObj>)
        requires
            fs.fs_inv(),
        ensures
            r matches Err(e) ==> is_data_error(e),
            r matches Ok(t) ==> t.wf() && (stored_obj(*fs, commit_hash.0@) matches Some(ObjView::Commit(c))
                && stored_obj(*fs, c.tree) == Some(ObjView::Tree(t@))),
    {
        let commit = self.read(fs, commit_hash)?;
        ObjIo::new().read_to_tree(fs, &commit.committed_objs_tree)
    }

    /// A new commit of `staging_hash` whose parent is the head of the branch,
    /// where it has one.
    pub fn create<Fs: FileSystem>(&self, fs: &Fs, commit_text: CommitText, staging_hash: ObjHash, branch_name: &BranchName) -> (r: Result<CommitObj>)
        requires
            fs.fs_inv(),
        ensures
            r matches Err(e) ==> is_data_error(e),
            r matches Ok(c) ==> c@.text == commit_text.0@ && c@.tree == staging_hash.0@ && (if c@.parents.len() == 0 {
                fs.fs_lookup(segs(head_path(branch_name.0@))) is None
            } else {
                c@.parents.len() == 1 && head_read_reports(*fs, head_path(branch_name.0@), Ok(Some(c.parents@[0])))
            }),
            fs.fs_exact() && (fs.fs_lookup(segs(head_path(branch_name.0@))) is None || crate::io::atomic::head::head_of(*fs, branch_name.0@) is Some)
                ==> r is Ok,
    {
        let head_commit = HeadIo::new().read(fs, branch_name)?;
        let mut parents: Vec<CommitHash> = Vec::new();
        match head_commit {
            Some(h) => parents.push(h),
            None => {},
        }
        Ok(CommitObj { parents, text: commit_text, committed_objs_tree: staging_hash })
    }

    /// Empties the local commits of a branch.
    pub fn reset_local_commits<Fs: FileSystem>(&self, fs: &mut Fs, branch_name: &BranchName) -> (r: Result<()>)
        requires
            old(fs).fs_inv(),
        ensures
            r matches Err(e) ==> is_data_error(e),
            final(fs).fs_inv(),
            r is Ok ==> forall|q: Seq<Seq<char>>|
                #[trigger] final(fs).fs_lookup(q) == crate::file_system::after_write(
                    old(fs).fs_lookup(q),
                    q,
                    segs(local_commits_path(branch_name.0@)),
                    local_commits_encoded(Seq::empty()),
                ),
            old(fs).fs_exact() ==> final(fs).fs_exact(),
            old(fs).fs_exact() && crate::file_system::write_allowed(
                crate::file_system::files_of(*old(fs)),
                segs(local_commits_path(branch_name.0@)),
            ) ==> r is Ok,
    {
        let empty = LocalCommitsObj::new();
        assert(empty@ =~= Seq::<Seq<char>>::empty());
        LocalCommitsIo::new().write(fs, &empty, branch_name)
    }

    /// The compressed objects that the local commits of a branch need: what
    /// scanning from the newest local commit finds, stopping at the parent of
    /// the oldest.
    pub fn read_objs_associated_with_local_commits<Fs: FileSystem>(&self, fs: &Fs, branch_name: &BranchName) -> (r: Result<Vec<BundleObject>>)
        requires
            fs.fs_inv(),
        ensures
            r matches Err(e) ==> is_data_error(e),
            r matches Ok(v) ==> forall|i: int| 0 <= i < v@.len() ==> file_bytes(
                fs.fs_lookup(segs(obj_path(#[trigger] v@[i].hash.0@))),
            ) == Some(v@[i].compressed_buf.0@),
            r matches Ok(v) ==> exists|hs: Seq<Seq<char>>|
                #[trigger] local_commits_decoded_at(*fs, branch_name.0@, hs) && hs.len() > 0 && objs_reachable(
                    *fs,
                    hs.last(),
                    first_parent(*fs, hs[0]),
                    bundle_hashes(v@),
                ),
            fs.fs_exact() && fs.fs_lookup(segs(local_commits_path(branch_name.0@))) is None ==> r == Err::<
                Vec<BundleObject>,
                Error,
            >(Error::NotfoundLocalCommits),
            fs.fs_exact() && local_history_readable(*fs, branch_name.0@) ==> r is Ok,
    {
        let ghost owed = fs.fs_exact() && local_history_readable(*fs, branch_name.0@);
        let local_commits = LocalCommitsIo::new().try_read(fs, branch_name)?;
        proof {
            if owed {
                let hs = choose|hs: Seq<Seq<char>>|
                    #[trigger] local_commits_decoded_at(*fs, branch_name.0@, hs) && hs.len() > 0 && (stored_obj(*fs, hs[0]) matches Some(
                        ObjView::Commit(_),
                    )) && history_readable(*fs, hs.last());
                assert(hs == local_commits@);
            }
        }
        if local_commits.0.len() == 0 {
            return Err(Error::NotfoundLocalCommits);
        }
        let from = local_commits.0[local_commits.0.len() - 1].copy();
        let parents = self.read(fs, &local_commits.0[0].0)?.parents;
        let to = if parents.len() > 0 {
            Some(parents[0].copy())
        } else {
            None
        };
        let obj_hashes = self.read_obj_hashes(fs, from, &to)?;
        proof {
            assert(local_commits_decoded_at(*fs, branch_name.0@, local_commits@));
            if owed {
                assert(opt_commit_view(to) == match to {
                    Some(t) => Some(t.0.0@),
                    None => None::<Seq<char>>,
                });
            }
        }
        let obj = ObjIo::new();
        let mut obj_bufs: Vec<BundleObject> = Vec::new();
        let mut i: usize = 0;
        while i < obj_hashes.len()
            invariant
                fs.fs_inv(),
                i <= obj_hashes@.len(),
                obj_bufs@.len() == i,
                forall|j: int| 0 <= j < i ==> #[trigger] obj_bufs@[j].hash.0@ == obj_hashes@[j].0@,
                forall|j: int| 0 <= j < i ==> file_bytes(
                    fs.fs_lookup(segs(obj_path(#[trigger] obj_bufs@[j].hash.0@))),
                ) == Some(obj_bufs@[j].compressed_buf.0@),
                owed ==> fs.fs_exact() && history_readable(*fs, local_commits@.last()) && objs_reachable(
                    *fs,
                    local_commits@.last(),
                    opt_commit_view(to),
                    obj_hashes_view(obj_hashes@),
                ),
                owed == (fs.fs_exact() && local_history_readable(*fs, branch_name.0@)),
                local_commits_decoded_at(*fs, branch_name.0@, local_commits@),
            decreases obj_hashes@.len() - i,
        {
            proof {
                if owed {
                    assert(obj_hashes_view(obj_hashes@)[i as int] == obj_hashes@[i as int].0@);
                    lemma_found_is_file(
                        *fs,
                        local_commits@.last(),
                        opt_commit_view(to),
                        obj_hashes_view(obj_hashes@),
                        obj_hashes@[i as int].0@,
                    );
                }
            }
            let hash = obj_hashes[i].copy();
            let compressed_buf = match obj.read(fs, &hash)? {
                Some(z) => z,
                None => return Err(Error::NotfoundObj(hash)),
            };
            obj_bufs.push(BundleObject { hash, compressed_buf });
            i = i + 1;
        }
        proof {
            assert(bundle_hashes(obj_bufs@) =~= obj_hashes_view(obj_hashes@));
            assert(local_commits_decoded_at(*fs, branch_name.0@, local_commits@));
            assert(first_parent(*fs, local_commits@[0]) == opt_commit_view(to));
        }
        Ok(obj_bufs)
    }

    /// Every hash that scanning from the commit `from` finds: each scanned
    /// commit, its tree and the hashes in the tree; the parents of a scanned
    /// commit are scanned too, unless `to` is one of them. Each hash is given once.
    #[verifier::rlimit(60)]
    #[verifier::spinoff_prover]
    pub fn read_obj_hashes<Fs: FileSystem>(&self, fs: &Fs, from: CommitHash, to: &Option<CommitHash>) -> (r: Result<Vec<ObjHash>>)
        requires
            fs.fs_inv(),
        ensures
            r matches Err(e) ==> is_data_error(e),
            r matches Ok(v) ==> obj_hashes_view(v@).no_duplicates() && objs_reachable(
                *fs,
                from.0.0@,
                match to {
                    Some(t) => Some(t.0.0@),
                    None => None,
                },
                obj_hashes_view(v@),
            ),
            fs.fs_exact() && history_readable(*fs, from.0.0@) ==> r is Ok,
            fs.fs_exact() && fs.fs_lookup(segs(obj_path(from.0.0@))) is None ==> (r matches Err(Error::NotfoundObj(h))
                && h.0@ == from.0.0@),
    {
        let ghost owed = fs.fs_exact() && history_readable(*fs, from.0.0@);
        let ghost to_v = match to {
            Some(t) => Some(t.0.0@),
            None => None::<Seq<char>>,
        };
        let ghost from_v = from.0.0@;
        let obj = ObjIo::new();
        let mut out: Vec<ObjHash> = Vec::new();
        let mut done: Vec<CommitHash> = Vec::new();
        let mut queue: Vec<CommitHash> = Vec::new();
        queue.push(from);
        proof {
            assert(parent_path(*fs, seq![from_v]));
            assert(reachable(*fs, from_v, queue@[0].0.0@));
        }
        let mut qi: usize = 0;
        let mut steps: usize = 0;
        while qi < queue.len()
            invariant
                fs.fs_inv(),
                qi <= queue@.len(),
                queue@.len() > 0,
                queue@[0].0.0@ == from_v,
                forall|i: int| 0 <= i < queue@.len() ==> reachable(*fs, from_v, #[trigger] queue@[i].0.0@),
                forall|c: Seq<char>| #[trigger] hashes_view(done@).contains(c) ==> reachable(*fs, from_v, c),
                forall|x: Seq<char>| obj_hashes_view(out@).contains(x) ==> #[trigger] found_in(*fs, hashes_view(done@).to_set(), x),
                to_v == match to {
                    Some(t) => Some(t.0.0@),
                    None => None::<Seq<char>>,
                },
                obj_hashes_view(out@).no_duplicates(),
                qi > 0 ==> hashes_view(done@).contains(from_v),
                forall|c: Seq<char>|
                    hashes_view(done@).contains(c) ==> #[trigger] scanned(
                        *fs,
                        hashes_view(done@).to_set() + hashes_view(
                            queue@,
                        ).skip(qi as int).to_set(),
                        obj_hashes_view(out@),
                        to_v,
                        c,
                    ),
                owed == (fs.fs_exact() && history_readable(*fs, from_v)),
                from_v == from.0.0@,
                steps == qi,
                done@.len() <= qi,
            decreases usize::MAX - steps, queue@.len() - qi,
        {
            steps = steps + 1;
            let h = queue[qi].copy();
            let ghost hv = h.0.0@;
            assert(reachable(*fs, from_v, queue@[qi as int].0.0@));
            let ghost s_old = hashes_view(done@).to_set() + hashes_view(queue@).skip(qi as int).to_set();
            let ghost v_old = obj_hashes_view(out@);
            let ghost done_old = hashes_view(done@);
            assert(hashes_view(queue@).skip(qi as int)[0] == hv);
            qi = qi + 1;
            let ghost tail_rest = hashes_view(queue@).skip(qi as int);
            assert(hashes_view(queue@).skip(qi - 1) =~= seq![hv] + tail_rest);
            if commit_hashes_contain(&done, &h) {
                proof {
                    let s_new = hashes_view(done@).to_set() + tail_rest.to_set();
                    let tail_old = seq![hv] + tail_rest;
                    assert forall|x: Seq<char>| s_old.contains(x) implies s_new.contains(x) by {
                        if !done_old.contains(x) {
                            assert(tail_old.contains(x));
                            let m = choose|m: int| 0 <= m < tail_old.len() && #[trigger] tail_old[m] == x;
                            if m > 0 {
                                assert(tail_rest[m - 1] == x);
                            }
                        }
                    }
                    assert forall|x: Seq<char>| s_new.contains(x) implies s_old.contains(x) by {
                        if !done_old.contains(x) {
                            assert(tail_rest.contains(x));
                            let m = choose|m: int| 0 <= m < tail_rest.len() && #[trigger] tail_rest[m] == x;
                            assert(tail_old[m + 1] == x);
                        }
                    }
                    assert(s_old =~= s_new);
                }
                continue;
            }
            proof {
                if owed {
                    assert(reachable(*fs, from_v, hv));
                    assert(history_readable(*fs, from_v));
                    assert(stored_obj(*fs, hv) matches Some(ObjView::Commit(_)));
                }
            }
            proof {
                if fs.fs_exact() && fs.fs_lookup(segs(obj_path(from_v))) is None {
                    if qi - 1 > 0 {
                        assert(done_old.contains(from_v));
                        assert(scanned(*fs, s_old, v_old, to_v, from_v));
                        assert(false);
                    } else {
                        assert(hv == from_v);
                    }
                }
            }
            let commit = obj.read_to_commit(fs, &h)?;
            proof {
                if owed {
                    assert(stored_obj(*fs, commit@.tree) matches Some(ObjView::Tree(_)));
                }
                assert(stored_obj(*fs, hv) is Some);
                assert(!(fs.fs_exact() && fs.fs_lookup(segs(obj_path(from_v))) is None));
            }
            let tree = obj.read_to_tree(fs, &commit.committed_objs_tree)?;
            let ghost done_set = done_old.to_set();
            proof {
                assert(from_commit(*fs, hv, commit.committed_objs_tree.0@));
            }
            add_unique(&mut out, commit.committed_objs_tree.copy());
            let mut e: usize = 0;
            while e < tree.0.len()
                invariant
                    e <= tree@.len(),
                    obj_hashes_view(out@).no_duplicates(),
                    forall|x: Seq<char>| v_old.contains(x) ==> obj_hashes_view(out@).contains(x),
                    obj_hashes_view(out@).contains(commit.committed_objs_tree.0@),
                    forall|j: int| 0 <= j < e ==> obj_hashes_view(out@).contains(#[trigger] tree@[j].1),
                    stored_obj(*fs, hv) == Some(ObjView::Commit(commit@)),
                    stored_obj(*fs, commit@.tree) == Some(ObjView::Tree(tree@)),
                    forall|x: Seq<char>|
                        obj_hashes_view(out@).contains(x) ==> #[trigger] found_in(*fs, done_set, x) || from_commit(*fs, hv, x),
                decreases tree@.len() - e,
            {
                proof {
                    assert(e < tree@.len());
                    let cv = stored_obj(*fs, hv)->0->Commit_0;
                    assert(cv == commit@);
                    assert(stored_obj(*fs, cv.tree) == Some(ObjView::Tree(tree@)));
                    assert(holds_hash(tree@, tree@[e as int].1));
                    assert(from_commit(*fs, hv, tree@[e as int].1));
                }
                add_unique(&mut out, tree.0[e].1.copy());
                e = e + 1;
            }
            proof {
                assert(from_commit(*fs, hv, hv));
            }
            add_unique(&mut out, h.0.copy());
            let stop = match to {
                Some(t) => commit_hashes_contain(&commit.parents, t),
                None => false,
            };
            let ghost queue_before = queue@;
            let ghost ph = choose|path: Seq<Seq<char>>| #[trigger] parent_path(*fs, path) && path[0] == from_v && path.last() == hv;
            if !stop {
                let mut p: usize = 0;
                while p < commit.parents.len()
                    invariant
                        p <= commit.parents@.len(),
                        parent_path(*fs, ph),
                        ph[0] == from_v,
                        ph.last() == hv,
                        commit_parents(*fs, hv) == Some(commit@.parents),
                        forall|i: int| 0 <= i < queue@.len() ==> reachable(*fs, from_v, #[trigger] queue@[i].0.0@),
                        queue@.len() == queue_before.len() + p,
                        queue@.take(queue_before.len() as int) == queue_before,
                        forall|j: int| 0 <= j < p ==> #[trigger] queue@[queue_before.len() + j].0.0@ == commit.parents@[j].0.0@,
                    decreases commit.parents@.len() - p,
                {
                    let ghost x = commit.parents@[p as int].0.0@;
                    proof {
                        let np = ph.push(x);
                        assert(commit@.parents[p as int] == x);
                        assert forall|i: int| 0 <= i < np.len() - 1 implies (#[trigger] commit_parents(*fs, np[i]) matches Some(ps)
                            && ps.contains(np[i + 1])) by {
                            if i < ph.len() - 1 {
                                assert(np[i] == ph[i] && np[i + 1] == ph[i + 1]);
                            } else {
                                assert(np[i] == hv);
                                assert(np[i + 1] == x);
                                assert(commit@.parents.contains(x));
                            }
                        }
                        assert(parent_path(*fs, np));
                        assert(np[0] == from_v && np.last() == x);
                    }
                    let ghost q_before = queue@;
                    queue.push(commit.parents[p].copy());
                    proof {
                        assert forall|i: int| 0 <= i < queue@.len() implies reachable(*fs, from_v, #[trigger] queue@[i].0.0@) by {
                            if i < q_before.len() {
                                assert(queue@[i] == q_before[i]);
                            } else {
                                assert(parent_path(*fs, ph.push(x)));
                            }
                        }
                    }
                    p = p + 1;
                }
            }
            done.push(h);
            proof {
                let dn = hashes_view(done@);
                assert(dn =~= done_old.push(hv));
                assert(dn.to_set() =~= done_set.insert(hv)) by {
                    assert forall|c: Seq<char>| dn.to_set().contains(c) == done_set.insert(hv).contains(c) by {
                        if dn.contains(c) {
                            let m = choose|m: int| 0 <= m < dn.len() && dn[m] == c;
                            if m < done_old.len() {
                                assert(done_old[m] == c);
                            }
                        }
                        if done_old.contains(c) {
                            let m = choose|m: int| 0 <= m < done_old.len() && done_old[m] == c;
                            assert(dn[m] == c);
                        }
                        if c == hv {
                            assert(dn[done_old.len() as int] == hv);
                        }
                    }
                }
                assert forall|c: Seq<char>| #[trigger] dn.contains(c) implies reachable(*fs, from_v, c) by {
                    let m = choose|m: int| 0 <= m < dn.len() && dn[m] == c;
                    if m < done_old.len() {
                        assert(done_old[m] == c);
                        assert(done_old.contains(c));
                    }
                }
                assert forall|x: Seq<char>| obj_hashes_view(out@).contains(x) implies #[trigger] found_in(*fs, dn.to_set(), x) by {
                    if found_in(*fs, done_set, x) {
                        let c = choose|c: Seq<char>| #[trigger] done_set.contains(c) && from_commit(*fs, c, x);
                        assert(dn.to_set().contains(c));
                    } else {
                        assert(from_commit(*fs, hv, x));
                        assert(dn.to_set().contains(hv));
                    }
                }
                let v_new = obj_hashes_view(out@);
                let tail_new = hashes_view(queue@).skip(qi as int);
                let s_new = hashes_view(done@).to_set() + tail_new.to_set();
                assert(hashes_view(done@) =~= done_old.push(hv));
                assert forall|m: int| 0 <= m < tail_rest.len() implies tail_new[m] == tail_rest[m] by {
                    assert(queue@[qi + m] == queue_before[qi + m]);
                }
                assert forall|x: Seq<char>| s_old.contains(x) implies s_new.contains(x) by {
                    if x == hv {
                        assert(hashes_view(done@)[done_old.len() as int] == hv);
                    } else if done_old.contains(x) {
                        let m = choose|m: int| 0 <= m < done_old.len() && done_old[m] == x;
                        assert(hashes_view(done@)[m] == x);
                    } else {
                        let tq = hashes_view(queue_before).skip(qi - 1);
                        assert(tq.contains(x));
                        let m = choose|m: int| 0 <= m < tq.len() && #[trigger] tq[m] == x;
                        assert(m > 0);
                        assert(tail_new[m - 1] == x);
                    }
                }
                assert forall|c: Seq<char>| hashes_view(done@).contains(c) implies #[trigger] scanned(*fs, s_new, v_new, to_v, c) by {
                    if c == hv {
                        let cv = stored_obj(*fs, hv)->0->Commit_0;
                        assert(cv == commit@);
                        if !(to_v matches Some(t) && cv.parents.contains(t)) {
                            assert(!stop);
                            assert forall|j: int| 0 <= j < cv.parents.len() implies s_new.contains(#[trigger] cv.parents[j]) by {
                                assert(queue@[queue_before.len() + j].0.0@ == commit.parents@[j].0.0@);
                                assert(tail_new[queue_before.len() - qi + j] == cv.parents[j]);
                            }
                        }
                    } else {
                        let m = choose|m: int| 0 <= m < hashes_view(done@).len() && hashes_view(done@)[m] == c;
                        assert(done_old[m] == c);
                        assert(done_old.contains(c));
                        assert(scanned(*fs, s_old, v_old, to_v, c));
                        lemma_scanned_mono(*fs, s_old, s_new, v_old, v_new, to_v, c);
                    }
                }
                assert(hashes_view(done@).contains(from_v)) by {
                    if done_old.contains(from_v) {
                        let m = choose|m: int| 0 <= m < done_old.len() && done_old[m] == from_v;
                        assert(hashes_view(done@)[m] == from_v);
                    } else {
                        assert(qi - 1 == 0);
                        assert(hashes_view(done@)[done_old.len() as int] == hv);
                    }
                }
            }
        }
        proof {
            let s = hashes_view(done@).to_set();
            assert(hashes_view(queue@).skip(qi as int).to_set() =~= Set::empty());
            assert(s + Set::empty() =~= s);
            assert(s.contains(from_v));
            assert(hashes_view(done@).contains(from_v));
            assert(scanned(
                *fs,
                hashes_view(done@).to_set() + hashes_view(queue@).skip(qi as int).to_set(),
                obj_hashes_view(out@),
                to_v,
                from_v,
            ));
            assert(stored_obj(*fs, from_v) is Some);
        }
        Ok(out)
    }
}

/// Scanning stays valid as the scanned set and the found hashes grow.
pub proof fn lemma_scanned_mono<Fs: FileSystem>(
    fs: Fs,
    s: Set<Seq<char>>,
    s2: Set<Seq<char>>,
    v: Seq<Seq<char>>,
    v2: Seq<Seq<char>>,
    to: Option<Seq<char>>,
    c: Seq<char>,
)
    requires
        scanned(fs, s, v, to, c),
        forall|x: Seq<char>| s.contains(x) ==> s2.contains(x),
        forall|x: Seq<char>| v.contains(x) ==> v2.contains(x),
    ensures
        scanned(fs, s2, v2, to, c),
{
    let cv = stored_obj(fs, c)->0->Commit_0;
    let es = stored_obj(fs, cv.tree)->0->Tree_0;
    assert forall|i: int| 0 <= i < es.len() implies v2.contains(#[trigger] es[i].1) by {
        assert(v.contains(es[i].1));
    }
    if !(to matches Some(t) && cv.parents.contains(t)) {
        assert forall|j: int| 0 <= j < cv.parents.len() implies s2.contains(#[trigger] cv.parents[j]) by {
            assert(s.contains(cv.parents[j]));
        }
    }
}

/// Whether a list of commit hashes holds `h`.
fn commit_hashes_contain(v: &Vec<CommitHash>, h: &CommitHash) -> (r: bool)
    ensures
        r == hashes_view(v@).contains(h.0.0@),
{
    let mut i: usize = 0;
    while i < v.len()
        invariant
            i <= v@.len(),
            forall|j: int| 0 <= j < i ==> v@[j].0.0@ != h.0.0@,
        decreases v@.len() - i,
    {
        if v[i].same(h) {
            assert(hashes_view(v@)[i as int] == h.0.0@);
            return true;
        }
        i = i + 1;
    }
    proof {
        if hashes_view(v@).contains(h.0.0@) {
            let j = choose|j: int| 0 <= j < hashes_view(v@).len() && hashes_view(v@)[j] == h.0.0@;
            assert(v@[j].0.0@ == h.0.0@);
        }
    }
    false
}

/// Adds a hash to a list of distinct hashes, where it is not there yet.
fn add_unique(out: &mut Vec<ObjHash>, h: ObjHash)
    requires
        obj_hashes_view(old(out)@).no_duplicates(),
    ensures
        obj_hashes_view(final(out)@).no_duplicates(),
        obj_hashes_view(final(out)@).contains(h.0@),
        forall|x: Seq<char>| obj_hashes_view(old(out)@).contains(x) ==> obj_hashes_view(final(out)@).contains(x),
        forall|x: Seq<char>| obj_hashes_view(final(out)@).contains(x) ==> obj_hashes_view(old(out)@).contains(x) || x == h.0@,
{
    let mut i: usize = 0;
    while i < out.len()
        invariant
            i <= out@.len(),
            obj_hashes_view(out@).no_duplicates(),
            out@ == old(out)@,
            forall|j: int| 0 <= j < i ==> out@[j].0@ != h.0@,
        decreases out@.len() - i,
    {
        if out[i].same(&h) {
            assert(obj_hashes_view(out@)[i as int] == h.0@);
            return;
        }
        i = i + 1;
    }
    let ghost before = obj_hashes_view(out@);
    let ghost hv = h.0@;
    out.push(h);
    proof {
        let after = obj_hashes_view(out@);
        assert(after =~= before.push(hv));
        assert(!before.contains(hv)) by {
            if before.contains(hv) {
                let j = choose|j: int| 0 <= j < before.len() && before[j] == hv;
                assert(out@[j].0@ == hv);
            }
        }
        assert(after[before.len() as int] == hv);
        assert forall|x: Seq<char>| before.contains(x) implies after.contains(x) by {
            let j = choose|j: int| 0 <= j < before.len() && before[j] == x;
            assert(after[j] == x);
        }
        assert forall|x: Seq<char>| after.contains(x) implies before.contains(x) || x == hv by {
            let j = choose|j: int| 0 <= j < after.len() && after[j] == x;
            if j < before.len() {
                assert(before[j] == x);
            }
        }
    }
}

/// The first parent of the commit stored under `h`, where it has one.
pub open spec fn first_parent<Fs: FileSystem>(fs: Fs, h: Seq<char>) -> Option<Seq<char>> {
    match crate::io::commit_hashes::commit_parents(fs, h) {
        Some(ps) => if ps.len() > 0 {
            Some(ps[0])
        } else {
            None
        },
        None => None,
    }
}

/// The view of an optional commit hash.
pub open spec fn opt_commit_view(o: Option<CommitHash>) -> Option<Seq<char>> {
    match o {
        Some(t) => Some(t.0.0@),
        None => None,
    }
}

/// The local commits of the branch are recorded as `hs`.
pub open spec fn local_commits_decoded_at<Fs: FileSystem>(fs: Fs, b: Seq<char>, hs: Seq<Seq<char>>) -> bool {
    file_bytes(fs.fs_lookup(segs(local_commits_path(b)))) matches Some(bytes) && local_commits_decoded(bytes) == Some(hs)
}

pub open spec fn bundle_hashes(v: Seq<BundleObject>) -> Seq<Seq<char>> {
    v.map_values(|o: BundleObject| o.hash.0@)
}

} // verus!
