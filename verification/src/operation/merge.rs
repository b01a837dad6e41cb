//! Merging a branch into another.

use vstd::prelude::*;

use crate::assoc::{seq_has, seq_lookup};
use crate::branch::BranchName;
use crate::error::{Error, Result, is_data_error};
use crate::file_system::{FilePath, FileSystem, after_write, files_of, write_allowed};
use vstd::utf8::encode_utf8;
use crate::io::atomic::head::{
    HeadIo, head_of, head_path, head_written, lemma_head_read_after_write, remote_head_path,
};
use crate::io::atomic::trace::trace_tree_of;
use crate::io::layout::{fam_heads, lemma_head_path};
use crate::io::atomic::object::stored_obj;
use crate::io::atomic::staging::{StagingIo, staging_path};
use crate::io::commit_hashes::{
    CommitHashIo, commit_parents, hashes_view, history_closed, history_stored, lemma_closed_holds_reachable, reachable,
};
use crate::io::commit_obj::CommitObjIo;
use crate::io::{concat, text_at};
use crate::object::commit::CommitHash;
use crate::object::tree::{TreeObj, tree_encoded};
use crate::object::{ObjHash, ObjView};
use crate::operation::commit::{Commit, committed};
use crate::operation::unzip::{UnZip, lemma_unzip_owed_after_head, unzip_tree_ok, unzipped};
use crate::path::segs;

verus! {
/// How a merge ended.
#[derive(Debug, Clone, PartialEq, Eq)]
pub enum MergedStatus {
    /// The destination was behind the source: it now points at the source.
    FastSource,
    /// The source was already part of the destination: nothing changed.
    FastDist,
    /// A merge commit was made on the destination.
    Merged,
    Conflicted(Vec<Conflict>),
}

/// A file changed on both sides.
#[derive(Debug, Clone, PartialEq, Eq)]
pub struct Conflict {
    pub file_path: FilePath,
    pub source: ObjHash,
    pub dist: ObjHash,
}

enum InspectStatus {
    CanMerge(TreeObj),
    Conflict(Vec<Conflict>),
}

/// The entries of the tree that the commit `h` records.
pub open spec fn commit_tree_of<Fs: FileSystem>(fs: Fs, h: Seq<char>) -> Option<Seq<(Seq<char>, Seq<char>)>> {
    match stored_obj(fs, h) {
        Some(ObjView::Commit(c)) => match stored_obj(fs, c.tree) {
            Some(ObjView::Tree(es)) => Some(es),
            _ => None,
        },
        _ => None,
    }
}

/// What the trees of the commits `hs` record for `q`, each laid over the
/// ones before it.
pub open spec fn layered<Fs: FileSystem>(fs: Fs, hs: Seq<Seq<char>>, q: Seq<char>) -> Option<Seq<char>>
    decreases hs.len(),
{
    if hs.len() == 0 {
        None
    } else {
        match commit_tree_of(fs, hs.last()) {
            Some(es) => match seq_lookup(es, q) {
                Some(x) => Some(x),
                None => layered(fs, hs.drop_last(), q),
            },
            None => layered(fs, hs.drop_last(), q),
        }
    }
}

/// `k` is where `o` first stands in `v`, or the length of `v` where it does not.
pub open spec fn first_stop(v: Seq<Seq<char>>, o: Seq<char>, k: int) -> bool {
    &&& 0 <= k <= v.len()
    &&& forall|j: int| 0 <= j < k ==> #[trigger] v[j] != o
    &&& k < v.len() ==> v[k] == o
}

/// `o` is the first commit of `sv` that `dv` holds.
pub open spec fn origin_of(sv: Seq<Seq<char>>, dv: Seq<Seq<char>>, o: Seq<char>) -> bool {
    exists|i: int|
        0 <= i < sv.len() && #[trigger] sv[i] == o && dv.contains(o) && forall|j: int| 0 <= j < i ==> !dv.contains(#[trigger] sv[j])
}

/// `v` lists, each once and `from` first, the commits that lie behind `from`,
/// each after a commit that it is a parent of.
pub open spec fn is_history<Fs: FileSystem>(fs: Fs, from: Seq<char>, v: Seq<Seq<char>>) -> bool {
    &&& v.no_duplicates()
    &&& v.len() > 0
    &&& v[0] == from
    &&& history_closed(fs, v, None)
    &&& forall|i: int| 0 <= i < v.len() ==> reachable(fs, from, #[trigger] v[i])
    &&& crate::io::commit_hashes::parents_first(fs, v)
}

/// The tree a merge stages: what the destination's commits since the
/// merge origin `o` record, laid over each other, without the paths that the
/// source's commits since `o` record.
pub open spec fn merge_tree<Fs: FileSystem>(
    fs: Fs,
    sv: Seq<Seq<char>>,
    dv: Seq<Seq<char>>,
    t: Seq<(Seq<char>, Seq<char>)>,
) -> bool {
    exists|o: Seq<char>, ks: int, kd: int|
        #![trigger first_stop(sv, o, ks), first_stop(dv, o, kd)]
        origin_of(sv, dv, o) && first_stop(sv, o, ks) && first_stop(dv, o, kd) && forall|q: Seq<char>|
            #[trigger] seq_lookup(t, q) == if layered(fs, sv.take(ks), q) is Some {
                None
            } else {
                layered(fs, dv.take(kd), q)
            }
}

/// A merge that made a commit took `before` through `m1`, `m2` and `m3` to
/// `after`: the head of `dist` was set to `source`, the merge tree `t` of the
/// histories `sv` and `dv` was staged, it was committed as `h`, and the
/// workspace was restored from it.
pub open spec fn merged_as<Fs: FileSystem>(
    before: Fs,
    m1: Fs,
    m2: Fs,
    m3: Fs,
    after: Fs,
    source: Seq<char>,
    d: Seq<char>,
    dist: Seq<char>,
    sv: Seq<Seq<char>>,
    dv: Seq<Seq<char>>,
    t: Seq<(Seq<char>, Seq<char>)>,
    h: Seq<char>,
    es: Seq<(Seq<char>, Seq<char>)>,
    objs: Seq<ObjView>,
) -> bool {
    &&& is_history(before, source, sv)
    &&& is_history(before, d, dv)
    &&& merge_tree(before, sv, dv, t)
    &&& head_written(before, m1, head_path(dist), source)
    &&& forall|q: Seq<Seq<char>>|
        #[trigger] m2.fs_lookup(q) == after_write(m1.fs_lookup(q), q, segs(staging_path()), tree_encoded(t))
    &&& committed(m2, m3, dist, "merged "@ + source + " to "@ + dist, h)
    &&& unzipped(m3, after, dist, es, objs)
}

/// What merging the commit `source` into the branch `dist` did, as `r` tells.
pub open spec fn merge_result<Fs: FileSystem>(
    before: Fs,
    after: Fs,
    source: Seq<char>,
    dist: Seq<char>,
    r: Result<MergedStatus>,
) -> bool {
    &&& r is Ok ==> head_of(before, dist) is Some
    &&& r matches Ok(MergedStatus::FastSource) ==> (head_of(before, dist) matches Some(d) && reachable(before, source, d)
        && exists|mid: Fs, es: Seq<(Seq<char>, Seq<char>)>, objs: Seq<ObjView>|
        #![trigger head_written(before, mid, head_path(dist), source), unzipped(mid, after, dist, es, objs)]
        head_written(before, mid, head_path(dist), source) && unzipped(mid, after, dist, es, objs))
    &&& r matches Ok(MergedStatus::FastDist) ==> (head_of(before, dist) matches Some(d) && !reachable(before, source, d)
        && reachable(before, d, source) && after == before)
    &&& r matches Ok(MergedStatus::Merged) ==> (head_of(before, dist) matches Some(d) && !reachable(before, source, d)
        && !reachable(before, d, source) && exists|
        m1: Fs,
        m2: Fs,
        m3: Fs,
        sv: Seq<Seq<char>>,
        dv: Seq<Seq<char>>,
        t: Seq<(Seq<char>, Seq<char>)>,
        h: Seq<char>,
        es: Seq<(Seq<char>, Seq<char>)>,
        objs: Seq<ObjView>,
    | #[trigger] merged_as(before, m1, m2, m3, after, source, d, dist, sv, dv, t, h, es, objs))
    &&& !(r matches Ok(MergedStatus::Conflicted(_)))
    &&& r matches Err(e) ==> is_data_error(e) || (e is UnrelatedHistories && (head_of(before, dist) matches Some(d)
        && unrelated(before, source, d)))
}

/// The reads of a merge of `source` into branch `dist` are owed success:
/// the storage answers exactly, `dist` has a head, and the histories of
/// both heads are stored.
pub open spec fn merge_reads_owed<Fs: FileSystem>(fs: Fs, source: Seq<char>, dist: Seq<char>) -> bool {
    &&& fs.fs_exact()
    &&& head_of(fs, dist) matches Some(d) && history_stored(fs, d)
    &&& history_stored(fs, source)
}

/// A fast-forward of branch `dist` to `source` is owed success: the reads
/// are, no file stands where the head of `dist` belongs, and the trace tree
/// of `source` can be restored.
pub open spec fn fast_source_owed<Fs: FileSystem>(fs: Fs, source: Seq<char>, dist: Seq<char>) -> bool {
    &&& merge_reads_owed(fs, source, dist)
    &&& write_allowed(files_of(fs), segs(head_path(dist)))
    &&& trace_tree_of(fs, source) matches Some(es) && unzip_tree_ok(fs, es)
}

/// No commit lies behind both `a` and `b`.
pub open spec fn unrelated<Fs: FileSystem>(fs: Fs, a: Seq<char>, b: Seq<char>) -> bool {
    forall|x: Seq<char>| #[trigger] reachable(fs, a, x) ==> !reachable(fs, b, x)
}

/// The head that a merge takes from branch `b`: its local head, or its
/// remote one where it has no local one.
pub open spec fn source_head<Fs: FileSystem>(fs: Fs, b: Seq<char>) -> Option<Seq<char>> {
    if fs.fs_lookup(segs(head_path(b))) is Some {
        head_of(fs, b)
    } else {
        text_at(fs.fs_lookup(segs(remote_head_path(b))))
    }
}

/// In a history where no commit has more than one parent, each commit is
/// listed directly before its parent: the history is the chain from `from`
/// back, newest first.
pub proof fn lemma_linear_history_order<Fs: FileSystem>(fs: Fs, from: Seq<char>, v: Seq<Seq<char>>, i: int)
    requires
        is_history(fs, from, v),
        forall|j: int| 0 <= j < v.len() ==> (#[trigger] commit_parents(fs, v[j]) matches Some(ps) && ps.len() <= 1),
        0 <= i < v.len() - 1,
    ensures
        commit_parents(fs, v[i]) == Some(seq![v[i + 1]]),
    decreases i,
{
    reveal(crate::io::commit_hashes::parents_listed_by);
    let w = choose|w: Seq<(int, int)>| #[trigger] crate::io::commit_hashes::parents_listed_by(fs, v, w);
    let j = w[i + 1].0;
    assert(0 <= j < i + 1 && crate::io::commit_hashes::nth_parent(fs, v[j], w[i + 1].1, v[i + 1]));
    let ps = commit_parents(fs, v[j])->Some_0;
    assert(ps.len() <= 1);
    assert(ps[0] == v[i + 1]);
    if j < i {
        lemma_linear_history_order(fs, from, v, j);
        assert(commit_parents(fs, v[j]) == Some(seq![v[j + 1]]));
        assert(v[j + 1] == v[i + 1]);
        assert(false);
    }
    assert(ps =~= seq![v[i + 1]]);
}

/// A history is listed breadth first: of two commits after the first, the
/// earlier one is the parent at place `pi` of a commit `v[ji]` and the later
/// one the parent at place `pk` of a commit `v[jk]`, where `v[ji]` comes
/// before `v[jk]`, or is the same commit and `pi < pk` (the parents of one
/// commit come in the order of its parent list).
pub proof fn lemma_history_breadth_first<Fs: FileSystem>(fs: Fs, from: Seq<char>, v: Seq<Seq<char>>, i: int, k: int)
    requires
        is_history(fs, from, v),
        0 < i < k < v.len(),
    ensures
        exists|ji: int, pi: int, jk: int, pk: int|
            0 <= ji < i && 0 <= jk < k && (ji < jk || (ji == jk && pi < pk))
                && #[trigger] crate::io::commit_hashes::nth_parent(fs, v[ji], pi, v[i])
                && #[trigger] crate::io::commit_hashes::nth_parent(fs, v[jk], pk, v[k]),
{
    reveal(crate::io::commit_hashes::parents_listed_by);
    let w = choose|w: Seq<(int, int)>| #[trigger] crate::io::commit_hashes::parents_listed_by(fs, v, w);
    assert(crate::io::commit_hashes::found_before(w[i], w[k]));
    assert(crate::io::commit_hashes::nth_parent(fs, v[w[i].0], w[i].1, v[i]));
    assert(crate::io::commit_hashes::nth_parent(fs, v[w[k].0], w[k].1, v[k]));
}

/// A history holds exactly what lies behind its first commit.
proof fn lemma_history_holds<Fs: FileSystem>(fs: Fs, from: Seq<char>, v: Seq<Seq<char>>, x: Seq<char>)
    requires
        is_history(fs, from, v),
    ensures
        v.contains(x) == reachable(fs, from, x),
{
    assert(v[0] == from);
    if reachable(fs, from, x) {
        lemma_closed_holds_reachable(fs, v, from, x);
    }
    if v.contains(x) {
        let i = choose|i: int| 0 <= i < v.len() && v[i] == x;
        assert(reachable(fs, from, v[i]));
    }
}

/// Merges branches.
pub struct Merge;

impl Merge {
    pub fn new() -> (r: Merge) {
        Merge
    }

    /// Merges the head of the branch `source` (its local head, or else its
    /// remote one) into the branch `dist`.
    pub fn execute_from_branch<Fs: FileSystem>(&self, fs: &mut Fs, source: BranchName, dist: BranchName) -> (r: Result<MergedStatus>)
        requires
            old(fs).fs_inv(),
        ensures
            final(fs).fs_inv(),
            r is Ok ==> (source_head(*old(fs), source.0@) matches Some(s) && merge_result(*old(fs), *final(fs), s, dist.0@, r)),
            old(fs).fs_exact() && old(fs).fs_lookup(segs(head_path(source.0@))) is None && old(fs).fs_lookup(
                segs(remote_head_path(source.0@)),
            ) is None ==> (r matches Err(Error::NotfoundHead(n)) && n.0@ == source.0@),
            r matches Err(e) ==> is_data_error(e) || (source_head(*old(fs), source.0@) matches Some(s) && merge_result(
                *old(fs),
                *final(fs),
                s,
                dist.0@,
                r,
            )),
    {
        let source_head = self.read_source_head(fs, &source)?;
        self.execute(fs, source_head, dist)
    }

    /// Merges the commit `source` into the branch `dist`: where the history
    /// of `source` holds the head of `dist`, `dist` moves to `source`; where
    /// the history of `dist` holds `source`, nothing changes; otherwise the
    /// changes of `dist` since the newest common commit are committed on top
    /// of `source` as the new head of `dist`.
    #[verifier::rlimit(80)]
    #[verifier::spinoff_prover]
    pub fn execute<Fs: FileSystem>(&self, fs: &mut Fs, source: CommitHash, dist: BranchName) -> (r: Result<MergedStatus>)
        requires
            old(fs).fs_inv(),
        ensures
            final(fs).fs_inv(),
            merge_result(*old(fs), *final(fs), source.0.0@, dist.0@, r),
            old(fs).fs_exact() && old(fs).fs_lookup(segs(head_path(dist.0@))) is None ==> (r matches Err(
                Error::NotfoundHead(n),
            ) && n.0@ == dist.0@),
            merge_reads_owed(*old(fs), source.0.0@, dist.0@) ==> (head_of(*old(fs), dist.0@) matches Some(d) && (
            reachable(*old(fs), d, source.0.0@) && !reachable(*old(fs), source.0.0@, d) ==> r == Ok::<
                MergedStatus,
                Error,
            >(MergedStatus::FastDist))),
            merge_reads_owed(*old(fs), source.0.0@, dist.0@) ==> (head_of(*old(fs), dist.0@) matches Some(d) && (
            unrelated(*old(fs), source.0.0@, d) ==> r == Err::<MergedStatus, Error>(Error::UnrelatedHistories))),
            fast_source_owed(*old(fs), source.0.0@, dist.0@) ==> (head_of(*old(fs), dist.0@) matches Some(d) && (
            reachable(*old(fs), source.0.0@, d) ==> r == Ok::<MergedStatus, Error>(MergedStatus::FastSource))),
    {
        let ghost s0 = *fs;
        let head = HeadIo::new();
        let dist_head = head.try_read(fs, &dist)?;
        let hashes = CommitHashIo::new();
        let source_hashes = hashes.read_all(fs, source.copy(), &None)?;
        let dist_hashes = hashes.read_all(fs, dist_head.copy(), &None)?;
        let ghost sv = hashes_view(source_hashes@);
        let ghost dv = hashes_view(dist_hashes@);
        let ghost d = dist_head.0.0@;
        proof {
            assert(head_of(s0, dist.0@) == Some(d));
            assert(sv[0] == source_hashes@[0].0.0@);
            assert(dv[0] == dist_hashes@[0].0.0@);
            assert forall|i: int| 0 <= i < sv.len() implies reachable(s0, source.0.0@, #[trigger] sv[i]) by {
                assert(sv[i] == source_hashes@[i].0.0@);
            }
            assert forall|i: int| 0 <= i < dv.len() implies reachable(s0, d, #[trigger] dv[i]) by {
                assert(dv[i] == dist_hashes@[i].0.0@);
            }
            assert(is_history(s0, source.0.0@, sv));
            assert(is_history(s0, d, dv));
            lemma_history_holds(s0, source.0.0@, sv, d);
            lemma_history_holds(s0, d, dv, source.0.0@);
            assert forall|x: Seq<char>| #[trigger] reachable(s0, source.0.0@, x) implies sv.contains(x) && (
            dv.contains(x) == reachable(s0, d, x)) by {
                lemma_history_holds(s0, source.0.0@, sv, x);
                lemma_history_holds(s0, d, dv, x);
            }
        }
        if contains_hash(&source_hashes, &dist_head) {
            head.write(fs, &dist, &source)?;
            proof {
                if fast_source_owed(s0, source.0.0@, dist.0@) {
                    lemma_head_read_after_write(s0, *fs, head_path(dist.0@), source.0.0@);
                    lemma_head_path(dist.0@);
                    crate::io::layout::lemma_write_frame(s0, *fs, segs(head_path(dist.0@)), encode_utf8(source.0.0@), fam_heads());
                    lemma_unzip_owed_after_head(s0, *fs, dist.0@, source.0.0@);
                }
            }
            UnZip::new().execute(fs, &dist)?;
            return Ok(MergedStatus::FastSource);
        }
        if contains_hash(&dist_hashes, &source) {
            return Ok(MergedStatus::FastDist);
        }
        proof {
            if unrelated(s0, source.0.0@, d) {
                assert forall|x: Seq<char>| #[trigger] sv.contains(x) implies !dv.contains(x) by {
                    lemma_history_holds(s0, source.0.0@, sv, x);
                    lemma_history_holds(s0, d, dv, x);
                }
            }
        }
        match self.inspect_merges(fs, &source_hashes, &dist_hashes)? {
            InspectStatus::CanMerge(tree) => {
                head.write(fs, &dist, &source)?;
                let ghost m1 = *fs;
                StagingIo::new().write_tree(fs, &tree)?;
                let ghost m2 = *fs;
                let text = concat("merged ", source.0.0.as_str());
                let text = concat(text.as_str(), " to ");
                let text = concat(text.as_str(), dist.0.as_str());
                let h = Commit::new().execute(fs, &dist, text.as_str())?;
                let ghost m3 = *fs;
                proof {
                    assert(text@ == "merged "@ + source.0.0@ + " to "@ + dist.0@);
                }
                UnZip::new().execute(fs, &dist)?;
                proof {
                    let (es, objs) = choose|es: Seq<(Seq<char>, Seq<char>)>, objs: Seq<ObjView>|
                        #[trigger] unzipped(m3, *fs, dist.0@, es, objs);
                    assert(merged_as(s0, m1, m2, m3, *fs, source.0.0@, d, dist.0@, sv, dv, tree@, h.0.0@, es, objs));
                }
                Ok(MergedStatus::Merged)
            },
            InspectStatus::Conflict(conflicts) => Ok(MergedStatus::Conflicted(conflicts)),
        }
    }

    fn read_source_head<Fs: FileSystem>(&self, fs: &Fs, source: &BranchName) -> (r: Result<CommitHash>)
        requires
            fs.fs_inv(),
        ensures
            r matches Err(e) ==> is_data_error(e),
            r matches Ok(h) ==> source_head(*fs, source.0@) == Some(h.0.0@),
            fs.fs_exact() && fs.fs_lookup(segs(head_path(source.0@))) is None && fs.fs_lookup(
                segs(remote_head_path(source.0@)),
            ) is None ==> (r matches Err(Error::NotfoundHead(n)) && n.0@ == source.0@),
    {
        let head = HeadIo::new();
        match head.read(fs, source)? {
            Some(h) => Ok(h),
            None => head.try_read_remote(fs, source),
        }
    }

    /// The tree to stage for a merge of the histories: the destination's
    /// tree since the merge origin without the paths of the source's.
    fn inspect_merges<Fs: FileSystem>(&self, fs: &Fs, source_hashes: &Vec<CommitHash>, dist_hashes: &Vec<CommitHash>) -> (r: Result<InspectStatus>)
        requires
            fs.fs_inv(),
        ensures
            r matches Ok(InspectStatus::CanMerge(t)) ==> t.wf() && merge_tree(*fs, hashes_view(source_hashes@), hashes_view(dist_hashes@), t@),
            r is Ok ==> r matches Ok(InspectStatus::CanMerge(_)),
            r matches Err(e) ==> is_data_error(e) || (e is UnrelatedHistories && forall|x: Seq<char>|
                hashes_view(source_hashes@).contains(x) ==> !hashes_view(dist_hashes@).contains(x)),
            (forall|x: Seq<char>| #[trigger] hashes_view(source_hashes@).contains(x) ==> !hashes_view(dist_hashes@).contains(x))
                ==> r == Err::<InspectStatus, Error>(Error::UnrelatedHistories),
    {
        let merge_origin = self.merge_origin(source_hashes, dist_hashes)?;
        proof {
            let o = merge_origin.0.0@;
            let sv0 = hashes_view(source_hashes@);
            let i = choose|i: int|
                0 <= i < sv0.len() && #[trigger] sv0[i] == o && hashes_view(dist_hashes@).contains(o) && forall|j: int|
                    0 <= j < i ==> !hashes_view(dist_hashes@).contains(#[trigger] sv0[j]);
            assert(sv0.contains(o));
        }
        let mut dist_tree = self.commit_tree(fs, dist_hashes, &merge_origin)?;
        let source_tree = self.commit_tree(fs, source_hashes, &merge_origin)?;
        let ghost sv = hashes_view(source_hashes@);
        let ghost dv = hashes_view(dist_hashes@);
        let ghost o = merge_origin.0.0@;
        let ghost ks = choose|k: int| #[trigger] first_stop(sv, o, k) && forall|q: Seq<char>|
            #[trigger] seq_lookup(source_tree@, q) == layered(*fs, sv.take(k), q);
        let ghost kd = choose|k: int| #[trigger] first_stop(dv, o, k) && forall|q: Seq<char>|
            #[trigger] seq_lookup(dist_tree@, q) == layered(*fs, dv.take(k), q);
        let ghost dist0 = dist_tree@;
        let conflicts: Vec<Conflict> = Vec::new();
        let mut i: usize = 0;
        while i < source_tree.0.len()
            invariant
                dist_tree.wf(),
                source_tree.wf(),
                i <= source_tree@.len(),
                source_tree@.len() == source_tree.0@.len(),
                forall|q: Seq<char>|
                    #[trigger] dist_tree.lookup(q) == if seq_has(source_tree@.take(i as int), q) {
                        None
                    } else {
                        seq_lookup(dist0, q)
                    },
            decreases source_tree@.len() - i,
        {
            let path = FilePath(source_tree.0[i].0.0.clone());
            if dist_tree.contains_key(&path) {
                dist_tree.remove(&path);
            }
            proof {
                let pre = source_tree@.take(i as int);
                let post = source_tree@.take(i + 1);
                assert forall|q: Seq<char>| #[trigger] dist_tree.lookup(q) == if seq_has(post, q) {
                    None
                } else {
                    seq_lookup(dist0, q)
                } by {
                    if seq_has(post, q) {
                        let j = choose|j: int| 0 <= j < post.len() && #[trigger] post[j].0 == q;
                        if j < i {
                            assert(pre[j].0 == q);
                        }
                    }
                    if seq_has(pre, q) {
                        let j = choose|j: int| 0 <= j < pre.len() && #[trigger] pre[j].0 == q;
                        assert(post[j].0 == q);
                    }
                    if q == path.0@ {
                        assert(post[i as int].0 == q);
                    }
                }
            }
            i = i + 1;
        }
        proof {
            assert(source_tree@.take(source_tree@.len() as int) =~= source_tree@);
            assert forall|q: Seq<char>| #[trigger] seq_lookup(dist_tree@, q) == if layered(*fs, sv.take(ks), q) is Some {
                None
            } else {
                layered(*fs, dv.take(kd), q)
            } by {
                assert(dist_tree.lookup(q) == seq_lookup(dist_tree@, q));
                crate::assoc::lemma_as_map(source_tree@, q);
                assert(seq_lookup(source_tree@, q) == layered(*fs, sv.take(ks), q));
                assert(seq_lookup(dist0, q) == layered(*fs, dv.take(kd), q));
            }
            assert(merge_tree(*fs, sv, dv, dist_tree@));
        }
        if conflicts.len() == 0 {
            Ok(InspectStatus::CanMerge(dist_tree))
        } else {
            Ok(InspectStatus::Conflict(conflicts))
        }
    }

    /// The trees of the commits before `merge_origin`, the later ones laid over the earlier.
    fn commit_tree<Fs: FileSystem>(&self, fs: &Fs, commit_hashes: &Vec<CommitHash>, merge_origin: &CommitHash) -> (r: Result<TreeObj>)
        requires
            fs.fs_inv(),
        ensures
            r matches Err(e) ==> is_data_error(e),
            r matches Ok(t) ==> t.wf() && exists|k: int|
                #[trigger] first_stop(hashes_view(commit_hashes@), merge_origin.0.0@, k) && forall|q: Seq<char>|
                    #[trigger] seq_lookup(t@, q) == layered(*fs, hashes_view(commit_hashes@).take(k), q),
    {
        let ghost v = hashes_view(commit_hashes@);
        let ghost o = merge_origin.0.0@;
        let commit_obj_io = CommitObjIo::new();
        let mut tree = TreeObj::new();
        let mut i: usize = 0;
        proof {
            assert forall|q: Seq<char>| #[trigger] tree.lookup(q) == layered(*fs, v.take(0), q) by {
                assert(v.take(0).len() == 0);
                crate::assoc::lemma_as_map(tree@, q);
            }
        }
        while i < commit_hashes.len()
            invariant
                fs.fs_inv(),
                tree.wf(),
                i <= commit_hashes@.len(),
                v == hashes_view(commit_hashes@),
                o == merge_origin.0.0@,
                forall|j: int| 0 <= j < i ==> #[trigger] v[j] != o,
                forall|q: Seq<char>| #[trigger] tree.lookup(q) == layered(*fs, v.take(i as int), q),
            ensures
                tree.wf(),
                first_stop(v, o, i as int),
                forall|q: Seq<char>| #[trigger] tree.lookup(q) == layered(*fs, v.take(i as int), q),
            decreases commit_hashes@.len() - i,
        {
            assert(v[i as int] == commit_hashes@[i as int].0.0@);
            if merge_origin.same(&commit_hashes[i]) {
                assert(v[i as int] == o);
                break;
            }
            let commit_tree = commit_obj_io.read_commit_tree(fs, &commit_hashes[i].0)?;
            let ghost prev = tree;
            tree.replace_by(commit_tree);
            proof {
                assert(v.take(i + 1).drop_last() =~= v.take(i as int));
                assert(v.take(i + 1).last() == v[i as int]);
                assert(v[i as int] == commit_hashes@[i as int].0.0@);
                assert(commit_tree_of(*fs, v[i as int]) == Some(commit_tree@));
                assert forall|q: Seq<char>| #[trigger] tree.lookup(q) == layered(*fs, v.take(i + 1), q) by {
                    assert(prev.lookup(q) == layered(*fs, v.take(i as int), q));
                }
            }
            i = i + 1;
        }
        proof {
            assert forall|q: Seq<char>| #[trigger] seq_lookup(tree@, q) == layered(*fs, v.take(i as int), q) by {
                assert(tree.lookup(q) == seq_lookup(tree@, q));
            }
        }
        Ok(tree)
    }

    /// The first commit of the source's history that the destination's history holds.
    fn merge_origin(&self, source_hashes: &Vec<CommitHash>, dist_hashes: &Vec<CommitHash>) -> (r: Result<CommitHash>)
        ensures
            r matches Ok(h) ==> origin_of(hashes_view(source_hashes@), hashes_view(dist_hashes@), h.0.0@),
            r is Err ==> r == Err::<CommitHash, Error>(Error::UnrelatedHistories) && forall|x: Seq<char>|
                hashes_view(source_hashes@).contains(x) ==> !hashes_view(dist_hashes@).contains(x),
    {
        let mut i: usize = 0;
        while i < source_hashes.len()
            invariant
                i <= source_hashes@.len(),
                forall|j: int| 0 <= j < i ==> !hashes_view(dist_hashes@).contains(#[trigger] source_hashes@[j].0.0@),
            decreases source_hashes@.len() - i,
        {
            if contains_hash(dist_hashes, &source_hashes[i]) {
                proof {
                    let sv = hashes_view(source_hashes@);
                    let dv = hashes_view(dist_hashes@);
                    assert(sv[i as int] == source_hashes@[i as int].0.0@);
                    assert forall|j: int| 0 <= j < i implies !dv.contains(#[trigger] sv[j]) by {
                        assert(sv[j] == source_hashes@[j].0.0@);
                    }
                    assert(origin_of(sv, dv, source_hashes@[i as int].0.0@));
                }
                return Ok(source_hashes[i].copy());
            }
            i = i + 1;
        }
        proof {
            assert forall|x: Seq<char>| hashes_view(source_hashes@).contains(x) implies !hashes_view(dist_hashes@).contains(x) by {
                let j = choose|j: int| 0 <= j < hashes_view(source_hashes@).len() && hashes_view(source_hashes@)[j] == x;
                assert(source_hashes@[j].0.0@ == x);
            }
        }
        Err(Error::UnrelatedHistories)
    }
}

/// Whether a list of commit hashes holds `h`.
fn contains_hash(v: &Vec<CommitHash>, h: &CommitHash) -> (r: bool)
    ensures
        r == hashes_view(v@).contains(h.0.0@),
{
    let mut i: usize = 0;
    while i < v.len()
        invariant
            i <= v@.len(),
            forall|j: int| 0 <= j < i ==> v@[j].0.0@ != h.0.0@,
        decreases v@.len() - i,
    {
        if v[i].same(h) {
            assert(hashes_view(v@)[i as int] == h.0.0@);
            return true;
        }
        i = i + 1;
    }
    proof {
        if hashes_view(v@).contains(h.0.0@) {
            let j = choose|j: int| 0 <= j < hashes_view(v@).len() && hashes_view(v@)[j] == h.0.0@;
            assert(v@[j].0.0@ == h.0.0@);
        }
    }
    false
}

} // verus!
