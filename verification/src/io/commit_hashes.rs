//! The history of a commit: it and the commits it follows.

use vstd::prelude::*;

use crate::error::{Error, Result, is_data_error};
use crate::file_system::FileSystem;
use crate::io::atomic::object::{ObjIo, stored_obj};
use crate::object::ObjView;
use crate::object::commit::{CommitHash, CommitObj};

verus! {

/// The parents of the commit stored under `h`, where a commit is stored there.
pub open spec fn commit_parents<Fs: FileSystem>(fs: Fs, h: Seq<char>) -> Option<Seq<Seq<char>>> {
    match stored_obj(fs, h) {
        Some(ObjView::Commit(c)) => Some(c.parents),
        _ => None,
    }
}

pub open spec fn hashes_view(v: Seq<CommitHash>) -> Seq<Seq<char>> {
    v.map_values(|c: CommitHash| c.0.0@)
}

/// `v` holds every commit that the walk from `from` reaches, stopping at
/// `to`: each is a stored commit whose parents are in `v` or are `to`.
pub open spec fn history_closed<Fs: FileSystem>(fs: Fs, v: Seq<Seq<char>>, to: Option<Seq<char>>) -> bool {
    forall|i: int|
        0 <= i < v.len() ==> (#[trigger] commit_parents(fs, v[i]) matches Some(ps) && forall|j: int|
            0 <= j < ps.len() ==> to == Some(#[trigger] ps[j]) || v.contains(ps[j]))
}

/// Every commit that lies behind `from`, `from` among them, is stored.
pub open spec fn history_stored<Fs: FileSystem>(fs: Fs, from: Seq<char>) -> bool {
    forall|x: Seq<char>| #[trigger] reachable(fs, from, x) ==> commit_parents(fs, x) is Some
}

/// Each step of `path` goes from a stored commit to one of its parents.
pub open spec fn parent_path<Fs: FileSystem>(fs: Fs, path: Seq<Seq<char>>) -> bool {
    &&& path.len() > 0
    &&& forall|i: int|
        0 <= i < path.len() - 1 ==> (#[trigger] commit_parents(fs, path[i]) matches Some(ps) && ps.contains(path[i + 1]))
}

/// `x` is the parent at place `p` in the parent list of the stored commit `c`.
pub open spec fn nth_parent<Fs: FileSystem>(fs: Fs, c: Seq<char>, p: int, x: Seq<char>) -> bool {
    commit_parents(fs, c) matches Some(ps) && 0 <= p < ps.len() && ps[p] == x
}

/// Where a commit was found, `(index of the commit it is a parent of, place
/// in that commit's parent list)`, `a` strictly before `b`.
pub open spec fn found_before(a: (int, int), b: (int, int)) -> bool {
    a.0 < b.0 || (a.0 == b.0 && a.1 < b.1)
}

/// `w` names, for each commit of `v` but the first, an earlier commit of
/// `v` that it is a parent of and its place among that commit's parents;
/// the places named come strictly in the order of `v` (breadth first: the
/// parents of an earlier commit are listed before those of a later one,
/// and the parents of one commit in the order of its parent list).
#[verifier::opaque]
pub open spec fn parents_listed_by<Fs: FileSystem>(fs: Fs, v: Seq<Seq<char>>, w: Seq<(int, int)>) -> bool {
    &&& w.len() == v.len()
    &&& forall|i: int| 0 < i < v.len() ==> 0 <= (#[trigger] w[i]).0 < i && nth_parent(fs, v[w[i].0], w[i].1, v[i])
    &&& forall|i: int, k: int| 0 < i < k < v.len() ==> found_before(#[trigger] w[i], #[trigger] w[k])
}

/// Each commit of `v` but the first is a parent of one listed before it:
/// a history is listed from its newest commits back, breadth first.
pub open spec fn parents_first<Fs: FileSystem>(fs: Fs, v: Seq<Seq<char>>) -> bool {
    exists|w: Seq<(int, int)>| #[trigger] parents_listed_by(fs, v, w)
}

/// `w` names, for each commit of the queue `q` but the first, a commit of
/// `v` that it is a parent of and its place among that commit's parents.
#[verifier::opaque]
pub open spec fn queued_behind<Fs: FileSystem>(fs: Fs, q: Seq<Seq<char>>, v: Seq<Seq<char>>, w: Seq<(int, int)>) -> bool {
    &&& w.len() == q.len()
    &&& w[0] == (0int, -1int)
    &&& forall|k: int| 1 <= k < q.len() ==> 0 <= (#[trigger] w[k]).0 < v.len() && nth_parent(fs, v[w[k].0], w[k].1, q[k])
    &&& forall|i: int, k: int| 0 <= i < k < q.len() ==> found_before(#[trigger] w[i], #[trigger] w[k])
}

/// The witnesses of a breadth-first walk that has taken the first `qi`
/// commits of the queue `q` and visited `v`: the commit last visited was
/// found no later than any commit still queued.
#[verifier::opaque]
pub open spec fn visit_witness<Fs: FileSystem>(
    fs: Fs,
    q: Seq<Seq<char>>,
    v: Seq<Seq<char>>,
    qi: int,
    pw: Seq<(int, int)>,
    qw: Seq<(int, int)>,
) -> bool {
    &&& parents_listed_by(fs, v, pw)
    &&& queued_behind(fs, q, v, qw)
    &&& v.len() > 0 ==> forall|k: int| qi <= k < q.len() ==> found_before(pw.last(), #[trigger] qw[k])
}

/// Taking a queued commit without visiting it keeps the witnesses.
proof fn lemma_witness_skip<Fs: FileSystem>(
    fs: Fs,
    q: Seq<Seq<char>>,
    v: Seq<Seq<char>>,
    qi: int,
    pw: Seq<(int, int)>,
    qw: Seq<(int, int)>,
)
    requires
        visit_witness(fs, q, v, qi, pw, qw),
    ensures
        visit_witness(fs, q, v, qi + 1, pw, qw),
{
    reveal(visit_witness);
}

/// Visiting the queued commit `bq[at]` as `hv` and queueing its parents, in
/// the order of its parent list, keeps the witnesses.
proof fn lemma_visit_witnesses<Fs: FileSystem>(
    fs: Fs,
    vb: Seq<Seq<char>>,
    bq: Seq<Seq<char>>,
    q1: Seq<Seq<char>>,
    hv: Seq<char>,
    pw0: Seq<(int, int)>,
    qw0: Seq<(int, int)>,
    at: int,
) -> (r: (Seq<(int, int)>, Seq<(int, int)>))
    requires
        visit_witness(fs, bq, vb, at, pw0, qw0),
        0 <= at < bq.len(),
        vb.len() > 0 ==> 1 <= at,
        bq[at] == hv,
        q1.len() >= bq.len(),
        q1.take(bq.len() as int) == bq,
        forall|m: int| bq.len() <= m < q1.len() ==> nth_parent(fs, hv, m - bq.len(), #[trigger] q1[m]),
    ensures
        visit_witness(fs, q1, vb.push(hv), at + 1, r.0, r.1),
{
    reveal(visit_witness);
    reveal(parents_listed_by);
    reveal(queued_behind);
    let v1 = vb.push(hv);
    let found = qw0[at];
    let pw = pw0.push(found);
    let qw = qw0 + Seq::new((q1.len() - bq.len()) as nat, |x: int| (vb.len() as int, x));
    assert forall|i: int| 0 < i < v1.len() implies 0 <= (#[trigger] pw[i]).0 < i && nth_parent(fs, v1[pw[i].0], pw[i].1, v1[i]) by {
        if i < vb.len() {
            assert(pw[i] == pw0[i]);
            assert(v1[i] == vb[i]);
            assert(v1[pw0[i].0] == vb[pw0[i].0]);
        } else {
            assert(pw[i] == found);
            assert(v1[i] == hv);
            assert(v1[found.0] == vb[found.0]);
        }
    }
    assert forall|k: int| 1 <= k < q1.len() implies 0 <= (#[trigger] qw[k]).0 < v1.len() && nth_parent(fs, v1[qw[k].0], qw[k].1, q1[k]) by {
        if k < bq.len() {
            assert(qw[k] == qw0[k]);
            assert(q1[k] == q1.take(bq.len() as int)[k]);
            assert(v1[qw0[k].0] == vb[qw0[k].0]);
        } else {
            assert(qw[k] == (vb.len() as int, k - bq.len()));
            assert(v1[vb.len() as int] == hv);
        }
    }
    assert forall|i: int, k: int| 0 < i < k < v1.len() implies found_before(#[trigger] pw[i], #[trigger] pw[k]) by {
        if k < vb.len() {
            assert(pw[i] == pw0[i] && pw[k] == pw0[k]);
        } else {
            assert(pw[i] == pw0[i]);
            assert(pw[k] == found);
            assert(pw0.last() == pw0[vb.len() - 1]);
            assert(found_before(pw0.last(), qw0[at]));
            if i < vb.len() - 1 {
                assert(found_before(pw0[i], pw0[vb.len() - 1]));
            }
        }
    }
    assert forall|i: int, k: int| 0 <= i < k < q1.len() implies found_before(#[trigger] qw[i], #[trigger] qw[k]) by {
        if k < bq.len() {
            assert(qw[i] == qw0[i] && qw[k] == qw0[k]);
        } else if i < bq.len() {
            assert(qw[i] == qw0[i]);
            assert(qw[k] == (vb.len() as int, k - bq.len()));
            if i == 0 {
                assert(qw0[0] == (0int, -1int));
            } else {
                assert(qw0[i].0 < vb.len());
            }
        } else {
            assert(qw[i] == (vb.len() as int, i - bq.len()));
            assert(qw[k] == (vb.len() as int, k - bq.len()));
        }
    }
    assert(qw[0] == qw0[0]);
    assert(pw.last() == found);
    assert forall|k: int| at + 1 <= k < q1.len() implies found_before(pw.last(), #[trigger] qw[k]) by {
        if k < bq.len() {
            assert(qw[k] == qw0[k]);
            assert(found_before(qw0[at], qw0[k]));
        } else {
            assert(qw[k] == (vb.len() as int, k - bq.len()));
            if at == 0 {
                assert(qw0[0] == (0int, -1int));
            } else {
                assert(qw0[at].0 < vb.len());
            }
        }
    }
    (pw, qw)
}

/// Queues the parents of the commit `hv`, which lies behind `from_v`.
fn queue_parents<Fs: FileSystem>(
    fs: &Fs,
    queue: &mut Vec<CommitHash>,
    commit: &CommitObj,
    Ghost(from_v): Ghost<Seq<char>>,
    Ghost(hv): Ghost<Seq<char>>,
)
    requires
        reachable(*fs, from_v, hv),
        commit_parents(*fs, hv) == Some(commit@.parents),
        forall|i: int| 0 <= i < old(queue)@.len() ==> reachable(*fs, from_v, #[trigger] old(queue)@[i].0.0@),
    ensures
        final(queue)@.len() == old(queue)@.len() + commit.parents@.len(),
        final(queue)@.take(old(queue)@.len() as int) == old(queue)@,
        forall|j: int| 0 <= j < commit.parents@.len() ==> #[trigger] final(queue)@[old(queue)@.len() + j].0.0@ == commit.parents@[j].0.0@,
        forall|i: int| 0 <= i < final(queue)@.len() ==> reachable(*fs, from_v, #[trigger] final(queue)@[i].0.0@),
{
    let ghost before_queue = queue@;
    let ghost ph = choose|path: Seq<Seq<char>>| #[trigger] parent_path(*fs, path) && path[0] == from_v && path.last() == hv;
    let mut p: usize = 0;
    while p < commit.parents.len()
        invariant
            p <= commit.parents@.len(),
            parent_path(*fs, ph),
            ph[0] == from_v,
            ph.last() == hv,
            commit_parents(*fs, hv) == Some(commit@.parents),
            forall|i: int| 0 <= i < queue@.len() ==> reachable(*fs, from_v, #[trigger] queue@[i].0.0@),
            queue@.len() == before_queue.len() + p,
            queue@.take(before_queue.len() as int) == before_queue,
            forall|j: int| 0 <= j < p ==> #[trigger] queue@[before_queue.len() + j].0.0@ == commit.parents@[j].0.0@,
        decreases commit.parents@.len() - p,
    {
        let ghost x = commit.parents@[p as int].0.0@;
        proof {
            let np = ph.push(x);
            assert(commit@.parents[p as int] == x);
            assert forall|i: int| 0 <= i < np.len() - 1 implies (#[trigger] commit_parents(*fs, np[i]) matches Some(ps)
                && ps.contains(np[i + 1])) by {
                if i < ph.len() - 1 {
                    assert(np[i] == ph[i] && np[i + 1] == ph[i + 1]);
                } else {
                    assert(np[i] == hv);
                    assert(np[i + 1] == x);
                    assert(commit@.parents.contains(x));
                }
            }
            assert(parent_path(*fs, np));
            assert(np[0] == from_v && np.last() == x);
        }
        let ghost q_before = queue@;
        let item = commit.parents[p].copy();
        queue.push(item);
        let ghost qn = queue@;
        proof {
            assert(qn == q_before.push(item));
            assert(item.0.0@ == x);
            assert forall|i: int| 0 <= i < qn.len() implies reachable(*fs, from_v, #[trigger] qn[i].0.0@) by {
                if i < q_before.len() {
                    assert(qn[i] == q_before[i]);
                    assert(reachable(*fs, from_v, q_before[i].0.0@));
                } else {
                    assert(qn[i] == item);
                    assert(parent_path(*fs, ph.push(x)));
                    assert(ph.push(x)[0] == from_v && ph.push(x).last() == x);
                }
            }
            assert forall|j: int| 0 <= j < p + 1 implies #[trigger] qn[before_queue.len() + j].0.0@ == commit.parents@[j].0.0@ by {
                if j < p {
                    assert(qn[before_queue.len() + j] == q_before[before_queue.len() + j]);
                    assert(q_before[before_queue.len() + j].0.0@ == commit.parents@[j].0.0@);
                } else {
                    assert(before_queue.len() + j == q_before.len());
                    assert(qn[q_before.len() as int] == item);
                }
            }
            assert(qn.take(before_queue.len() as int) =~= q_before.take(before_queue.len() as int));
        }
        p = p + 1;
    }

    assert(queue@.take(before_queue.len() as int) =~= before_queue);
}

/// `x` is `from` or lies behind it: a walk through parents leads from `from` to `x`.
pub open spec fn reachable<Fs: FileSystem>(fs: Fs, from: Seq<char>, x: Seq<char>) -> bool {
    exists|path: Seq<Seq<char>>| #[trigger] parent_path(fs, path) && path[0] == from && path.last() == x
}

/// A history closed under parents that holds `from` holds all that lies behind it.
pub proof fn lemma_closed_holds_reachable<Fs: FileSystem>(fs: Fs, v: Seq<Seq<char>>, from: Seq<char>, x: Seq<char>)
    requires
        history_closed(fs, v, None),
        v.contains(from),
        reachable(fs, from, x),
    ensures
        v.contains(x),
{
    let path = choose|path: Seq<Seq<char>>| #[trigger] parent_path(fs, path) && path[0] == from && path.last() == x;
    lemma_path_held(fs, v, path, path.len() - 1);
}

proof fn lemma_path_held<Fs: FileSystem>(fs: Fs, v: Seq<Seq<char>>, path: Seq<Seq<char>>, n: int)
    requires
        history_closed(fs, v, None),
        parent_path(fs, path),
        v.contains(path[0]),
        0 <= n < path.len(),
    ensures
        v.contains(path[n]),
    decreases n,
{
    if n > 0 {
        lemma_path_held(fs, v, path, n - 1);
        let i = choose|i: int| 0 <= i < v.len() && v[i] == path[n - 1];
        let ps = commit_parents(fs, path[n - 1])->0;
        assert(commit_parents(fs, v[i]) matches Some(ps2) && ps2 == ps);
        let j = choose|j: int| 0 <= j < ps.len() && ps[j] == path[n];
        assert(ps[j] == path[(n - 1) + 1]);
    }
}

/// Reads the history of commits.
pub struct CommitHashIo;

impl CommitHashIo {
    pub fn new() -> (r: CommitHashIo) {
        CommitHashIo
    }

    /// Every commit reachable from `from` through parents, `from` first and
    /// each once, without `to` and what lies behind it. Fails where a
    /// commit on the way cannot be read.
    #[verifier::rlimit(100)]
    #[verifier::spinoff_prover]
    pub fn read_all<Fs: FileSystem>(&self, fs: &Fs, from: CommitHash, to: &Option<CommitHash>) -> (r: Result<Vec<CommitHash>>)
        requires
            fs.fs_inv(),
        ensures
            r matches Err(e) ==> is_data_error(e),
            r matches Ok(v) ==> {
                let to_v = match to {
                    Some(t) => Some(t.0.0@),
                    None => None,
                };
                &&& hashes_view(v@).no_duplicates()
                &&& history_closed(*fs, hashes_view(v@), to_v)
                &&& (to_v != Some(from.0.0@) ==> v@.len() > 0 && v@[0].0.0@ == from.0.0@)
                &&& forall|i: int| 0 <= i < v@.len() ==> to_v != Some(#[trigger] v@[i].0.0@)
                &&& forall|i: int| 0 <= i < v@.len() ==> reachable(*fs, from.0.0@, #[trigger] v@[i].0.0@)
                &&& parents_first(*fs, hashes_view(v@))
            },
            fs.fs_exact() && history_stored(*fs, from.0.0@) ==> r is Ok,
    {
        let ghost to_v = match to {
            Some(t) => Some(t.0.0@),
            None => None::<Seq<char>>,
        };
        let obj = ObjIo::new();
        let mut visited: Vec<CommitHash> = Vec::new();
        let mut queue: Vec<CommitHash> = Vec::new();
        let ghost from_v = from.0.0@;
        queue.push(from);
        proof {
            reveal(visit_witness);
            reveal(parents_listed_by);
            reveal(queued_behind);
            assert(hashes_view(visited@).len() == 0);
            assert(parents_listed_by(*fs, hashes_view(visited@), Seq::<(int, int)>::empty()));
            assert(queued_behind(*fs, hashes_view(queue@), hashes_view(visited@), seq![(0int, -1int)]));
            assert(visit_witness(*fs, hashes_view(queue@), hashes_view(visited@), 0, Seq::<(int, int)>::empty(), seq![(0int, -1int)]));
        }
        proof {
            assert(parent_path(*fs, seq![from_v]));
            assert(reachable(*fs, from_v, queue@[0].0.0@));
        }
        let mut qi: usize = 0;
        let mut steps: usize = 0;
        while qi < queue.len()
            invariant
                fs.fs_inv(),
                qi <= queue@.len(),
                steps == qi,
                from_v == from.0.0@,
                queue@.len() > 0,
                queue@[0].0.0@ == from_v,
                to_v == match to {
                    Some(t) => Some(t.0.0@),
                    None => None::<Seq<char>>,
                },
                hashes_view(visited@).no_duplicates(),
                forall|i: int| 0 <= i < visited@.len() ==> to_v != Some(#[trigger] visited@[i].0.0@),
                qi > 0 && to_v != Some(from_v) ==> visited@.len() > 0 && visited@[0].0.0@ == from_v,
                qi == 0 ==> visited@.len() == 0,
                forall|i: int| 0 <= i < queue@.len() ==> reachable(*fs, from_v, #[trigger] queue@[i].0.0@),
                forall|i: int| 0 <= i < visited@.len() ==> reachable(*fs, from_v, #[trigger] visited@[i].0.0@),
                forall|i: int|
                    0 <= i < visited@.len() ==> (#[trigger] commit_parents(*fs, visited@[i].0.0@) matches Some(ps)
                        && forall|j: int|
                        0 <= j < ps.len() ==> to_v == Some(#[trigger] ps[j]) || hashes_view(visited@).contains(ps[j])
                            || hashes_view(queue@).skip(qi as int).contains(ps[j])),
                exists|pw: Seq<(int, int)>, qw: Seq<(int, int)>| #[trigger] visit_witness(*fs, hashes_view(queue@), hashes_view(visited@), qi as int, pw, qw),
            decreases usize::MAX - steps, queue@.len() - qi,
        {
            assert(steps < usize::MAX) by {
                assert(queue@.len() == queue.len());
            }
            steps = steps + 1;
            let h = queue[qi].copy();
            let ghost hv = h.0.0@;
            assert(reachable(*fs, from_v, queue@[qi as int].0.0@));
            let ghost before_tail = hashes_view(queue@).skip(qi as int);
            qi = qi + 1;
            let skip = match to {
                Some(t) => t.same(&h),
                None => false,
            };
            let mut seen = false;
            let mut k: usize = 0;
            while k < visited.len()
                invariant
                    k <= visited@.len(),
                    seen ==> hashes_view(visited@).contains(hv),
                    !seen ==> forall|j: int| 0 <= j < k ==> visited@[j].0.0@ != hv,
                    h.0.0@ == hv,
                decreases visited@.len() - k,
            {
                if visited[k].same(&h) {
                    seen = true;
                    assert(hashes_view(visited@)[k as int] == hv);
                }
                k = k + 1;
            }
            if skip || seen {
                proof {
                    let (pw0, qw0) = choose|pw: Seq<(int, int)>, qw: Seq<(int, int)>| #[trigger] visit_witness(
                        *fs,
                        hashes_view(queue@),
                        hashes_view(visited@),
                        qi - 1,
                        pw,
                        qw,
                    );
                    lemma_witness_skip(*fs, hashes_view(queue@), hashes_view(visited@), qi - 1, pw0, qw0);
                    assert forall|i: int|
                        0 <= i < visited@.len() implies (#[trigger] commit_parents(*fs, visited@[i].0.0@) matches Some(ps)
                            && forall|j: int|
                            0 <= j < ps.len() ==> to_v == Some(#[trigger] ps[j]) || hashes_view(visited@).contains(ps[j])
                                || hashes_view(queue@).skip(qi as int).contains(ps[j])) by {
                        let ps = commit_parents(*fs, visited@[i].0.0@)->0;
                        assert forall|j: int| 0 <= j < ps.len() implies to_v == Some(#[trigger] ps[j])
                            || hashes_view(visited@).contains(ps[j]) || hashes_view(queue@).skip(qi as int).contains(ps[j]) by {
                            if before_tail.contains(ps[j]) && ps[j] != hv {
                                let m = choose|m: int| 0 <= m < before_tail.len() && before_tail[m] == ps[j];
                                assert(m != 0);
                                assert(hashes_view(queue@).skip(qi as int)[m - 1] == ps[j]);
                            }
                        }
                    }
                }
                continue;
            }
            proof {
                assert(reachable(*fs, from_v, hv));
                if fs.fs_exact() && history_stored(*fs, from_v) {
                    assert(commit_parents(*fs, hv) is Some);
                    assert(stored_obj(*fs, hv) matches Some(ObjView::Commit(_)));
                }
            }
            let commit = obj.read_to_commit(fs, &h)?;
            let ghost before_queue = queue@;
            queue_parents(fs, &mut queue, &commit, Ghost(from_v), Ghost(hv));
            let ghost vis_before = visited@;
            visited.push(h);
            proof {
                assert(hashes_view(visited@) =~= hashes_view(vis_before).push(hv));
                assert(hashes_view(queue@).take(before_queue.len() as int) =~= hashes_view(before_queue));
                assert forall|m: int| before_queue.len() <= m < queue@.len() implies nth_parent(
                    *fs,
                    hv,
                    m - before_queue.len(),
                    #[trigger] hashes_view(queue@)[m],
                ) by {
                    let x = m - before_queue.len();
                    assert(queue@[before_queue.len() + x].0.0@ == commit.parents@[x].0.0@);
                    assert(commit@.parents[x] == commit.parents@[x].0.0@);
                }
                let (pw0, qw0) = choose|pw: Seq<(int, int)>, qw: Seq<(int, int)>| #[trigger] visit_witness(
                    *fs,
                    hashes_view(before_queue),
                    hashes_view(vis_before),
                    qi - 1,
                    pw,
                    qw,
                );
                let (pw1, qw1) = lemma_visit_witnesses(
                    *fs,
                    hashes_view(vis_before),
                    hashes_view(before_queue),
                    hashes_view(queue@),
                    hv,
                    pw0,
                    qw0,
                    qi - 1,
                );
                assert(hashes_view(visited@) == hashes_view(vis_before).push(hv));
                assert(visit_witness(*fs, hashes_view(queue@), hashes_view(visited@), qi as int, pw1, qw1));
                assert forall|i: int| 0 <= i < visited@.len() implies reachable(*fs, from_v, #[trigger] visited@[i].0.0@) by {
                    if i < vis_before.len() {
                        assert(visited@[i] == vis_before[i]);
                    }
                }
                let vv = hashes_view(visited@);
                assert(vv =~= hashes_view(vis_before).push(hv));
                let tail = hashes_view(queue@).skip(qi as int);
                assert forall|m: int| 1 <= m < before_tail.len() implies tail[m - 1] == before_tail[m] by {
                    assert(queue@[qi + m - 1] == before_queue[qi + m - 1]);
                }
                assert forall|i: int|
                    0 <= i < visited@.len() implies (#[trigger] commit_parents(*fs, visited@[i].0.0@) matches Some(ps)
                        && forall|j: int|
                        0 <= j < ps.len() ==> to_v == Some(#[trigger] ps[j]) || vv.contains(ps[j]) || tail.contains(ps[j])) by {
                    let ps = commit_parents(*fs, visited@[i].0.0@)->0;
                    if i == vis_before.len() {
                        assert forall|j: int| 0 <= j < ps.len() implies to_v == Some(#[trigger] ps[j]) || vv.contains(ps[j])
                            || tail.contains(ps[j]) by {
                            assert(queue@[before_queue.len() + j].0.0@ == commit.parents@[j].0.0@);
                            assert(tail[before_queue.len() - qi + j] == ps[j]);
                        }
                    } else {
                        assert(visited@[i] == vis_before[i]);
                        assert forall|j: int| 0 <= j < ps.len() implies to_v == Some(#[trigger] ps[j]) || vv.contains(ps[j])
                            || tail.contains(ps[j]) by {
                            if hashes_view(vis_before).contains(ps[j]) {
                                let m = choose|m: int| 0 <= m < hashes_view(vis_before).len() && hashes_view(vis_before)[m] == ps[j];
                                assert(vv[m] == ps[j]);
                            } else if before_tail.contains(ps[j]) {
                                let m = choose|m: int| 0 <= m < before_tail.len() && before_tail[m] == ps[j];
                                if m == 0 {
                                    assert(vv[vis_before.len() as int] == ps[j]);
                                } else {
                                    assert(tail[m - 1] == ps[j]);
                                }
                            }
                        }
                    }
                }
                assert(vv.no_duplicates());
            }
        }
        proof {
            assert(hashes_view(queue@).skip(qi as int).len() == 0);
        }
        proof {
            let (pw, qw) = choose|pw: Seq<(int, int)>, qw: Seq<(int, int)>| #[trigger] visit_witness(
                *fs,
                hashes_view(queue@),
                hashes_view(visited@),
                qi as int,
                pw,
                qw,
            );
            reveal(visit_witness);
            assert(parents_listed_by(*fs, hashes_view(visited@), pw));
        }
        Ok(visited)
    }
}

} // verus!
