//! The storage behind the in-memory file systems: every entry below a root
//! directory, each with its full list of path segments.

use vstd::prelude::*;

use crate::assoc::{
    filt, keys_distinct, lemma_filt, lemma_lookup_index, lemma_lookup_push, lemma_lookup_some,
    seq_has, seq_lookup,
};
use crate::file_system::{FsNode, after_create_dir, after_delete, after_write, is_file, is_proper_prefix};
use crate::path::{
    has_prefix, join, join_absolute, join_segments, join_segments_absolute, lemma_segs_join,
    lemma_segs_join_absolute, seg_valid, segs, segs_valid, strs_view,
};
use crate::util::{copy_bytes, copy_strs, str_eq, strs_eq, take_strs};

verus! {

/// One entry below the root: a file with its content, or a directory.
pub struct Node {
    pub path: Vec<String>,
    pub buf: Option<Vec<u8>>,
    pub create_time: u64,
    pub update_time: u64,
}

impl Node {
    pub open spec fn pv(&self) -> Seq<Seq<char>> {
        strs_view(self.path@)
    }

    pub open spec fn kind(&self) -> FsNode {
        match self.buf {
            Some(b) => FsNode::File(b@),
            None => FsNode::Dir,
        }
    }

    pub open spec fn entry(&self) -> (Seq<Seq<char>>, FsNode) {
        (self.pv(), self.kind())
    }
}

pub fn clone_node(n: &Node) -> (r: Node)
    ensures
        r.entry() == n.entry(),
        r.create_time == n.create_time,
        r.update_time == n.update_time,
{
    let buf = match &n.buf {
        Some(b) => Some(copy_bytes(b.as_slice())),
        None => None,
    };
    Node { path: copy_strs(&n.path), buf, create_time: n.create_time, update_time: n.update_time }
}

/// The entries below a root directory.
pub struct NodeTree {
    pub nodes: Vec<Node>,
}

pub open spec fn entries_of(nodes: Seq<Node>) -> Seq<(Seq<Seq<char>>, FsNode)> {
    nodes.map_values(|n: Node| n.entry())
}

pub open spec fn path_ok(p: Seq<Seq<char>>) -> bool {
    p.len() > 0 && segs_valid(p)
}

impl NodeTree {
    pub open spec fn entries(self) -> Seq<(Seq<Seq<char>>, FsNode)> {
        entries_of(self.nodes@)
    }

    /// What is stored under a path; the root itself is a directory.
    pub open spec fn lookup(self, p: Seq<Seq<char>>) -> Option<FsNode> {
        if p.len() == 0 {
            Some(FsNode::Dir)
        } else {
            seq_lookup(self.entries(), p)
        }
    }

    /// The storage invariant: one entry per path, valid segments, and every
    /// enclosing path of an entry is a directory.
    pub open spec fn wf(self) -> bool {
        &&& keys_distinct(self.entries())
        &&& forall|i: int| 0 <= i < self.nodes@.len() ==> path_ok(#[trigger] self.nodes@[i].pv())
        &&& forall|p: Seq<Seq<char>>, k: int|
            #![trigger self.lookup(p), p.take(k)]
            self.lookup(p) is Some && 0 <= k < p.len() ==> self.lookup(p.take(k)) == Some(
                FsNode::Dir,
            )
    }

    pub fn new() -> (r: NodeTree)
        ensures
            r.wf(),
            r.nodes@.len() == 0,
            forall|q: Seq<Seq<char>>| q.len() > 0 ==> #[trigger] r.lookup(q) is None,
    {
        let r = NodeTree { nodes: Vec::new() };
        assert(r.entries() =~= Seq::<(Seq<Seq<char>>, FsNode)>::empty());
        r
    }

    /// The create and update times of the entry at `p`, where there is one.
    pub open spec fn times_at(self, p: Seq<Seq<char>>) -> Option<(u64, u64)> {
        if exists|i: int| 0 <= i < self.nodes@.len() && #[trigger] self.nodes@[i].pv() == p {
            let i = choose|i: int| 0 <= i < self.nodes@.len() && #[trigger] self.nodes@[i].pv() == p;
            Some((self.nodes@[i].create_time, self.nodes@[i].update_time))
        } else {
            None
        }
    }

    /// In a well-formed tree the entry at a path is the one node there.
    pub proof fn lemma_times_at(self, i: int)
        requires
            self.wf(),
            0 <= i < self.nodes@.len(),
        ensures
            self.times_at(self.nodes@[i].pv()) == Some((self.nodes@[i].create_time, self.nodes@[i].update_time)),
    {
        let p = self.nodes@[i].pv();
        let j = choose|j: int| 0 <= j < self.nodes@.len() && #[trigger] self.nodes@[j].pv() == p;
        assert(self.entries()[i] == self.nodes@[i].entry());
        assert(self.entries()[j] == self.nodes@[j].entry());
        if i != j {
            assert(self.entries()[i].0 != self.entries()[j].0);
        }
    }

    /// A path that holds an entry is made of valid segments.
    pub proof fn lemma_lookup_valid(self, q: Seq<Seq<char>>)
        requires
            self.wf(),
            q.len() > 0,
            self.lookup(q) is Some,
        ensures
            segs_valid(q),
    {
        crate::assoc::lemma_as_map(self.entries(), q);
        let i = crate::assoc::lemma_lookup_some(self.entries(), q);
        assert(self.entries()[i] == self.nodes@[i].entry());
        assert(path_ok(self.nodes@[i].pv()));
    }

    pub proof fn lemma_entry(self, i: int)
        requires
            self.wf(),
            0 <= i < self.nodes@.len(),
        ensures
            self.lookup(self.nodes@[i].pv()) == Some(self.nodes@[i].kind()),
            self.nodes@[i].pv().len() > 0,
    {
        assert(self.entries()[i] == self.nodes@[i].entry());
        lemma_lookup_index(self.entries(), i);
        assert(path_ok(self.nodes@[i].pv()));
    }

    pub proof fn lemma_distinct_nodes(self, i: int, j: int)
        requires
            self.wf(),
            0 <= i < self.nodes@.len(),
            0 <= j < self.nodes@.len(),
            i != j,
        ensures
            self.nodes@[i].pv() != self.nodes@[j].pv(),
    {
        assert(self.entries()[i] == self.nodes@[i].entry());
        assert(self.entries()[j] == self.nodes@[j].entry());
        assert(self.entries()[i].0 != self.entries()[j].0);
    }

    /// The index of the entry stored under a path.
    pub fn find(&self, p: &Vec<String>) -> (r: Option<usize>)
        requires
            self.wf(),
        ensures
            match r {
                Some(i) => i < self.nodes@.len() && self.nodes@[i as int].pv() == strs_view(p@),
                None => !seq_has(self.entries(), strs_view(p@)),
            },
    {
        let mut i: usize = 0;
        while i < self.nodes.len()
            invariant
                i <= self.nodes@.len(),
                forall|j: int| 0 <= j < i ==> self.nodes@[j].pv() != strs_view(p@),
            decreases self.nodes@.len() - i,
        {
            if strs_eq(&self.nodes[i].path, p) {
                return Some(i);
            }
            i = i + 1;
        }
        assert(!seq_has(self.entries(), strs_view(p@))) by {
            if seq_has(self.entries(), strs_view(p@)) {
                let j = choose|j: int|
                    0 <= j < self.entries().len() && #[trigger] self.entries()[j].0 == strs_view(
                        p@,
                    );
                assert(self.entries()[j] == self.nodes@[j].entry());
            }
        }
        None
    }
}

/// Keeps the entries that do not lie at or below `p`.
pub open spec fn outside(p: Seq<Seq<char>>) -> spec_fn(Seq<Seq<char>>, FsNode) -> bool {
    |k: Seq<Seq<char>>, v: FsNode| !has_prefix(k, p)
}

pub proof fn lemma_strs_view_take(v: Seq<String>, k: int)
    requires
        0 <= k <= v.len(),
    ensures
        strs_view(v.take(k)) == strs_view(v).take(k),
{
    assert(strs_view(v.take(k)) =~= strs_view(v).take(k));
}

pub proof fn lemma_prefix_take(q: Seq<Seq<char>>, k: int)
    requires
        0 <= k <= q.len(),
    ensures
        has_prefix(q, q.take(k)),
        q.take(k).len() == k,
{
    assert(q.subrange(0, k) =~= q.take(k));
}

pub proof fn lemma_prefix_trans(a: Seq<Seq<char>>, b: Seq<Seq<char>>, c: Seq<Seq<char>>)
    requires
        has_prefix(a, b),
        has_prefix(b, c),
    ensures
        has_prefix(a, c),
{
    assert(a.subrange(0, c.len() as int) =~= b.subrange(0, c.len() as int));
}

pub proof fn lemma_prefix_is_take(q: Seq<Seq<char>>, p: Seq<Seq<char>>)
    requires
        has_prefix(p, q),
    ensures
        q == p.take(q.len() as int),
{
    assert(q =~= p.take(q.len() as int));
}

/// `pre` is an initial run of the segments of `p`.
pub fn strs_prefix(pre: &Vec<String>, p: &Vec<String>) -> (r: bool)
    ensures
        r == has_prefix(strs_view(p@), strs_view(pre@)),
{
    let ghost pv = strs_view(p@);
    let ghost prv = strs_view(pre@);
    if pre.len() > p.len() {
        return false;
    }
    let mut i: usize = 0;
    while i < pre.len()
        invariant
            pre.len() <= p.len(),
            pv == strs_view(p@),
            prv == strs_view(pre@),
            i <= pre.len(),
            forall|j: int| 0 <= j < i ==> pv[j] == prv[j],
        decreases pre.len() - i,
    {
        if !str_eq(pre[i].as_str(), p[i].as_str()) {
            assert(pv.subrange(0, prv.len() as int)[i as int] == pv[i as int]);
            return false;
        }
        i = i + 1;
    }
    assert(pv.subrange(0, prv.len() as int) =~= prv);
    true
}

/// The index of the node stored under a path, in a plain list of nodes.
pub fn find_in(nodes: &Vec<Node>, p: &Vec<String>) -> (r: Option<usize>)
    ensures
        match r {
            Some(i) => i < nodes@.len() && nodes@[i as int].pv() == strs_view(p@),
            None => !seq_has(entries_of(nodes@), strs_view(p@)),
        },
{
    let mut i: usize = 0;
    while i < nodes.len()
        invariant
            i <= nodes@.len(),
            forall|j: int| 0 <= j < i ==> nodes@[j].pv() != strs_view(p@),
        decreases nodes@.len() - i,
    {
        if strs_eq(&nodes[i].path, p) {
            return Some(i);
        }
        i = i + 1;
    }
    assert(!seq_has(entries_of(nodes@), strs_view(p@))) by {
        if seq_has(entries_of(nodes@), strs_view(p@)) {
            let j = choose|j: int|
                0 <= j < entries_of(nodes@).len() && #[trigger] entries_of(nodes@)[j].0
                    == strs_view(p@);
            assert(entries_of(nodes@)[j] == nodes@[j].entry());
        }
    }
    None
}

impl NodeTree {
    /// Some enclosing path of `p`, below the root, holds a file.
    pub open spec fn file_above(self, p: Seq<Seq<char>>) -> bool {
        exists|k: int| 0 < k < p.len() && #[trigger] is_file(self.lookup(p.take(k)))
    }

    /// Looks for a file on the enclosing paths of `p` (the first `upto - 1` of them).
    fn check_file_above(&self, p: &Vec<String>, upto: usize) -> (r: bool)
        requires
            self.wf(),
            upto <= p@.len(),
        ensures
            r == exists|k: int| 0 < k < upto && #[trigger] is_file(self.lookup(strs_view(p@).take(k))),
    {
        let ghost pv = strs_view(p@);
        let mut k: usize = 1;
        while k < upto
            invariant
                upto <= p@.len(),
                pv == strs_view(p@),
                1 <= k,
                k <= upto || upto == 0,
                self.wf(),
                forall|j: int| 0 < j < k ==> !is_file(#[trigger] self.lookup(pv.take(j))),
            decreases upto - k,
        {
            let pre = take_strs(p, k);
            proof {
                lemma_strs_view_take(p@, k as int);
            }
            match self.find(&pre) {
                Some(i) => {
                    proof {
                        self.lemma_entry(i as int);
                    }
                    if self.nodes[i].buf.is_some() {
                        assert(is_file(self.lookup(pv.take(k as int))));
                        return true;
                    }
                },
                None => {},
            }
            k = k + 1;
        }
        false
    }

    /// Writes a file at `p`, creating the enclosing directories. Fails, changing
    /// nothing, where an enclosing path holds a file.
    pub fn write_file(&mut self, p: &Vec<String>, buf: Vec<u8>, now: u64) -> (ok: bool)
        requires
            old(self).wf(),
            path_ok(strs_view(p@)),
        ensures
            final(self).wf(),
            ok == !old(self).file_above(strs_view(p@)),
            ok ==> forall|q: Seq<Seq<char>>|
                #[trigger] final(self).lookup(q) == after_write(
                    old(self).lookup(q),
                    q,
                    strs_view(p@),
                    buf@,
                ),
            !ok ==> final(self).entries() == old(self).entries(),
            ok ==> final(self).times_at(strs_view(p@)) == Some(
                (
                    if is_file(old(self).lookup(strs_view(p@))) {
                        old(self).times_at(strs_view(p@))->Some_0.0
                    } else {
                        now
                    },
                    now,
                ),
            ),
            ok ==> forall|k: int|
                0 < k < strs_view(p@).len() ==> (#[trigger] final(self).times_at(strs_view(p@).take(k)) matches Some(t) && t.1
                    == now),
    {
        let ghost pv = strs_view(p@);
        if self.check_file_above(p, p.len()) {
            return false;
        }
        assert(!old(self).file_above(pv));
        let ctime = match self.find(p) {
            Some(i) => {
                proof {
                    self.lemma_entry(i as int);
                    self.lemma_times_at(i as int);
                }
                if self.nodes[i].buf.is_some() {
                    self.nodes[i].create_time
                } else {
                    now
                }
            },
            None => now,
        };
        // keep what lies outside `p`
        let ghost keep = outside(pv);
        let ghost ents = self.entries();
        let mut out: Vec<Node> = Vec::new();
        let mut i: usize = 0;
        assert(ents.take(0) =~= Seq::<(Seq<Seq<char>>, FsNode)>::empty());
        assert(entries_of(out@) =~= Seq::<(Seq<Seq<char>>, FsNode)>::empty());
        while i < self.nodes.len()
            invariant
                i <= self.nodes@.len(),
                *self == *old(self),
                ents == self.entries(),
                pv == strs_view(p@),
                keep == outside(pv),
                entries_of(out@) == filt(ents.take(i as int), keep),
                forall|j: int| 0 <= j < out@.len() ==> path_ok(#[trigger] out@[j].pv()),
                forall|j: int| 0 <= j < out@.len() && is_proper_prefix(#[trigger] out@[j].pv(), pv) ==> out@[j].update_time == now,
                old(self).wf(),
            decreases self.nodes@.len() - i,
        {
            assert(ents.take(i + 1).drop_last() =~= ents.take(i as int));
            assert(ents.take(i + 1).last() == self.nodes@[i as int].entry());
            assert(path_ok(self.nodes@[i as int].pv()));
            if !strs_prefix(p, &self.nodes[i].path) {
                let mut c = clone_node(&self.nodes[i]);
                if strs_prefix(&self.nodes[i].path, p) {
                    c.update_time = now;
                }
                let ghost before = entries_of(out@);
                out.push(c);
                assert(entries_of(out@) =~= before.push(c.entry()));
                assert(keep(ents.take(i + 1).last().0, ents.take(i + 1).last().1));
                assert(filt(ents.take(i + 1), keep) == filt(ents.take(i as int), keep).push(
                    ents.take(i + 1).last(),
                ));
            } else {
                assert(!keep(ents.take(i + 1).last().0, ents.take(i + 1).last().1));
                assert(filt(ents.take(i + 1), keep) == filt(ents.take(i as int), keep));
            }
            i = i + 1;
        }
        assert(ents.take(self.nodes@.len() as int) =~= ents);
        proof {
            lemma_filt(ents, keep);
        }
        // the enclosing directories
        let ghost base = filt(ents, keep);
        let mut k: usize = 1;
        while k < p.len()
            invariant
                1 <= k <= p@.len(),
                pv == strs_view(p@),
                path_ok(pv),
                keys_distinct(entries_of(out@)),
                forall|j: int| 0 <= j < out@.len() ==> path_ok(#[trigger] out@[j].pv()),
                forall|j: int| 0 <= j < out@.len() && is_proper_prefix(#[trigger] out@[j].pv(), pv) ==> out@[j].update_time == now,
                forall|q: Seq<Seq<char>>|
                    #[trigger] seq_lookup(entries_of(out@), q) == if q.len() > 0 && is_proper_prefix(q, pv) && q.len() < k {
                        Some(FsNode::Dir)
                    } else {
                        seq_lookup(base, q)
                    },
                forall|q: Seq<Seq<char>>|
                    #[trigger] seq_lookup(base, q) == match seq_lookup(ents, q) {
                        Some(v) => if keep(q, v) {
                            Some(v)
                        } else {
                            None
                        },
                        None => None,
                    },
                ents == old(self).entries(),
                old(self).wf(),
                !old(self).file_above(pv),
                keep == outside(pv),
            decreases p@.len() - k,
        {
            let pre = take_strs(p, k);
            proof {
                lemma_strs_view_take(p@, k as int);
                lemma_prefix_take(pv, k as int);
                assert(segs_valid(pv.take(k as int))) by {
                    assert forall|j: int| 0 <= j < pv.take(k as int).len() implies seg_valid(
                        #[trigger] pv.take(k as int)[j],
                    ) by {
                        assert(pv.take(k as int)[j] == pv[j]);
                    }
                }
            }
            let ghost pk = pv.take(k as int);
            match find_in(&out, &pre) {
                Some(j) => {
                    proof {
                        // it was there before, and it is no file
                        assert(entries_of(out@)[j as int] == out@[j as int].entry());
                        assert(out@[j as int].pv() == pk);
                        assert(entries_of(out@)[j as int].0 == pk);
                        assert(seq_has(entries_of(out@), pk));
                        assert(seq_lookup(entries_of(out@), pk) is Some);
                        assert(!is_file(old(self).lookup(pk)));
                        assert(!has_prefix(pk, pv));
                        assert(seq_lookup(base, pk) == seq_lookup(ents, pk));
                        assert(old(self).lookup(pk) == seq_lookup(ents, pk));
                    }
                },
                None => {
                    let n = Node { path: pre, buf: None, create_time: now, update_time: now };
                    let ghost before = entries_of(out@);
                    out.push(n);
                    proof {
                        assert(entries_of(out@) =~= before.push((pk, FsNode::Dir)));
                        lemma_lookup_push(before, pk, FsNode::Dir);
                    }
                },
            }
            proof {
                assert forall|q: Seq<Seq<char>>|
                    #[trigger] seq_lookup(entries_of(out@), q) == if q.len() > 0 && is_proper_prefix(q, pv) && q.len() < k + 1 {
                        Some(FsNode::Dir)
                    } else {
                        seq_lookup(base, q)
                    } by {
                    if q.len() > 0 && is_proper_prefix(q, pv) && q.len() == k {
                        lemma_prefix_is_take(q, pv);
                        if seq_lookup(base, pk) is Some {
                            assert(!has_prefix(pk, pv));
                            assert(old(self).lookup(pk) == seq_lookup(ents, pk));
                            assert(!is_file(old(self).lookup(pk)));
                        }
                    }
                }
            }
            k = k + 1;
        }
        // the file itself
        let ghost before = entries_of(out@);
        proof {
            lemma_prefix_take(pv, pv.len() as int);
            assert(pv.take(pv.len() as int) =~= pv);
            if seq_has(before, pv) {
                let j = lemma_lookup_some(before, pv);
            }
        }
        let n = Node { path: copy_strs(p), buf: Some(buf), create_time: ctime, update_time: now };
        out.push(n);
        proof {
            assert(entries_of(out@) =~= before.push((pv, FsNode::File(buf@))));
            lemma_lookup_push(before, pv, FsNode::File(buf@));
        }
        self.nodes = out;
        proof {
            let newt = *self;
            let oldt = *old(self);
            if !is_file(oldt.lookup(pv)) {
                assert(ctime == now) by {
                    if seq_has(oldt.entries(), pv) {
                        let i = lemma_lookup_some(oldt.entries(), pv);
                        assert(oldt.entries()[i] == oldt.nodes@[i].entry());
                    }
                }
            }
            assert forall|q: Seq<Seq<char>>|
                #[trigger] newt.lookup(q) == after_write(oldt.lookup(q), q, pv, buf@) by {
                if q.len() == 0 {
                    lemma_prefix_take(pv, 0);
                    assert(q =~= pv.take(0));
                }
            }
            assert forall|j: int| 0 <= j < newt.nodes@.len() implies path_ok(
                #[trigger] newt.nodes@[j].pv(),
            ) by {}
            assert(newt.wf()) by {
                assert forall|r: Seq<Seq<char>>, k: int|
                    #![trigger newt.lookup(r), r.take(k)]
                    newt.lookup(r) is Some && 0 <= k < r.len() implies newt.lookup(r.take(k)) == Some(
                        FsNode::Dir,
                    ) by {
                    lemma_prefix_take(r, k);
                    let rk = r.take(k);
                    if r == pv || is_proper_prefix(r, pv) {
                        lemma_prefix_trans(pv, r, rk);
                    } else {
                        assert(!has_prefix(r, pv));
                        assert(oldt.lookup(r) is Some);
                        assert(oldt.lookup(rk) == Some(FsNode::Dir));
                        if has_prefix(rk, pv) {
                            lemma_prefix_trans(r, rk, pv);
                        }
                    }
                }
            }
            newt.lemma_times_at(newt.nodes@.len() - 1);
            assert forall|k: int| 0 < k < pv.len() implies (#[trigger] newt.times_at(pv.take(k)) matches Some(t) && t.1 == now) by {
                let pk = pv.take(k);
                lemma_prefix_take(pv, k);
                assert(newt.lookup(pk) == after_write(oldt.lookup(pk), pk, pv, buf@));
                assert(is_proper_prefix(pk, pv));
                assert(newt.lookup(pk) == Some(FsNode::Dir));
                assert(seq_has(newt.entries(), pk));
                let j = lemma_lookup_some(newt.entries(), pk);
                assert(newt.entries()[j] == newt.nodes@[j].entry());
                newt.lemma_times_at(j);
            }
            assert forall|r: Seq<Seq<char>>, k: int|
                #![trigger newt.lookup(r), r.take(k)]
                newt.lookup(r) is Some && 0 <= k < r.len() implies newt.lookup(r.take(k)) == Some(
                    FsNode::Dir,
                ) by {
                lemma_prefix_take(r, k);
                let rk = r.take(k);
                if r == pv || is_proper_prefix(r, pv) {
                    lemma_prefix_trans(pv, r, rk);
                } else {
                    assert(!has_prefix(r, pv));
                    assert(oldt.lookup(r) is Some);
                    assert(oldt.lookup(rk) == Some(FsNode::Dir));
                    if has_prefix(rk, pv) {
                        lemma_prefix_trans(r, rk, pv);
                    }
                }
            }
        }
        true
    }
}

/// Whether some path at or above `p` (below the root) holds a file.
pub open spec fn file_at_or_above(t: NodeTree, p: Seq<Seq<char>>) -> bool {
    t.file_above(p) || is_file(t.lookup(p))
}

impl NodeTree {
    /// Sets the update time of the entry at index `i`.
    fn touch(&mut self, i: usize, now: u64)
        requires
            old(self).wf(),
            i < old(self).nodes@.len(),
        ensures
            final(self).wf(),
            final(self).entries() == old(self).entries(),
            final(self).nodes@.len() == old(self).nodes@.len(),
            final(self).nodes@[i as int].update_time == now,
            final(self).nodes@[i as int].create_time == old(self).nodes@[i as int].create_time,
            forall|j: int| 0 <= j < old(self).nodes@.len() && j != i ==> #[trigger] final(self).nodes@[j] == old(
                self,
            ).nodes@[j],
    {
        let mut n = clone_node(&self.nodes[i]);
        n.update_time = now;
        self.nodes.set(i, n);
        assert(self.entries() =~= old(self).entries());
        assert forall|j: int| 0 <= j < self.nodes@.len() implies path_ok(#[trigger] self.nodes@[j].pv()) by {
            assert(self.entries()[j] == self.nodes@[j].entry());
            assert(old(self).entries()[j] == old(self).nodes@[j].entry());
            assert(path_ok(old(self).nodes@[j].pv()));
        }
        assert forall|r: Seq<Seq<char>>, k: int|
            #![trigger self.lookup(r), r.take(k)]
            self.lookup(r) is Some && 0 <= k < r.len() implies self.lookup(r.take(k)) == Some(
                FsNode::Dir,
            ) by {
            assert(old(self).lookup(r) == self.lookup(r));
            assert(old(self).lookup(r.take(k)) == self.lookup(r.take(k)));
        }
    }

    /// Creates the directory `p` and its enclosing directories. Fails, changing
    /// nothing, where `p` or an enclosing path holds a file.
    pub fn create_dir(&mut self, p: &Vec<String>, now: u64) -> (ok: bool)
        requires
            old(self).wf(),
            segs_valid(strs_view(p@)),
        ensures
            final(self).wf(),
            ok == !file_at_or_above(*old(self), strs_view(p@)),
            ok ==> forall|q: Seq<Seq<char>>|
                #[trigger] final(self).lookup(q) == after_create_dir(old(self).lookup(q), q, strs_view(p@)),
            !ok ==> final(self).entries() == old(self).entries(),
            ok ==> forall|k: int|
                0 < k <= strs_view(p@).len() ==> (#[trigger] final(self).times_at(strs_view(p@).take(k)) matches Some(t) && t.1
                    == now),
    {
        let ghost pv = strs_view(p@);
        if self.check_file_above(p, p.len()) {
            return false;
        }
        match self.find(p) {
            Some(i) => {
                proof {
                    self.lemma_entry(i as int);
                }
                if self.nodes[i].buf.is_some() {
                    return false;
                }
            },
            None => {},
        }
        assert(!file_at_or_above(*old(self), pv)) by {
            if p@.len() > 0 {
                assert(!is_file(old(self).lookup(pv)));
            }
        }
        let mut j: usize = 0;
        while j < p.len()
            invariant
                j <= p@.len(),
                pv == strs_view(p@),
                segs_valid(pv),
                self.wf(),
                !file_at_or_above(*old(self), pv),
                forall|q: Seq<Seq<char>>|
                    #[trigger] self.lookup(q) == if q.len() > 0 && has_prefix(pv, q) && q.len() <= j {
                        Some(FsNode::Dir)
                    } else {
                        old(self).lookup(q)
                    },
                forall|idx: int|
                    0 <= idx < self.nodes@.len() && has_prefix(pv, #[trigger] self.nodes@[idx].pv()) && 0 < self.nodes@[idx].pv().len()
                        <= j ==> self.nodes@[idx].update_time == now,
            decreases p@.len() - j,
        {
            let k = j + 1;
            let pre = take_strs(p, k);
            let ghost pk = pv.take(k as int);
            proof {
                lemma_strs_view_take(p@, k as int);
                lemma_prefix_take(pv, k as int);
                assert(segs_valid(pk)) by {
                    assert forall|j: int| 0 <= j < pk.len() implies seg_valid(#[trigger] pk[j]) by {
                        assert(pk[j] == pv[j]);
                    }
                }
                if k < p@.len() {
                    assert(!is_file(old(self).lookup(pk)));
                } else {
                    assert(pk =~= pv);
                }
            }
            let ghost before = *self;
            match self.find(&pre) {
                Some(i) => {
                    proof {
                        self.lemma_entry(i as int);
                    }
                    proof {
                        assert(before.lookup(pk) == old(self).lookup(pk));
                        assert(!is_file(old(self).lookup(pk)));
                        assert(before.lookup(pk) == Some(FsNode::Dir));
                    }
                    self.touch(i, now);
                    proof {
                        assert forall|idx: int|
                            0 <= idx < self.nodes@.len() && has_prefix(pv, #[trigger] self.nodes@[idx].pv()) && 0
                                < self.nodes@[idx].pv().len() <= k implies self.nodes@[idx].update_time == now by {
                            if idx != i {
                                assert(self.nodes@[idx] == before.nodes@[idx]);
                                if self.nodes@[idx].pv().len() == k {
                                    lemma_prefix_is_take(self.nodes@[idx].pv(), pv);
                                    assert(before.nodes@[idx].pv() == pv.take(k as int));
                                    assert(before.entries()[idx] == before.nodes@[idx].entry());
                                    assert(before.entries()[i as int] == before.nodes@[i as int].entry());
                                    assert(before.nodes@[i as int].pv() == pk);
                                    assert(before.entries()[idx].0 == before.entries()[i as int].0);
                                    assert(false);
                                }
                            }
                        }
                        assert forall|q: Seq<Seq<char>>|
                            #[trigger] self.lookup(q) == if q == pk {
                                Some(FsNode::Dir)
                            } else {
                                before.lookup(q)
                            } by {
                            assert(self.lookup(q) == before.lookup(q));
                        }
                    }
                },
                None => {
                    let n = Node { path: pre, buf: None, create_time: now, update_time: now };
                    let ghost ents = self.entries();
                    self.nodes.push(n);
                    proof {
                        assert(self.entries() =~= ents.push((pk, FsNode::Dir)));
                        lemma_lookup_push(ents, pk, FsNode::Dir);
                        let t = *self;
                        assert forall|j: int| 0 <= j < t.nodes@.len() implies path_ok(
                            #[trigger] t.nodes@[j].pv(),
                        ) by {
                            if j < before.nodes@.len() {
                                assert(t.nodes@[j] == before.nodes@[j]);
                            }
                        }
                        assert forall|r: Seq<Seq<char>>, j: int|
                            #![trigger t.lookup(r), r.take(j)]
                            t.lookup(r) is Some && 0 <= j < r.len() implies t.lookup(r.take(j))
                                == Some(FsNode::Dir) by {
                            lemma_prefix_take(r, j);
                            if r == pk {
                                lemma_prefix_trans(pv, pk, r.take(j));
                            } else {
                                assert(before.lookup(r) is Some);
                                assert(before.lookup(r.take(j)) == Some(FsNode::Dir));
                            }
                        }
                        assert forall|q: Seq<Seq<char>>|
                            #[trigger] self.lookup(q) == if q == pk {
                                Some(FsNode::Dir)
                            } else {
                                before.lookup(q)
                            } by {
                            if q.len() == 0 {
                            }
                        }
                        assert forall|idx: int|
                            0 <= idx < t.nodes@.len() && has_prefix(pv, #[trigger] t.nodes@[idx].pv()) && 0
                                < t.nodes@[idx].pv().len() <= k implies t.nodes@[idx].update_time == now by {
                            if idx < before.nodes@.len() {
                                assert(t.nodes@[idx] == before.nodes@[idx]);
                                if t.nodes@[idx].pv().len() == k {
                                    lemma_prefix_is_take(t.nodes@[idx].pv(), pv);
                                    assert(before.nodes@[idx].pv() == pv.take(k as int));
                                    assert(before.entries()[idx] == before.nodes@[idx].entry());
                                    assert(before.entries()[idx].0 == pk);
                                    assert(seq_has(before.entries(), pk));
                                    assert(false);
                                }
                            }
                        }
                    }
                },
            }
            proof {
                assert forall|q: Seq<Seq<char>>|
                    #[trigger] self.lookup(q) == if q.len() > 0 && has_prefix(pv, q) && q.len() <= k {
                        Some(FsNode::Dir)
                    } else {
                        old(self).lookup(q)
                    } by {
                    if q.len() > 0 && has_prefix(pv, q) && q.len() == k {
                        lemma_prefix_is_take(q, pv);
                        assert(q == pk);
                    }
                }
            }
            j = j + 1;
        }
        proof {
            assert forall|q: Seq<Seq<char>>|
                #[trigger] self.lookup(q) == after_create_dir(old(self).lookup(q), q, pv) by {
                if q.len() == 0 {
                    assert(has_prefix(pv, q)) by {
                        assert(pv.subrange(0, 0) =~= q);
                    }
                }
                if has_prefix(pv, q) {
                    assert(q.len() <= pv.len());
                }
            }
        }
        proof {
            let t = *self;
            assert forall|k: int| 0 < k <= pv.len() implies (#[trigger] t.times_at(pv.take(k)) matches Some(tm) && tm.1 == now) by {
                let pk = pv.take(k);
                lemma_prefix_take(pv, k);
                assert(t.lookup(pk) == after_create_dir(old(self).lookup(pk), pk, pv));
                assert(t.lookup(pk) == Some(FsNode::Dir));
                assert(seq_has(t.entries(), pk));
                let x = lemma_lookup_some(t.entries(), pk);
                assert(t.entries()[x] == t.nodes@[x].entry());
                assert(t.nodes@[x].pv() == pk);
                t.lemma_times_at(x);
            }
        }
        true
    }

    /// Removes `p` and everything below it; the root itself is never removed.
    pub fn delete(&mut self, p: &Vec<String>)
        requires
            old(self).wf(),
        ensures
            final(self).wf(),
            forall|q: Seq<Seq<char>>|
                #[trigger] final(self).lookup(q) == after_delete(old(self).lookup(q), q, strs_view(p@)),
    {
        let ghost pv = strs_view(p@);
        if p.len() == 0 {
            return;
        }
        let ghost keep = outside(pv);
        let ghost ents = self.entries();
        let mut out: Vec<Node> = Vec::new();
        let mut i: usize = 0;
        assert(ents.take(0) =~= Seq::<(Seq<Seq<char>>, FsNode)>::empty());
        assert(entries_of(out@) =~= Seq::<(Seq<Seq<char>>, FsNode)>::empty());
        while i < self.nodes.len()
            invariant
                i <= self.nodes@.len(),
                *self == *old(self),
                ents == self.entries(),
                pv == strs_view(p@),
                keep == outside(pv),
                entries_of(out@) == filt(ents.take(i as int), keep),
                forall|j: int| 0 <= j < out@.len() ==> path_ok(#[trigger] out@[j].pv()),
                old(self).wf(),
            decreases self.nodes@.len() - i,
        {
            assert(ents.take(i + 1).drop_last() =~= ents.take(i as int));
            assert(ents.take(i + 1).last() == self.nodes@[i as int].entry());
            assert(path_ok(self.nodes@[i as int].pv()));
            if !strs_prefix(p, &self.nodes[i].path) {
                let c = clone_node(&self.nodes[i]);
                let ghost before = entries_of(out@);
                out.push(c);
                assert(entries_of(out@) =~= before.push(c.entry()));
                assert(filt(ents.take(i + 1), keep) == filt(ents.take(i as int), keep).push(
                    ents.take(i + 1).last(),
                ));
            } else {
                assert(filt(ents.take(i + 1), keep) == filt(ents.take(i as int), keep));
            }
            i = i + 1;
        }
        assert(ents.take(self.nodes@.len() as int) =~= ents);
        proof {
            lemma_filt(ents, keep);
        }
        self.nodes = out;
        proof {
            let t = *self;
            let o = *old(self);
            assert forall|q: Seq<Seq<char>>|
                #[trigger] t.lookup(q) == after_delete(o.lookup(q), q, pv) by {
                if q.len() == 0 {
                    assert(!has_prefix(q, pv));
                }
            }
            assert forall|r: Seq<Seq<char>>, k: int|
                #![trigger t.lookup(r), r.take(k)]
                t.lookup(r) is Some && 0 <= k < r.len() implies t.lookup(r.take(k)) == Some(
                    FsNode::Dir,
                ) by {
                lemma_prefix_take(r, k);
                assert(o.lookup(r) is Some);
                assert(o.lookup(r.take(k)) == Some(FsNode::Dir));
                if r.take(k).len() > 0 && has_prefix(r.take(k), pv) {
                    lemma_prefix_trans(r, r.take(k), pv);
                }
            }
        }
    }
}

/// The entries strictly below `p`, with `p` taken off their paths.
pub open spec fn below(p: Seq<Seq<char>>) -> spec_fn(Seq<Seq<char>>, FsNode) -> bool {
    |k: Seq<Seq<char>>, v: FsNode| has_prefix(k, p) && k.len() > p.len()
}

pub proof fn lemma_child_shape(a: Seq<Seq<char>>, p: Seq<Seq<char>>)
    requires
        has_prefix(a, p),
        a.len() == p.len() + 1,
    ensures
        a == p.push(a.last()),
{
    assert(a =~= p.push(a.last()));
}

pub proof fn lemma_concat_prefix(p: Seq<Seq<char>>, r: Seq<Seq<char>>)
    ensures
        has_prefix(p + r, p),
        (p + r).subrange(p.len() as int, (p + r).len() as int) == r,
{
    assert((p + r).subrange(0, p.len() as int) =~= p);
    assert((p + r).subrange(p.len() as int, (p + r).len() as int) =~= r);
}

pub proof fn lemma_split_prefix(a: Seq<Seq<char>>, p: Seq<Seq<char>>)
    requires
        has_prefix(a, p),
    ensures
        a == p + a.subrange(p.len() as int, a.len() as int),
{
    assert(a =~= p + a.subrange(p.len() as int, a.len() as int));
}

impl NodeTree {
    /// The names of the entries directly inside `p`.
    #[verifier::rlimit(50)]
    pub fn child_names(&self, p: &Vec<String>) -> (r: Vec<String>)
        requires
            self.wf(),
        ensures
            forall|i: int| 0 <= i < r@.len() ==> #[trigger] self.lookup(strs_view(p@).push(r@[i]@)) is Some,
            forall|x: Seq<char>|
                #[trigger] self.lookup(strs_view(p@).push(x)) is Some ==> exists|i: int|
                    0 <= i < r@.len() && #[trigger] r@[i]@ == x,
            strs_view(r@).no_duplicates(),
    {
        let ghost pv = strs_view(p@);
        let ghost ents = self.entries();
        let mut r: Vec<String> = Vec::new();
        let ghost mut src: Seq<int> = Seq::empty();
        let mut i: usize = 0;
        while i < self.nodes.len()
            invariant
                i <= self.nodes@.len(),
                pv == strs_view(p@),
                ents == self.entries(),
                self.wf(),
                src.len() == r@.len(),
                forall|a: int| 0 <= a < src.len() ==> 0 <= #[trigger] src[a] < i,
                forall|a: int|
                    #![trigger r@[a]]
                    0 <= a < r@.len() ==> self.nodes@[src[a]].pv() == pv.push(r@[a]@),
                forall|j: int|
                    0 <= j < i && has_prefix(#[trigger] self.nodes@[j].pv(), pv)
                        && self.nodes@[j].pv().len() == pv.len() + 1 ==> exists|a: int|
                        0 <= a < r@.len() && #[trigger] r@[a]@ == self.nodes@[j].pv().last(),
                strs_view(r@).no_duplicates(),
            decreases self.nodes@.len() - i,
        {
            let ghost before = r@;
            let ghost old_src = src;
            assert forall|a: int|
                #![trigger before[a]]
                0 <= a < before.len() implies 0 <= old_src[a] < i && self.nodes@[old_src[a]].pv() == pv.push(
                    before[a]@,
                ) by {
                assert(0 <= src[a] < i);
                assert(r@[a] == before[a]);
            }
            let path = &self.nodes[i].path;
            let is_child = path.len() > p.len() && path.len() - 1 == p.len() && strs_prefix(p, path);
            if is_child {
                let name = path[p.len()].clone();
                proof {
                    lemma_child_shape(self.nodes@[i as int].pv(), pv);
                    assert(self.nodes@[i as int].pv().last() == name@);
                    assert forall|a: int, b: int|
                        0 <= a < strs_view(before.push(name)).len() && 0 <= b < strs_view(
                            before.push(name),
                        ).len() && a != b implies strs_view(before.push(name))[a] != strs_view(
                        before.push(name),
                    )[b] by {
                        if a < before.len() && b < before.len() {
                            assert(strs_view(before)[a] == strs_view(before.push(name))[a]);
                            assert(strs_view(before)[b] == strs_view(before.push(name))[b]);
                        } else {
                            let c = if a < before.len() {
                                a
                            } else {
                                b
                            };
                            assert(strs_view(before.push(name))[c] == before[c]@);
                            assert(strs_view(before.push(name))[before.len() as int] == name@);
                            if before[c]@ == name@ {
                                let j = old_src[c];
                                assert(self.nodes@[j].pv() == pv.push(before[c]@));
                                self.lemma_distinct_nodes(j, i as int);
                            }
                        }
                    }
                }
                r.push(name);
                proof {
                    src = src.push(i as int);
                }
            }
            proof {
                assert forall|a: int| 0 <= a < src.len() implies 0 <= #[trigger] src[a] < i + 1 by {
                    if a < old_src.len() {
                        assert(src[a] == old_src[a]);
                    }
                }
                assert forall|a: int|
                    #![trigger r@[a]]
                    0 <= a < r@.len() implies self.nodes@[src[a]].pv() == pv.push(
                        r@[a]@,
                    ) by {
                    if a < before.len() {
                        assert(r@[a] == before[a]);
                        assert(src[a] == old_src[a]);
                        assert(before[a] == before[a]);
                    } else {
                        assert(is_child);
                        assert(src[a] == i);
                    }
                }
                assert forall|j: int|
                    0 <= j < i + 1 && has_prefix(#[trigger] self.nodes@[j].pv(), pv)
                        && self.nodes@[j].pv().len() == pv.len() + 1 implies exists|a: int|
                        0 <= a < r@.len() && #[trigger] r@[a]@ == self.nodes@[j].pv().last() by {
                    if j < i {
                        let a = choose|a: int|
                            0 <= a < before.len() && #[trigger] before[a]@ == self.nodes@[j].pv().last();
                        assert(r@[a] == before[a]);
                    } else {
                        assert(is_child);
                        assert(r@[r@.len() - 1]@ == self.nodes@[j].pv().last());
                    }
                }
            }
            i = i + 1;
        }
        proof {
            assert forall|x: Seq<char>|
                #[trigger] self.lookup(pv.push(x)) is Some implies exists|i: int|
                    0 <= i < r@.len() && #[trigger] r@[i]@ == x by {
                let j = lemma_lookup_some(ents, pv.push(x));
                assert(ents[j] == self.nodes@[j].entry());
                assert(pv.push(x).subrange(0, pv.len() as int) =~= pv);
                assert(pv.push(x).last() == x);
            }
            assert forall|a: int| 0 <= a < r@.len() implies #[trigger] self.lookup(pv.push(r@[a]@)) is Some by {
                let j = src[a];
                self.lemma_entry(j);
            }
        }
        r
    }

    /// The files strictly below `p`, each as its path relative to `p`.
    #[verifier::rlimit(50)]
    pub fn files_below(&self, p: &Vec<String>) -> (r: Vec<Vec<String>>)
        requires
            self.wf(),
        ensures
            forall|i: int|
                0 <= i < r@.len() ==> #[trigger] is_file(self.lookup(strs_view(p@) + strs_view(r@[i]@)))
                    && path_ok(strs_view(r@[i]@)),
            forall|q: Seq<Seq<char>>|
                has_prefix(q, strs_view(p@)) && q.len() > strs_view(p@).len() && #[trigger] is_file(
                    self.lookup(q),
                ) ==> exists|i: int| 0 <= i < r@.len() && strs_view(p@) + strs_view(#[trigger] r@[i]@) == q,
            forall|i: int, j: int|
                0 <= i < r@.len() && 0 <= j < r@.len() && i != j ==> strs_view(#[trigger] r@[i]@)
                    != strs_view(#[trigger] r@[j]@),
    {
        let ghost pv = strs_view(p@);
        let ghost ents = self.entries();
        let mut r: Vec<Vec<String>> = Vec::new();
        let ghost mut src: Seq<int> = Seq::empty();
        let mut i: usize = 0;
        while i < self.nodes.len()
            invariant
                i <= self.nodes@.len(),
                pv == strs_view(p@),
                ents == self.entries(),
                self.wf(),
                src.len() == r@.len(),
                forall|a: int| 0 <= a < src.len() ==> 0 <= #[trigger] src[a] < i,
                forall|a: int|
                    #![trigger r@[a]]
                    0 <= a < r@.len() ==> self.nodes@[src[a]].pv() == pv + strs_view(r@[a]@)
                        && self.nodes@[src[a]].buf is Some && strs_view(r@[a]@).len() > 0,
                forall|j: int|
                    0 <= j < i && has_prefix(#[trigger] self.nodes@[j].pv(), pv)
                        && self.nodes@[j].pv().len() > pv.len() && self.nodes@[j].buf is Some
                        ==> exists|a: int| 0 <= a < r@.len() && pv + strs_view(#[trigger] r@[a]@) == self.nodes@[j].pv(),
                forall|a: int, b: int|
                    0 <= a < r@.len() && 0 <= b < r@.len() && a != b ==> strs_view(#[trigger] r@[a]@)
                        != strs_view(#[trigger] r@[b]@),
            decreases self.nodes@.len() - i,
        {
            let ghost before = r@;
            let ghost old_src = src;
            assert forall|a: int|
                #![trigger before[a]]
                0 <= a < before.len() implies 0 <= old_src[a] < i && self.nodes@[old_src[a]].pv() == pv
                    + strs_view(before[a]@) && self.nodes@[old_src[a]].buf is Some && strs_view(
                    before[a]@,
                ).len() > 0 by {
                assert(0 <= src[a] < i);
                assert(r@[a] == before[a]);
            }
            let path = &self.nodes[i].path;
            let is_file_below = self.nodes[i].buf.is_some() && path.len() > p.len() && strs_prefix(p, path);
            if is_file_below {
                let mut rel: Vec<String> = Vec::new();
                let mut k: usize = p.len();
                while k < path.len()
                    invariant
                        p@.len() <= k <= path@.len(),
                        rel@ == path@.subrange(p@.len() as int, k as int),
                    decreases path@.len() - k,
                {
                    rel.push(path[k].clone());
                    assert(path@.subrange(p@.len() as int, k + 1) =~= path@.subrange(
                        p@.len() as int,
                        k as int,
                    ).push(path@[k as int]));
                    k = k + 1;
                }
                let ghost np = self.nodes@[i as int].pv();
                proof {
                    assert(strs_view(rel@) =~= np.subrange(pv.len() as int, np.len() as int));
                    lemma_split_prefix(np, pv);
                    assert forall|a: int| 0 <= a < before.len() implies strs_view(#[trigger] before[a]@)
                        != strs_view(rel@) by {
                        if strs_view(before[a]@) == strs_view(rel@) {
                            assert(before[a] == before[a]);
                            let j = old_src[a];
                            self.lemma_distinct_nodes(j, i as int);
                        }
                    }
                }
                r.push(rel);
                proof {
                    src = src.push(i as int);
                }
            }
            proof {
                assert forall|a: int| 0 <= a < src.len() implies 0 <= #[trigger] src[a] < i + 1 by {
                    if a < old_src.len() {
                        assert(src[a] == old_src[a]);
                    }
                }
                assert forall|a: int|
                    #![trigger r@[a]]
                    0 <= a < r@.len() implies self.nodes@[src[a]].pv() == pv
                        + strs_view(r@[a]@) && self.nodes@[src[a]].buf is Some && strs_view(r@[a]@).len()
                        > 0 by {
                    if a < before.len() {
                        assert(r@[a] == before[a]);
                        assert(src[a] == old_src[a]);
                        assert(before[a] == before[a]);
                    } else {
                        assert(is_file_below);
                        assert(src[a] == i);
                    }
                }
                assert forall|j: int|
                    0 <= j < i + 1 && has_prefix(#[trigger] self.nodes@[j].pv(), pv)
                        && self.nodes@[j].pv().len() > pv.len() && self.nodes@[j].buf is Some
                        implies exists|a: int| 0 <= a < r@.len() && pv + strs_view(#[trigger] r@[a]@)
                        == self.nodes@[j].pv() by {
                    if j < i {
                        let a = choose|a: int|
                            0 <= a < before.len() && pv + strs_view(#[trigger] before[a]@)
                                == self.nodes@[j].pv();
                        assert(r@[a] == before[a]);
                    } else {
                        assert(is_file_below);
                        let a = r@.len() - 1;
                        assert(src[a] == i);
                        assert(pv + strs_view(r@[a]@) == self.nodes@[j].pv());
                    }
                }
                assert forall|a: int, b: int|
                    0 <= a < r@.len() && 0 <= b < r@.len() && a != b implies strs_view(#[trigger] r@[a]@)
                        != strs_view(#[trigger] r@[b]@) by {
                    if a < before.len() && b < before.len() {
                        assert(r@[a] == before[a]);
                        assert(r@[b] == before[b]);
                    } else if a < before.len() {
                        assert(r@[a] == before[a]);
                    } else if b < before.len() {
                        assert(r@[b] == before[b]);
                    }
                }
            }
            i = i + 1;
        }
        proof {
            assert forall|a: int| 0 <= a < r@.len() implies #[trigger] is_file(
                self.lookup(pv + strs_view(r@[a]@)),
            ) && path_ok(strs_view(r@[a]@)) by {
                assert(r@[a] == r@[a]);
                let j = src[a];
                self.lemma_entry(j);
                let q = self.nodes@[j].pv();
                assert(path_ok(q));
                assert forall|m: int| 0 <= m < strs_view(r@[a]@).len() implies seg_valid(
                    #[trigger] strs_view(r@[a]@)[m],
                ) by {
                    assert(q[pv.len() + m] == strs_view(r@[a]@)[m]);
                }
            }
            assert forall|q: Seq<Seq<char>>|
                has_prefix(q, pv) && q.len() > pv.len() && #[trigger] is_file(self.lookup(q))
                    implies exists|a: int| 0 <= a < r@.len() && pv + strs_view(#[trigger] r@[a]@) == q by {
                let j = lemma_lookup_some(ents, q);
                assert(ents[j] == self.nodes@[j].entry());
            }
        }
        r
    }
}

impl NodeTree {
    /// The entries below `p`, as a tree of their own rooted at `p`.
    #[verifier::rlimit(50)]
    pub fn subtree(&self, p: &Vec<String>) -> (r: NodeTree)
        requires
            self.wf(),
        ensures
            r.wf(),
            forall|q: Seq<Seq<char>>|
                q.len() > 0 ==> #[trigger] r.lookup(q) == self.lookup(strs_view(p@) + q),
    {
        let ghost pv = strs_view(p@);
        let ghost ents = self.entries();
        let mut out: Vec<Node> = Vec::new();
        let ghost mut src: Seq<int> = Seq::empty();
        let mut i: usize = 0;
        while i < self.nodes.len()
            invariant
                i <= self.nodes@.len(),
                pv == strs_view(p@),
                ents == self.entries(),
                self.wf(),
                src.len() == out@.len(),
                forall|a: int| 0 <= a < src.len() ==> 0 <= #[trigger] src[a] < i,
                forall|a: int|
                    #![trigger out@[a]]
                    0 <= a < out@.len() ==> self.nodes@[src[a]].pv() == pv + out@[a].pv()
                        && self.nodes@[src[a]].kind() == out@[a].kind() && path_ok(out@[a].pv()),
                forall|j: int|
                    0 <= j < i && has_prefix(#[trigger] self.nodes@[j].pv(), pv)
                        && self.nodes@[j].pv().len() > pv.len() ==> exists|a: int|
                        0 <= a < out@.len() && pv + #[trigger] out@[a].pv() == self.nodes@[j].pv(),
                keys_distinct(entries_of(out@)),
            decreases self.nodes@.len() - i,
        {
            let ghost before = out@;
            let ghost old_src = src;
            assert forall|a: int|
                #![trigger before[a]]
                0 <= a < before.len() implies 0 <= old_src[a] < i && self.nodes@[old_src[a]].pv() == pv
                    + before[a].pv() by {
                assert(0 <= src[a] < i);
                assert(out@[a] == before[a]);
            }
            let path = &self.nodes[i].path;
            let is_below = path.len() > p.len() && strs_prefix(p, path);
            if is_below {
                let mut rel: Vec<String> = Vec::new();
                let mut k: usize = p.len();
                while k < path.len()
                    invariant
                        p@.len() <= k <= path@.len(),
                        rel@ == path@.subrange(p@.len() as int, k as int),
                    decreases path@.len() - k,
                {
                    rel.push(path[k].clone());
                    assert(path@.subrange(p@.len() as int, k + 1) =~= path@.subrange(
                        p@.len() as int,
                        k as int,
                    ).push(path@[k as int]));
                    k = k + 1;
                }
                let buf = match &self.nodes[i].buf {
                    Some(b) => Some(copy_bytes(b.as_slice())),
                    None => None,
                };
                let n = Node {
                    path: rel,
                    buf,
                    create_time: self.nodes[i].create_time,
                    update_time: self.nodes[i].update_time,
                };
                let ghost np = self.nodes@[i as int].pv();
                proof {
                    assert(n.pv() =~= np.subrange(pv.len() as int, np.len() as int));
                    lemma_split_prefix(np, pv);
                    assert(path_ok(np));
                    assert forall|m: int| 0 <= m < n.pv().len() implies seg_valid(#[trigger] n.pv()[m]) by {
                        assert(np[pv.len() + m] == n.pv()[m]);
                    }
                    assert(!seq_has(entries_of(before), n.pv())) by {
                        if seq_has(entries_of(before), n.pv()) {
                            let a = choose|a: int|
                                0 <= a < entries_of(before).len() && #[trigger] entries_of(before)[a].0
                                    == n.pv();
                            assert(entries_of(before)[a] == before[a].entry());
                            let j = old_src[a];
                            assert(self.nodes@[j].pv() == pv + before[a].pv());
                            self.lemma_distinct_nodes(j, i as int);
                        }
                    }
                    lemma_lookup_push(entries_of(before), n.pv(), n.kind());
                }
                out.push(n);
                proof {
                    assert(entries_of(out@) =~= entries_of(before).push(n.entry()));
                    src = src.push(i as int);
                }
            }
            proof {
                assert forall|a: int| 0 <= a < src.len() implies 0 <= #[trigger] src[a] < i + 1 by {
                    if a < old_src.len() {
                        assert(src[a] == old_src[a]);
                    }
                }
                assert forall|a: int|
                    #![trigger out@[a]]
                    0 <= a < out@.len() implies self.nodes@[src[a]].pv() == pv + out@[a].pv()
                        && self.nodes@[src[a]].kind() == out@[a].kind() && path_ok(out@[a].pv()) by {
                    if a < before.len() {
                        assert(out@[a] == before[a]);
                        assert(src[a] == old_src[a]);
                    } else {
                        assert(src[a] == i);
                    }
                }
                assert forall|j: int|
                    0 <= j < i + 1 && has_prefix(#[trigger] self.nodes@[j].pv(), pv)
                        && self.nodes@[j].pv().len() > pv.len() implies exists|a: int|
                        0 <= a < out@.len() && pv + #[trigger] out@[a].pv() == self.nodes@[j].pv() by {
                    if j < i {
                        let a = choose|a: int|
                            0 <= a < before.len() && pv + #[trigger] before[a].pv() == self.nodes@[j].pv();
                        assert(out@[a] == before[a]);
                    } else {
                        let a = out@.len() - 1;
                        assert(src[a] == i);
                        assert(pv + out@[a].pv() == self.nodes@[j].pv());
                    }
                }
            }
            i = i + 1;
        }
        let r = NodeTree { nodes: out };
        proof {
            assert forall|q: Seq<Seq<char>>| q.len() > 0 implies #[trigger] r.lookup(q) == self.lookup(pv + q) by {
                assert(r.entries() == entries_of(out@));
                if seq_has(r.entries(), q) {
                    let a = lemma_lookup_some(r.entries(), q);
                    assert(r.entries()[a] == out@[a].entry());
                    assert(out@[a].pv() == q);
                    let j = src[a];
                    assert(0 <= j < self.nodes@.len());
                    assert(self.nodes@[j].pv() == pv + out@[a].pv());
                    self.lemma_entry(j);
                    assert(self.lookup(pv + q) == Some(out@[a].kind()));
                    assert(r.lookup(q) == Some(out@[a].kind()));
                } else if self.lookup(pv + q) is Some {
                    assert((pv + q).len() > 0);
                    assert(seq_has(ents, pv + q));
                    let j = lemma_lookup_some(ents, pv + q);
                    assert(ents[j] == self.nodes@[j].entry());
                    lemma_concat_prefix(pv, q);
                    assert(has_prefix(self.nodes@[j].pv(), pv));
                    assert(self.nodes@[j].pv().len() > pv.len());
                    let a = choose|a: int| 0 <= a < out@.len() && pv + #[trigger] out@[a].pv() == self.nodes@[j].pv();
                    lemma_concat_prefix(pv, out@[a].pv());
                    assert(out@[a].pv() == q);
                    assert(r.entries()[a] == out@[a].entry());
                    assert(r.entries()[a].0 == q);
                    assert(seq_has(r.entries(), q));
                }
            }
            assert forall|j: int| 0 <= j < r.nodes@.len() implies path_ok(#[trigger] r.nodes@[j].pv()) by {
                assert(out@[j] == r.nodes@[j]);
            }
            assert forall|x: Seq<Seq<char>>, k: int|
                #![trigger r.lookup(x), x.take(k)]
                r.lookup(x) is Some && 0 <= k < x.len() implies r.lookup(x.take(k)) == Some(FsNode::Dir) by {
                if k > 0 {
                    let full = pv + x;
                    assert(self.lookup(full) is Some);
                    assert(full.len() > 0);
                    assert(self.lookup(full.take(pv.len() + k)) == Some(FsNode::Dir));
                    assert(full.take(pv.len() + k) =~= pv + x.take(k));
                }
            }
        }
        r
    }
}

/// How a file system writes the path of an entry: with a leading `/` or without.
pub open spec fn render(q: Seq<Seq<char>>, absolute: bool) -> Seq<char> {
    if absolute {
        join_absolute(q)
    } else {
        join(q)
    }
}

pub proof fn lemma_render(q: Seq<Seq<char>>, absolute: bool)
    requires
        segs_valid(q),
    ensures
        segs(render(q, absolute)) == q,
{
    if absolute {
        lemma_segs_join_absolute(q);
    } else {
        lemma_segs_join(q);
    }
}

pub fn render_segments(q: &Vec<String>, absolute: bool) -> (r: String)
    ensures
        r@ == render(strs_view(q@), absolute),
{
    if absolute {
        join_segments_absolute(q)
    } else {
        join_segments(q)
    }
}

/// A list of path strings that names each file at or below `p` exactly once.
pub open spec fn lists_tree_files(t: NodeTree, p: Seq<Seq<char>>, v: Seq<String>) -> bool {
    &&& forall|i: int|
        0 <= i < v.len() ==> has_prefix(segs(v[i]@), p) && #[trigger] is_file(t.lookup(segs(v[i]@)))
    &&& forall|q: Seq<Seq<char>>|
        has_prefix(q, p) && #[trigger] is_file(t.lookup(q)) ==> exists|i: int|
            0 <= i < v.len() && segs(#[trigger] v[i]@) == q
    &&& forall|i: int, j: int|
        0 <= i < v.len() && 0 <= j < v.len() && i != j ==> segs(#[trigger] v[i]@) != segs(
            #[trigger] v[j]@,
        )
}

impl NodeTree {
    /// The paths of all files at or below `p`, each written out in full.
    pub fn rendered_files(&self, p: &Vec<String>, absolute: bool) -> (r: Vec<String>)
        requires
            self.wf(),
            segs_valid(strs_view(p@)),
        ensures
            lists_tree_files(*self, strs_view(p@), r@),
            forall|i: int| 0 <= i < r@.len() ==> #[trigger] r@[i]@ == render(segs(r@[i]@), absolute),
    {
        let ghost pv = strs_view(p@);
        let mut out: Vec<String> = Vec::new();
        let found = if p.len() == 0 {
            None
        } else {
            self.find(p)
        };
        match found {
            Some(i) => {
                proof {
                    self.lemma_entry(i as int);
                }
                if self.nodes[i].buf.is_some() {
                    let s = render_segments(p, absolute);
                    proof {
                        lemma_render(pv, absolute);
                    }
                    out.push(s);
                    proof {
                        assert(pv.subrange(0, pv.len() as int) =~= pv);
                        assert(segs(out@[0]@) == pv);
                        assert(is_file(self.lookup(pv)));
                        assert forall|q: Seq<Seq<char>>|
                            has_prefix(q, pv) && #[trigger] is_file(self.lookup(q)) implies exists|a: int|
                                0 <= a < out@.len() && segs(#[trigger] out@[a]@) == q by {
                            if q != pv {
                                if q.len() == pv.len() {
                                    assert(q.subrange(0, pv.len() as int) =~= q);
                                }
                                assert(q.len() > pv.len());
                                assert(self.lookup(q.take(pv.len() as int)) == Some(FsNode::Dir));
                                assert(q.subrange(0, pv.len() as int) =~= q.take(pv.len() as int));
                            }
                            assert(segs(out@[0]@) == pv);
                        }
                    }
                    return out;
                }
            },
            None => {},
        }
        let rels = self.files_below(p);
        let mut k: usize = 0;
        while k < rels.len()
            invariant
                k <= rels@.len(),
                out@.len() == k,
                pv == strs_view(p@),
                segs_valid(pv),
                forall|a: int|
                    #![trigger out@[a]]
                    0 <= a < k ==> out@[a]@ == render(pv + strs_view(rels@[a]@), absolute) && segs(
                        out@[a]@,
                    ) == pv + strs_view(rels@[a]@),
                forall|i: int|
                    0 <= i < rels@.len() ==> #[trigger] is_file(self.lookup(pv + strs_view(rels@[i]@)))
                        && path_ok(strs_view(rels@[i]@)),
            decreases rels@.len() - k,
        {
            let mut full = copy_strs(p);
            let mut m: usize = 0;
            let ghost rv = strs_view(rels@[k as int]@);
            while m < rels[k].len()
                invariant
                    k < rels@.len(),
                    m <= rels@[k as int]@.len(),
                    strs_view(full@) == pv + strs_view(rels@[k as int]@.take(m as int)),
                decreases rels@[k as int]@.len() - m,
            {
                let ghost before = full@;
                full.push(rels[k][m].clone());
                assert(strs_view(full@) =~= strs_view(before).push(rels@[k as int]@[m as int]@));
                assert(strs_view(rels@[k as int]@.take(m + 1)) =~= strs_view(rels@[k as int]@.take(m as int)).push(rels@[k as int]@[m as int]@));
                m = m + 1;
            }
            assert(rels@[k as int]@.take(rels@[k as int]@.len() as int) =~= rels@[k as int]@);
            let s = render_segments(&full, absolute);
            proof {
                assert(is_file(self.lookup(pv + rv)));
                assert(path_ok(rv));
                assert(segs_valid(pv + rv)) by {
                    assert forall|j: int| 0 <= j < (pv + rv).len() implies seg_valid(#[trigger] (pv + rv)[j]) by {
                        if j < pv.len() {
                            assert((pv + rv)[j] == pv[j]);
                        } else {
                            assert((pv + rv)[j] == rv[j - pv.len()]);
                        }
                    }
                }
                lemma_render(pv + rv, absolute);
            }
            let ghost before = out@;
            out.push(s);
            proof {
                assert forall|a: int|
                    #![trigger out@[a]]
                    0 <= a < k + 1 implies out@[a]@ == render(pv + strs_view(rels@[a]@), absolute) && segs(
                        out@[a]@,
                    ) == pv + strs_view(rels@[a]@) by {
                    if a < k {
                        assert(out@[a] == before[a]);
                    }
                }
            }
            k = k + 1;
        }
        proof {
            assert forall|i: int|
                #![trigger out@[i]]
                0 <= i < out@.len() implies has_prefix(segs(out@[i]@), pv) && is_file(
                    self.lookup(segs(out@[i]@)),
                ) by {
                assert(segs(out@[i]@) == pv + strs_view(rels@[i]@));
                assert(is_file(self.lookup(pv + strs_view(rels@[i]@))));
                lemma_concat_prefix(pv, strs_view(rels@[i]@));
            }
            assert forall|q: Seq<Seq<char>>|
                has_prefix(q, pv) && #[trigger] is_file(self.lookup(q)) implies exists|a: int|
                    0 <= a < out@.len() && segs(#[trigger] out@[a]@) == q by {
                if q == pv {
                    // then `p` would be a file
                    assert(p@.len() > 0) by {
                        if p@.len() == 0 {
                            assert(q.len() == 0);
                        }
                    }
                    assert(seq_has(self.entries(), pv));
                    assert(false);
                } else {
                    if q.len() == pv.len() {
                        assert(q.subrange(0, pv.len() as int) =~= q);
                    }
                    assert(q.len() > pv.len());
                    let a = choose|a: int| 0 <= a < rels@.len() && pv + strs_view(#[trigger] rels@[a]@) == q;
                    assert(segs(out@[a]@) == pv + strs_view(rels@[a]@));
                }
            }
            assert forall|i: int, j: int|
                0 <= i < out@.len() && 0 <= j < out@.len() && i != j implies segs(#[trigger] out@[i]@)
                    != segs(#[trigger] out@[j]@) by {
                if segs(out@[i]@) == segs(out@[j]@) {
                    lemma_concat_prefix(pv, strs_view(rels@[i]@));
                    lemma_concat_prefix(pv, strs_view(rels@[j]@));
                    assert(strs_view(rels@[i]@) == strs_view(rels@[j]@));
                }
            }
            assert forall|i: int| 0 <= i < out@.len() implies #[trigger] out@[i]@ == render(segs(out@[i]@), absolute) by {
                assert(segs(out@[i]@) == pv + strs_view(rels@[i]@));
            }
            let t = *self;
            let v = out@;
            assert(forall|i: int|
                0 <= i < v.len() ==> has_prefix(segs(v[i]@), pv) && #[trigger] is_file(t.lookup(segs(v[i]@))));
            assert(forall|q: Seq<Seq<char>>|
                has_prefix(q, pv) && #[trigger] is_file(t.lookup(q)) ==> exists|i: int|
                    0 <= i < v.len() && segs(#[trigger] v[i]@) == q);
            assert(forall|i: int, j: int|
                0 <= i < v.len() && 0 <= j < v.len() && i != j ==> segs(#[trigger] v[i]@) != segs(
                    #[trigger] v[j]@,
                ));
            assert(lists_tree_files(*self, pv, out@));
        }
        out
    }
}

impl NodeTree {
    /// The number of entries directly inside `p`.
    pub open spec fn child_count(self, p: Seq<Seq<char>>) -> nat {
        Set::new(|x: Seq<char>| self.lookup(p.push(x)) is Some).len()
    }

    pub proof fn lemma_child_count(self, p: Seq<Seq<char>>, r: Seq<String>)
        requires
            strs_view(r).no_duplicates(),
            forall|i: int| 0 <= i < r.len() ==> #[trigger] self.lookup(p.push(r[i]@)) is Some,
            forall|x: Seq<char>|
                #[trigger] self.lookup(p.push(x)) is Some ==> exists|i: int| 0 <= i < r.len() && #[trigger] r[i]@ == x,
        ensures
            self.child_count(p) == r.len(),
    {
        let names = strs_view(r);
        let s = Set::new(|x: Seq<char>| self.lookup(p.push(x)) is Some);
        assert(s =~= names.to_set()) by {
            assert forall|x: Seq<char>| s.contains(x) implies names.to_set().contains(x) by {
                let i = choose|i: int| 0 <= i < r.len() && #[trigger] r[i]@ == x;
                assert(names[i] == x);
                assert(names.contains(x));
            }
            assert forall|x: Seq<char>| names.to_set().contains(x) implies s.contains(x) by {
                assert(names.contains(x));
                let i = choose|i: int| 0 <= i < names.len() && names[i] == x;
                assert(names[i] == r[i]@);
                assert(self.lookup(p.push(r[i]@)) is Some);
            }
        }
        names.unique_seq_to_set();
    }

    /// The files of the tree, each as its path.
    pub fn all_files_relative(&self) -> (r: Vec<Vec<String>>)
        requires
            self.wf(),
        ensures
            forall|i: int| 0 <= i < r@.len() ==> #[trigger] is_file(self.lookup(strs_view(r@[i]@))),
            forall|q: Seq<Seq<char>>| #[trigger] is_file(self.lookup(q)) ==> exists|i: int|
                0 <= i < r@.len() && strs_view(#[trigger] r@[i]@) == q,
            forall|i: int| 0 <= i < r@.len() ==> path_ok(strs_view(#[trigger] r@[i]@)),
            forall|i: int, j: int|
                0 <= i < r@.len() && 0 <= j < r@.len() && i != j ==> strs_view(#[trigger] r@[i]@)
                    != strs_view(#[trigger] r@[j]@),
    {
        let none: Vec<String> = Vec::new();
        let r = self.files_below(&none);
        proof {
            let e = Seq::<Seq<char>>::empty();
            assert(strs_view(none@) =~= e);
            assert forall|i: int| 0 <= i < r@.len() implies #[trigger] is_file(self.lookup(strs_view(r@[i]@))) by {
                assert(is_file(self.lookup(e + strs_view(r@[i]@))));
                assert(e + strs_view(r@[i]@) =~= strs_view(r@[i]@));
            }
            assert forall|i: int| 0 <= i < r@.len() implies path_ok(strs_view(#[trigger] r@[i]@)) by {
                assert(is_file(self.lookup(e + strs_view(r@[i]@))));
            }
            assert forall|q: Seq<Seq<char>>| #[trigger] is_file(self.lookup(q)) implies exists|i: int|
                0 <= i < r@.len() && strs_view(#[trigger] r@[i]@) == q by {
                assert(has_prefix(q, e)) by {
                    assert(q.subrange(0, 0) =~= e);
                }
                assert(q.len() > 0);
                let i = choose|i: int| 0 <= i < r@.len() && e + strs_view(#[trigger] r@[i]@) == q;
                assert(e + strs_view(r@[i]@) =~= strs_view(r@[i]@));
            }
        }
        r
    }
}

/// `r` is the root, or lies at or above one of the first `i` entries of `sub`.
pub open spec fn covered(sub: NodeTree, r: Seq<Seq<char>>, i: int) -> bool {
    r.len() == 0 || exists|j: int| 0 <= j < i && #[trigger] has_prefix(sub.nodes@[j].pv(), r)
}

/// What `q` holds once the directory `sub` is set under the name `name`:
/// below `name` what `sub` holds, elsewhere what it held.
pub open spec fn after_graft(old: Option<FsNode>, q: Seq<Seq<char>>, name: Seq<char>, sub: NodeTree) -> Option<FsNode> {
    if q.len() > 0 && q[0] == name {
        sub.lookup(q.skip(1))
    } else {
        old
    }
}

/// A path that starts with `name` is `name` followed by the rest.
proof fn lemma_cons_prefix(name: Seq<char>, r: Seq<Seq<char>>, pv: Seq<Seq<char>>)
    ensures
        has_prefix(seq![name] + r, seq![name] + pv) == has_prefix(r, pv),
        (seq![name] + r == seq![name] + pv) == (r == pv),
        (seq![name] + r).skip(1) == r,
{
    let q = seq![name] + r;
    let p = seq![name] + pv;
    assert(q.skip(1) =~= r);
    assert(p.skip(1) =~= pv);
    if has_prefix(q, p) {
        assert(r.subrange(0, pv.len() as int) =~= q.subrange(0, p.len() as int).skip(1));
    }
    if has_prefix(r, pv) {
        assert(q.subrange(0, p.len() as int) =~= seq![name] + r.subrange(0, pv.len() as int));
    }
    if q == p {
        assert(r == q.skip(1));
    }
}

impl NodeTree {
    /// Sets the directory `sub` under the name `name`, in place of what was
    /// there; what lies elsewhere stays. The entries set carry the time `now`.
    pub fn graft(&mut self, name: &String, sub: &NodeTree, now: u64)
        requires
            old(self).wf(),
            sub.wf(),
            seg_valid(name@),
        ensures
            final(self).wf(),
            forall|q: Seq<Seq<char>>| #[trigger] final(self).lookup(q) == after_graft(old(self).lookup(q), q, name@, *sub),
    {
        let mut top: Vec<String> = Vec::new();
        top.push(name.clone());
        let ghost nv = name@;
        assert(strs_view(top@) =~= seq![nv]);
        self.delete(&top);
        let ghost del = *self;
        let ok = self.create_dir(&top, now);
        proof {
            assert(!file_at_or_above(del, seq![nv])) by {
                assert(del.lookup(seq![nv]) == after_delete(old(self).lookup(seq![nv]), seq![nv], seq![nv]));
                assert(has_prefix(seq![nv], seq![nv])) by {
                    assert(seq![nv].subrange(0, 1) =~= seq![nv]);
                }
                assert forall|k: int| 0 < k < 1 implies !#[trigger] is_file(del.lookup(seq![nv].take(k))) by {}
            }
            assert forall|q: Seq<Seq<char>>| #[trigger] self.lookup(q) == if q.len() > 0 && q[0] == nv {
                if covered(*sub, q.skip(1), 0) {
                    sub.lookup(q.skip(1))
                } else {
                    None
                }
            } else {
                old(self).lookup(q)
            } by {
                assert(self.lookup(q) == after_create_dir(del.lookup(q), q, seq![nv]));
                assert(del.lookup(q) == after_delete(old(self).lookup(q), q, seq![nv]));
                if q.len() > 0 && q[0] == nv {
                    assert(has_prefix(q, seq![nv])) by {
                        assert(q.subrange(0, 1) =~= seq![nv]);
                    }
                    if q.len() == 1 {
                        assert(q =~= seq![nv]);
                        assert(q.skip(1).len() == 0);
                        assert(has_prefix(seq![nv], q)) by {
                            assert(seq![nv].subrange(0, 1) =~= q);
                        }
                    }
                } else {
                    if has_prefix(q, seq![nv]) {
                        assert(q.subrange(0, 1)[0] == q[0]);
                    }
                    if q.len() == 0 {
                        assert(has_prefix(seq![nv], q)) by {
                            assert(seq![nv].subrange(0, 0) =~= q);
                        }
                    } else if has_prefix(seq![nv], q) {
                        assert(seq![nv].subrange(0, q.len() as int)[0] == q[0]);
                    }
                }
            }
        }
        let mut i: usize = 0;
        while i < sub.nodes.len()
            invariant
                self.wf(),
                sub.wf(),
                seg_valid(nv),
                nv == name@,
                i <= sub.nodes@.len(),
                forall|q: Seq<Seq<char>>| #[trigger] self.lookup(q) == if q.len() > 0 && q[0] == nv {
                    if covered(*sub, q.skip(1), i as int) {
                        sub.lookup(q.skip(1))
                    } else {
                        None
                    }
                } else {
                    old(self).lookup(q)
                },
            decreases sub.nodes@.len() - i,
        {
            let mut p: Vec<String> = Vec::new();
            p.push(name.clone());
            let mut k: usize = 0;
            while k < sub.nodes[i].path.len()
                invariant
                    k <= sub.nodes@[i as int].path@.len(),
                    i < sub.nodes@.len(),
                    strs_view(p@) == seq![nv] + sub.nodes@[i as int].pv().take(k as int),
                decreases sub.nodes@[i as int].path@.len() - k,
            {
                let ghost old_p = p@;
                p.push(sub.nodes[i].path[k].clone());
                proof {
                    let pvi = sub.nodes@[i as int].pv();
                    assert(pvi[k as int] == sub.nodes@[i as int].path@[k as int]@);
                    assert(strs_view(p@) =~= strs_view(old_p).push(pvi[k as int]));
                    assert(pvi.take(k + 1) =~= pvi.take(k as int).push(pvi[k as int]));
                    assert(strs_view(p@) =~= seq![nv] + pvi.take(k + 1));
                }
                k = k + 1;
            }
            let ghost pv = sub.nodes@[i as int].pv();
            let ghost pp = seq![nv] + pv;
            let ghost before = *self;
            proof {
                assert(pv.take(pv.len() as int) =~= pv);
                sub.lemma_entry(i as int);
                assert(segs_valid(pp)) by {
                    assert(path_ok(pv));
                    assert forall|j: int| 0 <= j < pp.len() implies seg_valid(#[trigger] pp[j]) by {
                        if j > 0 {
                            assert(pp[j] == pv[j - 1]);
                        }
                    }
                }
                // nothing above `pp` is a file
                assert forall|k2: int| 0 < k2 < pp.len() implies !#[trigger] is_file(before.lookup(pp.take(k2))) by {
                    let q = pp.take(k2);
                    assert(q[0] == nv);
                    assert(q.skip(1) =~= pv.take(k2 - 1));
                    lemma_prefix_take(pv, k2 - 1);
                    assert(sub.lookup(pv) is Some);
                    if k2 - 1 == 0 {
                        assert(pv.take(0).len() == 0);
                    }
                }
            }
            match &sub.nodes[i].buf {
                Some(b) => {
                    let ok = self.write_file(&p, copy_bytes(b.as_slice()), now);
                    proof {
                        assert(ok);
                        assert forall|q: Seq<Seq<char>>| #[trigger] self.lookup(q) == if q.len() > 0 && q[0] == nv {
                            if covered(*sub, q.skip(1), i + 1) {
                                sub.lookup(q.skip(1))
                            } else {
                                None
                            }
                        } else {
                            old(self).lookup(q)
                        } by {
                            assert(self.lookup(q) == after_write(before.lookup(q), q, pp, b@));
                            if q.len() > 0 && q[0] == nv {
                                let r = q.skip(1);
                                assert(q =~= seq![nv] + r);
                                lemma_cons_prefix(nv, r, pv);
                                assert(has_prefix(pv, pv)) by {
                                    assert(pv.subrange(0, pv.len() as int) =~= pv);
                                }
                                if has_prefix(pv, r) {
                                    assert(covered(*sub, r, i + 1));
                                    lemma_cons_prefix(nv, pv, r);
                                    if r != pv {
                                        lemma_prefix_is_take(r, pv);
                                        assert(sub.lookup(pv.take(r.len() as int)) == Some(FsNode::Dir));
                                    }
                                } else if has_prefix(r, pv) {
                                    if covered(*sub, r, i + 1) && r.len() > 0 {
                                        let j = choose|j: int| 0 <= j < i + 1 && #[trigger] has_prefix(sub.nodes@[j].pv(), r);
                                        lemma_prefix_trans(sub.nodes@[j].pv(), r, pv);
                                        sub.lemma_entry(j);
                                        lemma_prefix_is_take(pv, sub.nodes@[j].pv());
                                        assert(sub.lookup(sub.nodes@[j].pv().take(pv.len() as int)) == Some(FsNode::Dir));
                                        assert(false);
                                    }
                                    assert(!covered(*sub, r, i as int));
                                } else {
                                    lemma_cons_prefix(nv, pv, r);
                                    assert(covered(*sub, r, i + 1) == covered(*sub, r, i as int));
                                }
                            } else {
                                if q.len() > 0 {
                                    if has_prefix(q, pp) {
                                        assert(q.subrange(0, pp.len() as int)[0] == q[0]);
                                    }
                                    if has_prefix(pp, q) {
                                        assert(pp.subrange(0, q.len() as int)[0] == pp[0]);
                                    }
                                }
                            }
                        }
                    }
                },
                None => {
                    proof {
                        lemma_cons_prefix(nv, pv, pv);
                        assert(pp.len() > 0 && pp[0] == nv);
                        assert(pp.skip(1) == pv);
                        assert(!is_file(before.lookup(pp)));
                        assert(!before.file_above(pp));
                    }
                    let ok = self.create_dir(&p, now);
                    proof {
                        assert(ok);
                        assert forall|q: Seq<Seq<char>>| #[trigger] self.lookup(q) == if q.len() > 0 && q[0] == nv {
                            if covered(*sub, q.skip(1), i + 1) {
                                sub.lookup(q.skip(1))
                            } else {
                                None
                            }
                        } else {
                            old(self).lookup(q)
                        } by {
                            assert(self.lookup(q) == after_create_dir(before.lookup(q), q, pp));
                            if q.len() > 0 && q[0] == nv {
                                let r = q.skip(1);
                                assert(q =~= seq![nv] + r);
                                lemma_cons_prefix(nv, pv, r);
                                if has_prefix(pv, r) {
                                    assert(covered(*sub, r, i + 1));
                                    if r != pv {
                                        lemma_prefix_is_take(r, pv);
                                        assert(sub.lookup(pv.take(r.len() as int)) == Some(FsNode::Dir));
                                    }
                                } else {
                                    assert(covered(*sub, r, i + 1) == covered(*sub, r, i as int));
                                }
                            } else {
                                if q.len() > 0 && has_prefix(pp, q) {
                                    assert(pp.subrange(0, q.len() as int)[0] == pp[0]);
                                }
                            }
                        }
                    }
                },
            }
            i = i + 1;
        }
        proof {
            assert forall|q: Seq<Seq<char>>| #[trigger] self.lookup(q) == after_graft(old(self).lookup(q), q, name@, *sub) by {
                if q.len() > 0 && q[0] == nv {
                    let r = q.skip(1);
                    if !covered(*sub, r, sub.nodes@.len() as int) && sub.lookup(r) is Some {
                        assert(r.len() > 0);
                        let j = lemma_lookup_some(sub.entries(), r);
                        assert(sub.entries()[j] == sub.nodes@[j].entry());
                        assert(has_prefix(sub.nodes@[j].pv(), r)) by {
                            assert(r.subrange(0, r.len() as int) =~= r);
                        }
                    }
                }
            }
        }
    }
}

} // verus!
