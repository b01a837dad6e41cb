//! Directories of the mock file system.

use vstd::prelude::*;

use crate::error::FsError;
use crate::file_system::mock::MockEntry;
use crate::file_system::mock::file::MockFile;
use crate::file_system::nodes::{NodeTree, file_at_or_above, path_ok};
use crate::file_system::{FsNode, Stat, StatType, after_create_dir, after_delete, after_write, is_file};
use crate::path::{as_schemes, has_prefix, join, lemma_segs_valid, segs, strs_view};
use crate::time::since_epoch_secs;
use crate::util::copy_bytes;

verus! {

/// The path string of an entry written under an optional parent path.
pub open spec fn under_parent(parent: Option<Seq<char>>, q: Seq<Seq<char>>) -> Seq<char> {
    match parent {
        Some(p) => p + seq!['/'] + join(q),
        None => join(q),
    }
}

/// The view of an optional string.
pub open spec fn opt_view(o: Option<String>) -> Option<Seq<char>> {
    match o {
        Some(p) => Some(p@),
        None => None,
    }
}

/// A directory of the mock file system, with everything below it.
pub struct MockDir {
    pub create_time: u64,
    pub update_time: u64,
    pub tree: NodeTree,
}

impl MockDir {
    pub open spec fn wf(self) -> bool {
        self.tree.wf()
    }

    /// What the directory holds at a path relative to it.
    pub open spec fn lookup(self, q: Seq<Seq<char>>) -> Option<FsNode> {
        self.tree.lookup(q)
    }

    /// An empty directory created now.
    pub fn new() -> (r: MockDir)
        ensures
            r.wf(),
            r.create_time == r.update_time,
            forall|q: Seq<Seq<char>>| q.len() > 0 ==> #[trigger] r.lookup(q) is None,
    {
        let create_time = since_epoch_secs();
        MockDir { create_time, update_time: create_time, tree: NodeTree::new() }
    }

    /// The stat of the directory: its number of entries, and its times.
    pub fn stat(&self) -> (r: Stat)
        requires
            self.wf(),
        ensures
            r.ty == StatType::Dir,
            r.size == self.tree.child_count(Seq::empty()),
            r.create_time == self.create_time,
            r.update_time == self.update_time,
    {
        let names = self.entry_names();
        Stat {
            ty: StatType::Dir,
            size: names.len() as u64,
            create_time: self.create_time,
            update_time: self.update_time,
        }
    }

    /// The names of the entries directly inside the directory.
    pub fn entry_names(&self) -> (r: Vec<String>)
        requires
            self.wf(),
        ensures
            r@.len() == self.tree.child_count(Seq::empty()),
            forall|i: int| 0 <= i < r@.len() ==> #[trigger] self.lookup(seq![r@[i]@]) is Some,
            forall|x: Seq<char>| #[trigger] self.lookup(seq![x]) is Some ==> exists|i: int|
                0 <= i < r@.len() && #[trigger] r@[i]@ == x,
            strs_view(r@).no_duplicates(),
    {
        let none: Vec<String> = Vec::new();
        let names = self.tree.child_names(&none);
        proof {
            let e = Seq::<Seq<char>>::empty();
            assert(strs_view(none@) =~= e);
            self.tree.lemma_child_count(e, names@);
            assert forall|x: Seq<char>| #[trigger] seq![x] == e.push(x) by {
                assert(seq![x] =~= e.push(x));
            }
        }
        names
    }

    /// The entry at `path`: a copy of the file, or of the directory with what
    /// lies below it.
    pub fn read(&self, path: &str) -> (r: Option<MockEntry>)
        requires
            self.wf(),
        ensures
            match r {
                Some(e) => e.stands_for(*self, segs(path@)),
                None => self.lookup(segs(path@)) is None,
            },
            r matches Some(MockEntry::File(f)) ==> self.tree.times_at(segs(path@)) == Some((f.create_time, f.update_time)),
    {
        let p = as_schemes(path);
        proof {
            lemma_segs_valid(path@);
        }
        let ghost pv = strs_view(p@);
        if p.len() == 0 {
            let sub = self.copy_tree();
            proof {
                assert(pv =~= Seq::<Seq<char>>::empty());
                assert forall|q: Seq<Seq<char>>| q.len() > 0 implies #[trigger] sub.lookup(q) == self.lookup(pv + q) by {
                    assert(pv + q =~= q);
                }
            }
            return Some(
                MockEntry::Dir(
                    MockDir { create_time: self.create_time, update_time: self.update_time, tree: sub },
                ),
            );
        }
        match self.tree.find(&p) {
            None => None,
            Some(i) => {
                proof {
                    self.tree.lemma_entry(i as int);
                    self.tree.lemma_times_at(i as int);
                }
                let node = &self.tree.nodes[i];
                match &node.buf {
                    Some(b) => Some(
                        MockEntry::File(
                            MockFile {
                                create_time: node.create_time,
                                update_time: node.update_time,
                                buf: copy_bytes(b.as_slice()),
                            },
                        ),
                    ),
                    None => {
                        let sub = self.tree.subtree(&p);
                        Some(
                            MockEntry::Dir(
                                MockDir {
                                    create_time: node.create_time,
                                    update_time: node.update_time,
                                    tree: sub,
                                },
                            ),
                        )
                    },
                }
            },
        }
    }

    /// A copy of everything below the directory.
    fn copy_tree(&self) -> (r: NodeTree)
        requires
            self.wf(),
        ensures
            r.wf(),
            forall|q: Seq<Seq<char>>| #[trigger] r.lookup(q) == self.lookup(q),
    {
        let none: Vec<String> = Vec::new();
        let sub = self.tree.subtree(&none);
        proof {
            assert(strs_view(none@) =~= Seq::<Seq<char>>::empty());
            assert forall|q: Seq<Seq<char>>| #[trigger] sub.lookup(q) == self.lookup(q) by {
                if q.len() > 0 {
                    assert(Seq::<Seq<char>>::empty() + q =~= q);
                }
            }
        }
        sub
    }

    /// The entry at `path`; an error where there is none.
    pub fn try_read(&self, path: &str) -> (r: Result<MockEntry, FsError>)
        requires
            self.wf(),
        ensures
            match r {
                Ok(e) => e.stands_for(*self, segs(path@)),
                Err(e) => self.lookup(segs(path@)) is None && (e matches FsError::NotFound(s) && s@ == path@),
            },
    {
        match self.read(path) {
            Some(e) => Ok(e),
            None => Err(FsError::NotFound(path.to_owned())),
        }
    }

    /// Whether there is an entry at `path`.
    pub fn path_exists(&self, path: &str) -> (r: bool)
        requires
            self.wf(),
        ensures
            r == (self.lookup(segs(path@)) is Some),
    {
        let p = as_schemes(path);
        if p.len() == 0 {
            return true;
        }
        match self.tree.find(&p) {
            Some(i) => {
                proof {
                    self.tree.lemma_entry(i as int);
                }
                true
            },
            None => false,
        }
    }

    /// The directory that holds `path`, where `path` has at least two segments
    /// and all but its last name a directory below this one. A path of one
    /// segment has no parent to give.
    pub fn lookup_parent_dir(&self, path: &str) -> (r: Option<MockDir>)
        requires
            self.wf(),
        ensures
            match r {
                Some(d) => segs(path@).len() > 1 && self.lookup(segs(path@).drop_last()) == Some(FsNode::Dir)
                    && d.wf()
                    && forall|q: Seq<Seq<char>>| q.len() > 0 ==> #[trigger] d.lookup(q) == self.lookup(segs(path@).drop_last() + q),
                None => segs(path@).len() <= 1 || self.lookup(segs(path@).drop_last()) != Some(FsNode::Dir),
            },
    {
        let mut p = as_schemes(path);
        proof {
            lemma_segs_valid(path@);
        }
        if p.len() <= 1 {
            return None;
        }
        let ghost pv = strs_view(p@);
        p.pop();
        proof {
            assert(strs_view(p@) =~= pv.drop_last());
        }
        match self.tree.find(&p) {
            None => None,
            Some(i) => {
                proof {
                    self.tree.lemma_entry(i as int);
                }
                if self.tree.nodes[i].buf.is_some() {
                    None
                } else {
                    let sub = self.tree.subtree(&p);
                    Some(
                        MockDir {
                            create_time: self.tree.nodes[i].create_time,
                            update_time: self.tree.nodes[i].update_time,
                            tree: sub,
                        },
                    )
                }
            },
        }
    }

    /// Creates the directory at `path` and its enclosing directories, and gives
    /// back a copy of it. Fails, changing nothing, where a path on the way holds
    /// a file.
    pub fn create_dir(&mut self, path: &str) -> (r: Result<MockDir, FsError>)
        requires
            old(self).wf(),
        ensures
            final(self).wf(),
            r is Ok <==> !file_at_or_above(old(self).tree, segs(path@)),
            r is Ok ==> forall|q: Seq<Seq<char>>|
                #[trigger] final(self).lookup(q) == after_create_dir(old(self).lookup(q), q, segs(path@)),
            r is Err ==> forall|q: Seq<Seq<char>>| #[trigger] final(self).lookup(q) == old(self).lookup(q),
            r matches Ok(d) ==> d.wf() && forall|q: Seq<Seq<char>>|
                q.len() > 0 ==> #[trigger] d.lookup(q) == final(self).lookup(segs(path@) + q),
            r is Ok ==> forall|k: int|
                0 < k <= segs(path@).len() ==> (#[trigger] final(self).tree.times_at(segs(path@).take(k)) matches Some(t)
                    && t.1 == final(self).update_time),
    {
        let p = as_schemes(path);
        proof {
            lemma_segs_valid(path@);
        }
        let now = since_epoch_secs();
        if self.tree.create_dir(&p, now) {
            self.update_time = now;
            proof {
                assert(has_prefix(segs(path@), segs(path@))) by {
                    assert(segs(path@).subrange(0, segs(path@).len() as int) =~= segs(path@));
                }
                assert(self.lookup(segs(path@)) == Some(FsNode::Dir));
            }
            match self.read(path) {
                Some(MockEntry::Dir(d)) => Ok(d),
                _ => Err(FsError::ExpectedDir(path.to_owned())),
            }
        } else {
            proof {
                assert forall|q: Seq<Seq<char>>| #[trigger] self.lookup(q) == old(self).lookup(q) by {
                    if q.len() > 0 {
                        assert(self.tree.entries() == old(self).tree.entries());
                    }
                }
            }
            Err(FsError::ExpectedDir(path.to_owned()))
        }
    }

    /// Sets `dir` as the entry `entry_name` of this directory, in place of
    /// what was there: below that name this directory then holds what `dir`
    /// holds, and elsewhere what it held.
    pub fn set_dir(&mut self, entry_name: &str, dir: MockDir)
        requires
            old(self).wf(),
            dir.wf(),
            crate::path::seg_valid(entry_name@),
        ensures
            final(self).wf(),
            forall|q: Seq<Seq<char>>|
                #[trigger] final(self).lookup(q) == crate::file_system::nodes::after_graft(
                    old(self).lookup(q),
                    q,
                    entry_name@,
                    dir.tree,
                ),
    {
        let now = since_epoch_secs();
        let name = entry_name.to_owned();
        self.tree.graft(&name, &dir.tree, now);
    }

    /// Writes a file at `path`, creating the enclosing directories. Fails,
    /// changing nothing, where `path` names the directory itself or an
    /// enclosing path holds a file.
    pub fn write_file(&mut self, path: &str, buf: &[u8]) -> (r: Result<(), FsError>)
        requires
            old(self).wf(),
        ensures
            final(self).wf(),
            r is Ok <==> segs(path@).len() > 0 && !old(self).tree.file_above(segs(path@)),
            r is Ok ==> forall|q: Seq<Seq<char>>|
                #[trigger] final(self).lookup(q) == after_write(old(self).lookup(q), q, segs(path@), buf@),
            r is Err ==> forall|q: Seq<Seq<char>>| #[trigger] final(self).lookup(q) == old(self).lookup(q),
            r is Ok ==> (final(self).tree.times_at(segs(path@)) matches Some(t) && t.1 == final(self).update_time && (if is_file(
                old(self).lookup(segs(path@)),
            ) {
                t.0 == old(self).tree.times_at(segs(path@))->Some_0.0
            } else {
                t.0 == t.1
            })),
            r is Ok ==> forall|k: int|
                0 < k < segs(path@).len() ==> (#[trigger] final(self).tree.times_at(segs(path@).take(k)) matches Some(t)
                    && t.1 == final(self).update_time),
    {
        let p = as_schemes(path);
        proof {
            lemma_segs_valid(path@);
        }
        if p.len() == 0 {
            return Err(FsError::ExpectedFile(path.to_owned()));
        }
        let now = since_epoch_secs();
        if self.tree.write_file(&p, copy_bytes(buf), now) {
            self.update_time = now;
            Ok(())
        } else {
            proof {
                assert forall|q: Seq<Seq<char>>| #[trigger] self.lookup(q) == old(self).lookup(q) by {
                    if q.len() > 0 {
                        assert(self.tree.entries() == old(self).tree.entries());
                    }
                }
            }
            Err(FsError::ExpectedDir(path.to_owned()))
        }
    }

    /// Deletes the entry at `path` and everything below it.
    pub fn delete(&mut self, path: &str)
        requires
            old(self).wf(),
        ensures
            final(self).wf(),
            forall|q: Seq<Seq<char>>|
                #[trigger] final(self).lookup(q) == after_delete(old(self).lookup(q), q, segs(path@)),
    {
        let p = as_schemes(path);
        self.tree.delete(&p);
    }

    /// The paths of all files below the directory, relative to it, each
    /// written under `parent_path` where one is given.
    pub fn all_files(&self, parent_path: Option<String>) -> (r: Vec<String>)
        requires
            self.wf(),
        ensures
            forall|i: int| 0 <= i < r@.len() ==> #[trigger] self.lists_file(parent_path, r@[i]@),
            forall|q: Seq<Seq<char>>| #[trigger] is_file(self.lookup(q)) ==> exists|i: int|
                0 <= i < r@.len() && r@[i]@ == under_parent(
                    opt_view(parent_path),
                    q,
                ),
            strs_view(r@).no_duplicates(),
    {
        let ghost par: Option<Seq<char>> = opt_view(parent_path);
        let rels = self.tree.all_files_relative();
        let mut out: Vec<String> = Vec::new();
        let mut k: usize = 0;
        while k < rels.len()
            invariant
                k <= rels@.len(),
                out@.len() == k,
                par == opt_view(parent_path),
                forall|a: int|
                    #![trigger out@[a]]
                    0 <= a < k ==> out@[a]@ == under_parent(par, strs_view(rels@[a]@)),
            decreases rels@.len() - k,
        {
            let rel = crate::path::join_segments(&rels[k]);
            let s = match &parent_path {
                Some(p) => {
                    let mut s = p.clone();
                    s.append("/");
                    s.append(rel.as_str());
                    proof {
                        reveal_strlit("/");
                    }
                    s
                },
                None => rel,
            };
            let ghost before = out@;
            out.push(s);
            proof {
                assert forall|a: int|
                    #![trigger out@[a]]
                    0 <= a < k + 1 implies out@[a]@ == under_parent(par, strs_view(rels@[a]@)) by {
                    if a < k {
                        assert(out@[a] == before[a]);
                    }
                }
            }
            k = k + 1;
        }
        proof {
            assert forall|i: int| 0 <= i < out@.len() implies #[trigger] self.lists_file(parent_path, out@[i]@) by {
                assert(is_file(self.lookup(strs_view(rels@[i]@))));
            }
            assert forall|q: Seq<Seq<char>>| #[trigger] is_file(self.lookup(q)) implies exists|i: int|
                0 <= i < out@.len() && out@[i]@ == under_parent(par, q) by {
                let a = choose|a: int| 0 <= a < rels@.len() && strs_view(#[trigger] rels@[a]@) == q;
                assert(out@[a]@ == under_parent(par, strs_view(rels@[a]@)));
            }
            assert forall|a: int, b: int| 0 <= a < out@.len() && 0 <= b < out@.len() && a != b implies strs_view(out@)[a]
                != strs_view(out@)[b] by {
                assert(strs_view(out@)[a] == out@[a]@);
                assert(strs_view(out@)[b] == out@[b]@);
                let qa = strs_view(rels@[a]@);
                let qb = strs_view(rels@[b]@);
                assert(path_ok(qa));
                assert(path_ok(qb));
                crate::path::lemma_segs_join(qa);
                crate::path::lemma_segs_join(qb);
                if out@[a]@ == out@[b]@ {
                    match par {
                        Some(pp) => {
                            let n: int = pp.len() as int + 1;
                            assert(join(qa) =~= out@[a]@.skip(n));
                            assert(join(qb) =~= out@[b]@.skip(n));
                        },
                        None => {},
                    }
                    assert(join(qa) == join(qb));
                }
            }
        }
        out
    }

    /// `s` is the path of a file below the directory, written under the parent path.
    pub open spec fn lists_file(self, parent_path: Option<String>, s: Seq<char>) -> bool {
        exists|q: Seq<Seq<char>>|
            #[trigger] is_file(self.lookup(q)) && s == under_parent(
                opt_view(parent_path),
                q,
            )
    }
}

} // verus!
