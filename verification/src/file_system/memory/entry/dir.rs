//! Directories of the in-memory file system.

use vstd::prelude::*;

use crate::error::FsError;
use crate::file_system::memory::entry::MemoryEntry;
use crate::file_system::memory::entry::file::{MemoryFile, MemoryFileInner};
use crate::file_system::nodes::{NodeTree, path_ok, render_segments};
use crate::file_system::{FsNode, Stat, StatType, after_create_dir, after_delete, after_write, is_file};
use crate::path::{as_schemes, join, join_absolute, lemma_segs_valid, segs, segs_valid, strs_view};
use crate::time::since_epoch_secs;
use crate::util::{copy_bytes, copy_strs, str_eq};

verus! {

/// The name, location, times and entries of a directory.
pub struct MemoryDirInner {
    pub name: String,
    /// The segments of the directory's own path, from the root it was made under.
    pub location: Vec<String>,
    pub create_time: u64,
    pub update_time: u64,
    pub tree: NodeTree,
    /// A copy of the directory this one was made in, which `..` names.
    pub parent: Option<Box<MemoryDir>>,
}

impl MemoryDirInner {
    /// An empty directory, created now, with the given name.
    pub fn new(name: String) -> (r: MemoryDirInner)
        ensures
            r.name@ == name@,
            r.location@.len() == 0,
            r.tree.wf(),
            forall|q: Seq<Seq<char>>| q.len() > 0 ==> #[trigger] r.tree.lookup(q) is None,
            r.create_time == r.update_time,
            r.parent is None,
    {
        let create_time = since_epoch_secs();
        MemoryDirInner {
            name,
            location: Vec::new(),
            create_time,
            update_time: create_time,
            tree: NodeTree::new(),
            parent: None,
        }
    }

    /// The stat of the directory: its number of entries, and its times.
    pub fn stat(&self) -> (r: Stat)
        requires
            self.tree.wf(),
        ensures
            r.ty == StatType::Dir,
            r.create_time == self.create_time,
            r.update_time == self.update_time,
            r.size == self.tree.child_count(Seq::empty()),
    {
        let none: Vec<String> = Vec::new();
        let names = self.tree.child_names(&none);
        proof {
            assert(strs_view(none@) =~= Seq::<Seq<char>>::empty());
            self.tree.lemma_child_count(Seq::empty(), names@);
        }
        Stat {
            ty: StatType::Dir,
            size: names.len() as u64,
            create_time: self.create_time,
            update_time: self.update_time,
        }
    }
}

/// A directory of the in-memory file system, with everything below it.
pub struct MemoryDir(pub MemoryDirInner);

impl MemoryDir {
    pub open spec fn wf(self) -> bool
        decreases self,
    {
        &&& self.0.tree.wf()
        &&& segs_valid(strs_view(self.0.location@))
        &&& match self.0.parent {
            Some(p) => p.wf(),
            None => true,
        }
    }

    /// `self` holds what `o` holds, at the same location, with a parent that
    /// holds what the parent of `o` holds.
    pub open spec fn same_as(self, o: MemoryDir) -> bool
        decreases self,
    {
        &&& self.location() == o.location()
        &&& forall|q: Seq<Seq<char>>| #[trigger] self.lookup(q) == o.lookup(q)
        &&& match (self.0.parent, o.0.parent) {
            (Some(p), Some(op)) => p.same_as(*op),
            (None, None) => true,
            _ => false,
        }
    }

    /// What the directory holds at a path relative to it.
    pub open spec fn lookup(self, q: Seq<Seq<char>>) -> Option<FsNode> {
        self.0.tree.lookup(q)
    }

    pub open spec fn location(self) -> Seq<Seq<char>> {
        strs_view(self.0.location@)
    }

    /// `s` is the path, written from the root, of an entry directly inside.
    pub open spec fn names_entry(self, s: Seq<char>) -> bool {
        exists|x: Seq<char>| #[trigger] self.lookup(seq![x]) is Some && s == join_absolute(self.location().push(x))
    }

    /// `s` is the path, written from the root without a leading `/`, of a file below.
    pub open spec fn names_file(self, s: Seq<char>) -> bool {
        exists|q: Seq<Seq<char>>| #[trigger] is_file(self.lookup(q)) && s == join(self.location() + q)
    }

    /// The root directory of a file system: empty, unnamed.
    pub fn root() -> (r: MemoryDir)
        ensures
            r.wf(),
            r.location().len() == 0,
            r.0.name@.len() == 0,
            r.0.create_time == r.0.update_time,
            r.0.parent is None,
            forall|q: Seq<Seq<char>>| q.len() > 0 ==> #[trigger] r.lookup(q) is None,
    {
        let r = MemoryDir(MemoryDirInner::new(String::new()));
        assert(r.location() =~= Seq::<Seq<char>>::empty());
        r
    }

    pub fn name(&self) -> (r: String)
        ensures
            r@ == self.0.name@,
    {
        self.0.name.clone()
    }

    /// An empty directory named `name`, made inside `parent` where one is
    /// given; `..` then names a copy of the parent.
    pub fn new(name: &str, parent: Option<&MemoryDir>) -> (r: MemoryDir)
        requires
            parent matches Some(p) ==> p.wf(),
        ensures
            r.wf(),
            r.0.name@ == name@,
            match parent {
                Some(p) => r.0.parent matches Some(pd) && pd.same_as(*p),
                None => r.0.parent is None,
            },
            r.location() == match parent {
                Some(p) => p.location() + segs(name@),
                None => segs(name@),
            },
            forall|q: Seq<Seq<char>>| q.len() > 0 ==> #[trigger] r.lookup(q) is None,
    {
        let mut inner = MemoryDirInner::new(name.to_owned());
        let mut location = match parent {
            Some(p) => copy_strs(&p.0.location),
            None => Vec::new(),
        };
        let own = as_schemes(name);
        let mut i: usize = 0;
        let ghost base = strs_view(location@);
        proof {
            lemma_segs_valid(name@);
        }
        while i < own.len()
            invariant
                i <= own@.len(),
                strs_view(location@) == base + strs_view(own@).take(i as int),
            decreases own@.len() - i,
        {
            let ghost before = location@;
            location.push(own[i].clone());
            assert(strs_view(location@) =~= strs_view(before).push(own@[i as int]@));
            assert(strs_view(own@).take(i + 1) =~= strs_view(own@).take(i as int).push(own@[i as int]@));
            i = i + 1;
        }
        assert(strs_view(own@).take(own@.len() as int) =~= strs_view(own@));
        inner.location = location;
        inner.parent = match parent {
            Some(p) => Some(Box::new(p.copy())),
            None => None,
        };
        let r = MemoryDir(inner);
        proof {
            assert(base + segs(name@) == r.location());
            if parent is None {
                assert(base =~= Seq::<Seq<char>>::empty());
                assert(base + segs(name@) =~= segs(name@));
            }
            assert(segs_valid(r.location())) by {
                assert forall|j: int| 0 <= j < r.location().len() implies crate::path::seg_valid(#[trigger] r.location()[j]) by {
                    if j < base.len() {
                        assert(r.location()[j] == base[j]);
                    } else {
                        assert(r.location()[j] == segs(name@)[j - base.len()]);
                    }
                }
            }
        }
        r
    }

    /// The stat of the directory itself.
    pub fn stat(&self) -> (r: Stat)
        requires
            self.wf(),
        ensures
            r.ty == StatType::Dir,
            r.size == self.0.tree.child_count(Seq::empty()),
    {
        self.0.stat()
    }

    /// The paths of the entries directly inside the directory, each written from
    /// the root the directory was made under.
    pub fn entry_names(&self) -> (r: Vec<String>)
        requires
            self.wf(),
        ensures
            r@.len() == self.0.tree.child_count(Seq::empty()),
            forall|i: int| 0 <= i < r@.len() ==> #[trigger] self.names_entry(r@[i]@),
            strs_view(r@).no_duplicates(),
    {
        let none: Vec<String> = Vec::new();
        let names = self.0.tree.child_names(&none);
        proof {
            assert(strs_view(none@) =~= Seq::<Seq<char>>::empty());
            self.0.tree.lemma_child_count(Seq::empty(), names@);
        }
        let mut out: Vec<String> = Vec::new();
        let mut i: usize = 0;
        while i < names.len()
            invariant
                i <= names@.len(),
                out@.len() == i,
                forall|a: int| 0 <= a < names@.len() ==> #[trigger] self.lookup(Seq::<Seq<char>>::empty().push(names@[a]@)) is Some,
                forall|a: int|
                    #![trigger out@[a]]
                    0 <= a < i ==> out@[a]@ == join_absolute(self.location().push(names@[a]@)),
            decreases names@.len() - i,
        {
            let mut full = copy_strs(&self.0.location);
            full.push(names[i].clone());
            let s = render_segments(&full, true);
            proof {
                assert(strs_view(full@) =~= self.location().push(names@[i as int]@));
            }
            let ghost before = out@;
            out.push(s);
            proof {
                assert forall|a: int|
                    #![trigger out@[a]]
                    0 <= a < i + 1 implies out@[a]@ == join_absolute(self.location().push(names@[a]@)) by {
                    if a < i {
                        assert(out@[a] == before[a]);
                    }
                }
            }
            i = i + 1;
        }
        proof {
            assert forall|a: int| 0 <= a < out@.len() implies #[trigger] self.names_entry(out@[a]@) by {
                let x = names@[a]@;
                assert(Seq::<Seq<char>>::empty().push(x) =~= seq![x]);
                assert(self.lookup(Seq::<Seq<char>>::empty().push(names@[a]@)) is Some);
                assert(out@[a]@ == join_absolute(self.location().push(names@[a]@)));
            }
            assert forall|a: int, b: int| 0 <= a < out@.len() && 0 <= b < out@.len() && a != b implies strs_view(out@)[a]
                != strs_view(out@)[b] by {
                assert(strs_view(out@)[a] == out@[a]@);
                assert(strs_view(out@)[b] == out@[b]@);
                let qa = self.location().push(names@[a]@);
                let qb = self.location().push(names@[b]@);
                self.0.tree.lemma_lookup_valid(Seq::<Seq<char>>::empty().push(names@[a]@));
                self.0.tree.lemma_lookup_valid(Seq::<Seq<char>>::empty().push(names@[b]@));
                assert(Seq::<Seq<char>>::empty().push(names@[a]@)[0] == names@[a]@);
                assert(Seq::<Seq<char>>::empty().push(names@[b]@)[0] == names@[b]@);
                assert(segs_valid(qa)) by {
                    assert forall|j: int| 0 <= j < qa.len() implies crate::path::seg_valid(#[trigger] qa[j]) by {
                        if j < self.location().len() {
                            assert(qa[j] == self.location()[j]);
                        }
                    }
                }
                assert(segs_valid(qb)) by {
                    assert forall|j: int| 0 <= j < qb.len() implies crate::path::seg_valid(#[trigger] qb[j]) by {
                        if j < self.location().len() {
                            assert(qb[j] == self.location()[j]);
                        }
                    }
                }
                crate::path::lemma_segs_join_absolute(qa);
                crate::path::lemma_segs_join_absolute(qb);
                assert(strs_view(names@)[a] == names@[a]@);
                assert(strs_view(names@)[b] == names@[b]@);
                if out@[a]@ == out@[b]@ {
                    assert(qa.last() == qb.last());
                }
            }
        }
        out
    }

    /// Deletes the entry at `path` and everything below it.
    pub fn delete(&mut self, path: &str)
        requires
            old(self).wf(),
        ensures
            final(self).0.parent == old(self).0.parent,
            final(self).wf(),
            final(self).location() == old(self).location(),
            forall|q: Seq<Seq<char>>|
                #[trigger] final(self).lookup(q) == after_delete(old(self).lookup(q), q, segs(path@)),
    {
        let p = as_schemes(path);
        self.0.tree.delete(&p);
    }

    /// The entry at `path`; an error where there is none.
    pub fn try_read(&self, path: &str) -> (r: Result<MemoryEntry, FsError>)
        requires
            self.wf(),
        ensures
            self.0.parent matches Some(pd) ==> (path@ == ".."@ ==> (r matches Ok(MemoryEntry::Dir(d)) && d.wf()
                && d.same_as(*pd))),
            !(path@ == ".."@ && self.0.parent is Some) ==> match r {
                Ok(e) => e.stands_for(*self, segs(path@)),
                Err(_) => self.lookup(segs(path@)) is None,
            },
            r matches Err(e) ==> (e matches FsError::NotFound(s) && s@ == path@),
    {
        match self.read(path) {
            Some(e) => Ok(e),
            None => Err(FsError::NotFound(path.to_owned())),
        }
    }

    /// The entry at `path`: a copy of the file, or of the directory with what
    /// lies below it. Where the directory was made in a parent, `..` names a
    /// copy of that parent.
    pub fn read(&self, path: &str) -> (r: Option<MemoryEntry>)
        requires
            self.wf(),
        ensures
            self.0.parent matches Some(pd) ==> (path@ == ".."@ ==> (r matches Some(MemoryEntry::Dir(d)) && d.wf()
                && d.same_as(*pd))),
            !(path@ == ".."@ && self.0.parent is Some) ==> match r {
                Some(e) => e.stands_for(*self, segs(path@)),
                None => self.lookup(segs(path@)) is None,
            },
            r matches Some(MemoryEntry::File(f)) ==> self.0.tree.times_at(segs(path@)) == Some(
                (f.0.create_time, f.0.update_time),
            ),
    {
        if str_eq(path, "..") {
            match &self.0.parent {
                Some(pd) => {
                    return Some(MemoryEntry::Dir(pd.copy()));
                },
                None => {},
            }
        }
        let p = as_schemes(path);
        proof {
            lemma_segs_valid(path@);
        }
        self.read_segments(&p)
    }

    pub fn read_segments(&self, p: &Vec<String>) -> (r: Option<MemoryEntry>)
        requires
            self.wf(),
            segs_valid(strs_view(p@)),
        ensures
            match r {
                Some(e) => e.stands_for(*self, strs_view(p@)),
                None => self.lookup(strs_view(p@)) is None,
            },
            r matches Some(MemoryEntry::File(f)) ==> self.0.tree.times_at(strs_view(p@)) == Some(
                (f.0.create_time, f.0.update_time),
            ),
            r matches Some(MemoryEntry::Dir(d)) ==> d.0.name@ == if p@.len() > 0 {
                strs_view(p@).last()
            } else {
                self.0.name@
            },
    {
        let ghost pv = strs_view(p@);
        if p.len() == 0 {
            let d = self.copy();
            proof {
                assert(pv =~= Seq::<Seq<char>>::empty());
                assert(d.location() =~= self.location() + pv);
                assert forall|q: Seq<Seq<char>>| q.len() > 0 implies #[trigger] d.lookup(q) == self.lookup(pv + q) by {
                    assert(pv + q =~= q);
                }
            }
            return Some(MemoryEntry::Dir(d));
        }
        match self.0.tree.find(p) {
            None => None,
            Some(i) => {
                proof {
                    self.0.tree.lemma_entry(i as int);
                }
                proof {
                    self.0.tree.lemma_times_at(i as int);
                }
                let node = &self.0.tree.nodes[i];
                match &node.buf {
                    Some(b) => Some(
                        MemoryEntry::File(
                            MemoryFile(
                                MemoryFileInner {
                                    create_time: node.create_time,
                                    update_time: node.update_time,
                                    buf: copy_bytes(b.as_slice()),
                                },
                            ),
                        ),
                    ),
                    None => {
                        let sub = self.0.tree.subtree(p);
                        let mut location = copy_strs(&self.0.location);
                        let mut k: usize = 0;
                        let ghost base = strs_view(location@);
                        while k < p.len()
                            invariant
                                k <= p@.len(),
                                strs_view(location@) == base + strs_view(p@).take(k as int),
                            decreases p@.len() - k,
                        {
                            let ghost before = location@;
                            location.push(p[k].clone());
                            assert(strs_view(location@) =~= strs_view(before).push(p@[k as int]@));
                            assert(strs_view(p@).take(k + 1) =~= strs_view(p@).take(k as int).push(p@[k as int]@));
                            k = k + 1;
                        }
                        assert(strs_view(p@).take(p@.len() as int) =~= strs_view(p@));
                        let name = p[p.len() - 1].clone();
                        let d = MemoryDir(
                            MemoryDirInner {
                                name,
                                location,
                                create_time: node.create_time,
                                update_time: node.update_time,
                                tree: sub,
                                parent: None,
                            },
                        );
                        proof {
                            assert(segs_valid(d.location())) by {
                                assert forall|j: int| 0 <= j < d.location().len() implies crate::path::seg_valid(#[trigger] d.location()[j]) by {
                                    if j < base.len() {
                                        assert(d.location()[j] == base[j]);
                                    } else {
                                        assert(d.location()[j] == pv[j - base.len()]);
                                    }
                                }
                            }
                        }
                        Some(MemoryEntry::Dir(d))
                    },
                }
            },
        }
    }

    /// A copy of the directory with everything below it.
    pub fn copy(&self) -> (r: MemoryDir)
        requires
            self.wf(),
        ensures
            r.wf(),
            r.location() == self.location(),
            forall|q: Seq<Seq<char>>| #[trigger] r.lookup(q) == self.lookup(q),
            r.same_as(*self),
            r.0.name@ == self.0.name@,
        decreases self,
    {
        let parent = match &self.0.parent {
            Some(p) => Some(Box::new(p.copy())),
            None => None,
        };
        let none: Vec<String> = Vec::new();
        let sub = self.0.tree.subtree(&none);
        proof {
            assert(strs_view(none@) =~= Seq::<Seq<char>>::empty());
            assert forall|q: Seq<Seq<char>>| #[trigger] sub.lookup(q) == self.lookup(q) by {
                if q.len() > 0 {
                    assert(Seq::<Seq<char>>::empty() + q =~= q);
                }
            }
        }
        MemoryDir(
            MemoryDirInner {
                name: self.0.name.clone(),
                location: copy_strs(&self.0.location),
                create_time: self.0.create_time,
                update_time: self.0.update_time,
                tree: sub,
                parent,
            },
        )
    }

    /// Sets `dir` as the entry `entry_name` of this directory, in place of
    /// what was there: below that name this directory then holds what `dir`
    /// holds, and elsewhere what it held.
    pub fn set_dir(&mut self, entry_name: &str, dir: MemoryDir)
        requires
            old(self).wf(),
            dir.wf(),
            crate::path::seg_valid(entry_name@),
        ensures
            final(self).wf(),
            final(self).0.parent == old(self).0.parent,
            final(self).location() == old(self).location(),
            forall|q: Seq<Seq<char>>|
                #[trigger] final(self).lookup(q) == crate::file_system::nodes::after_graft(
                    old(self).lookup(q),
                    q,
                    entry_name@,
                    dir.0.tree,
                ),
    {
        let now = since_epoch_secs();
        let name = entry_name.to_owned();
        self.0.tree.graft(&name, &dir.0.tree, now);
    }

    /// Writes a file at `path`, creating the enclosing directories. Fails,
    /// changing nothing, where `path` names the directory itself or an
    /// enclosing path holds a file.
    pub fn write_file(&mut self, path: &str, buf: &[u8]) -> (r: Result<(), FsError>)
        requires
            old(self).wf(),
        ensures
            final(self).0.parent == old(self).0.parent,
            final(self).wf(),
            final(self).location() == old(self).location(),
            r is Ok <==> segs(path@).len() > 0 && !old(self).0.tree.file_above(segs(path@)),
            r is Ok ==> forall|q: Seq<Seq<char>>|
                #[trigger] final(self).lookup(q) == after_write(old(self).lookup(q), q, segs(path@), buf@),
            r is Err ==> forall|q: Seq<Seq<char>>| #[trigger] final(self).lookup(q) == old(self).lookup(q),
            r is Ok ==> (final(self).0.tree.times_at(segs(path@)) matches Some(t) && t.1 == final(self).0.update_time && (
            if is_file(old(self).lookup(segs(path@))) {
                t.0 == old(self).0.tree.times_at(segs(path@))->Some_0.0
            } else {
                t.0 == t.1
            })),
            r is Ok ==> forall|k: int|
                0 < k < segs(path@).len() ==> (#[trigger] final(self).0.tree.times_at(segs(path@).take(k)) matches Some(t)
                    && t.1 == final(self).0.update_time),
    {
        let p = as_schemes(path);
        proof {
            lemma_segs_valid(path@);
        }
        if p.len() == 0 {
            return Err(FsError::ExpectedFile(path.to_owned()));
        }
        let now = since_epoch_secs();
        if self.0.tree.write_file(&p, copy_bytes(buf), now) {
            self.0.update_time = now;
            Ok(())
        } else {
            Err(FsError::ExpectedDir(path.to_owned()))
        }
    }

    /// Creates the directory at `path` and its enclosing directories, and gives
    /// back a copy of it. Fails, changing nothing, where a path on the way holds
    /// a file.
    pub fn create_dir(&mut self, path: &str) -> (r: Result<MemoryDir, FsError>)
        requires
            old(self).wf(),
        ensures
            final(self).0.parent == old(self).0.parent,
            final(self).wf(),
            final(self).location() == old(self).location(),
            r is Ok <==> !crate::file_system::nodes::file_at_or_above(old(self).0.tree, segs(path@)),
            r is Ok ==> forall|q: Seq<Seq<char>>|
                #[trigger] final(self).lookup(q) == after_create_dir(old(self).lookup(q), q, segs(path@)),
            r is Err ==> forall|q: Seq<Seq<char>>| #[trigger] final(self).lookup(q) == old(self).lookup(q),
            r matches Ok(d) ==> d.0.name@ == if segs(path@).len() > 0 {
                segs(path@).last()
            } else {
                old(self).0.name@
            },
            r matches Ok(d) ==> d.location() == old(self).location() + segs(path@)
                && forall|q: Seq<Seq<char>>| q.len() > 0 ==> #[trigger] d.lookup(q) == final(self).lookup(segs(path@) + q),
            r is Ok ==> forall|k: int|
                0 < k <= segs(path@).len() ==> (#[trigger] final(self).0.tree.times_at(segs(path@).take(k)) matches Some(t)
                    && t.1 == final(self).0.update_time),
    {
        let p = as_schemes(path);
        proof {
            lemma_segs_valid(path@);
        }
        let now = since_epoch_secs();
        if self.0.tree.create_dir(&p, now) {
            self.0.update_time = now;
            let r = self.read_segments(&p);
            match r {
                Some(MemoryEntry::Dir(d)) => Ok(d),
                _ => {
                    proof {
                        assert(crate::path::has_prefix(segs(path@), segs(path@))) by {
                            assert(segs(path@).subrange(0, segs(path@).len() as int) =~= segs(path@));
                        }
                        assert(self.lookup(segs(path@)) == Some(FsNode::Dir));
                    }
                    Err(FsError::ExpectedDir(path.to_owned()))
                },
            }
        } else {
            Err(FsError::ExpectedDir(path.to_owned()))
        }
    }

    /// Whether there is an entry at `path`.
    pub fn path_exists(&self, path: &str) -> (r: bool)
        requires
            self.wf(),
        ensures
            r == (self.lookup(segs(path@)) is Some),
    {
        let p = as_schemes(path);
        if p.len() == 0 {
            return true;
        }
        proof {
            lemma_segs_valid(path@);
        }
        match self.0.tree.find(&p) {
            Some(i) => {
                proof {
                    self.0.tree.lemma_entry(i as int);
                }
                true
            },
            None => false,
        }
    }

    /// The directory that holds `path`, where `path` has at least two segments
    /// and all but its last name a directory below this one. A path of one
    /// segment has no parent to give.
    pub fn lookup_parent_dir(&self, path: &str) -> (r: Option<MemoryDir>)
        requires
            self.wf(),
        ensures
            match r {
                Some(d) => segs(path@).len() > 1 && self.lookup(segs(path@).drop_last()) == Some(FsNode::Dir)
                    && d.location() == self.location() + segs(path@).drop_last()
                    && forall|q: Seq<Seq<char>>| q.len() > 0 ==> #[trigger] d.lookup(q) == self.lookup(segs(path@).drop_last() + q),
                None => segs(path@).len() <= 1 || self.lookup(segs(path@).drop_last()) != Some(FsNode::Dir),
            },
    {
        let mut p = as_schemes(path);
        proof {
            lemma_segs_valid(path@);
        }
        if p.len() <= 1 {
            return None;
        }
        let ghost pv = strs_view(p@);
        p.pop();
        proof {
            assert(strs_view(p@) =~= pv.drop_last());
            assert(segs_valid(strs_view(p@))) by {
                assert forall|j: int| 0 <= j < strs_view(p@).len() implies crate::path::seg_valid(#[trigger] strs_view(p@)[j]) by {
                    assert(strs_view(p@)[j] == pv[j]);
                }
            }
        }
        match self.read_segments(&p) {
            Some(MemoryEntry::Dir(d)) => Some(d),
            _ => None,
        }
    }

    /// The paths of all files below the directory, written from the root the
    /// directory was made under, without a leading `/`.
    pub fn all_files(&self) -> (r: Vec<String>)
        requires
            self.wf(),
        ensures
            forall|i: int| 0 <= i < r@.len() ==> #[trigger] self.names_file(r@[i]@),
            forall|q: Seq<Seq<char>>| #[trigger] is_file(self.lookup(q)) ==> exists|i: int|
                #![trigger r@[i]] 0 <= i < r@.len() && r@[i]@ == join(self.location() + q),
            strs_view(r@).no_duplicates(),
    {
        let rels = self.0.tree.all_files_relative();
        let mut out: Vec<String> = Vec::new();
        let mut k: usize = 0;
        while k < rels.len()
            invariant
                k <= rels@.len(),
                out@.len() == k,
                forall|a: int|
                    #![trigger out@[a]]
                    0 <= a < k ==> out@[a]@ == join(self.location() + strs_view(rels@[a]@)),
            decreases rels@.len() - k,
        {
            let mut full = copy_strs(&self.0.location);
            let mut m: usize = 0;
            while m < rels[k].len()
                invariant
                    k < rels@.len(),
                    m <= rels@[k as int]@.len(),
                    strs_view(full@) == self.location() + strs_view(rels@[k as int]@.take(m as int)),
                decreases rels@[k as int]@.len() - m,
            {
                let ghost before = full@;
                full.push(rels[k][m].clone());
                assert(strs_view(full@) =~= strs_view(before).push(rels@[k as int]@[m as int]@));
                assert(strs_view(rels@[k as int]@.take(m + 1)) =~= strs_view(rels@[k as int]@.take(m as int)).push(rels@[k as int]@[m as int]@));
                m = m + 1;
            }
            assert(rels@[k as int]@.take(rels@[k as int]@.len() as int) =~= rels@[k as int]@);
            let s = render_segments(&full, false);
            let ghost before = out@;
            out.push(s);
            proof {
                assert forall|a: int|
                    #![trigger out@[a]]
                    0 <= a < k + 1 implies out@[a]@ == join(self.location() + strs_view(rels@[a]@)) by {
                    if a < k {
                        assert(out@[a] == before[a]);
                    }
                }
            }
            k = k + 1;
        }
        proof {
            assert forall|i: int| 0 <= i < out@.len() implies #[trigger] self.names_file(out@[i]@) by {
                assert(out@[i]@ == join(self.location() + strs_view(rels@[i]@)));
                assert(is_file(self.lookup(strs_view(rels@[i]@))));
            }
            assert forall|q: Seq<Seq<char>>| #[trigger] is_file(self.lookup(q)) implies exists|i: int|
                #![trigger out@[i]] 0 <= i < out@.len() && out@[i]@ == join(self.location() + q) by {
                let a = choose|a: int| 0 <= a < rels@.len() && strs_view(#[trigger] rels@[a]@) == q;
                assert(out@[a]@ == join(self.location() + strs_view(rels@[a]@)));
            }
            assert forall|a: int, b: int| 0 <= a < out@.len() && 0 <= b < out@.len() && a != b implies strs_view(out@)[a]
                != strs_view(out@)[b] by {
                assert(strs_view(out@)[a] == out@[a]@);
                assert(strs_view(out@)[b] == out@[b]@);
                let qa = self.location() + strs_view(rels@[a]@);
                let qb = self.location() + strs_view(rels@[b]@);
                assert(path_ok(strs_view(rels@[a]@)));
                assert(path_ok(strs_view(rels@[b]@)));
                assert(segs_valid(qa)) by {
                    assert forall|j: int| 0 <= j < qa.len() implies crate::path::seg_valid(#[trigger] qa[j]) by {
                        if j < self.location().len() {
                            assert(qa[j] == self.location()[j]);
                        } else {
                            assert(qa[j] == strs_view(rels@[a]@)[j - self.location().len()]);
                        }
                    }
                }
                assert(segs_valid(qb)) by {
                    assert forall|j: int| 0 <= j < qb.len() implies crate::path::seg_valid(#[trigger] qb[j]) by {
                        if j < self.location().len() {
                            assert(qb[j] == self.location()[j]);
                        } else {
                            assert(qb[j] == strs_view(rels@[b]@)[j - self.location().len()]);
                        }
                    }
                }
                crate::path::lemma_segs_join(qa);
                crate::path::lemma_segs_join(qb);
                if out@[a]@ == out@[b]@ {
                    assert(qa == qb);
                    assert(strs_view(rels@[a]@) =~= qa.skip(self.location().len() as int));
                    assert(strs_view(rels@[b]@) =~= qb.skip(self.location().len() as int));
                }
            }
        }
        out
    }

    /// The keys of the directory's table of entries: `.` for the directory
    /// itself, `..` for its parent where it has one, then the entries' names.
    pub fn entry_keys(&self) -> (r: Vec<String>)
        requires
            self.wf(),
        ensures
            r@.len() == self.0.tree.child_count(Seq::empty()) + if self.location().len() > 0 { 2int } else { 1int },
    {
        let mut r: Vec<String> = Vec::new();
        r.push(".".to_owned());
        if self.0.location.len() > 0 {
            r.push("..".to_owned());
        }
        let none: Vec<String> = Vec::new();
        let names = self.0.tree.child_names(&none);
        proof {
            assert(strs_view(none@) =~= Seq::<Seq<char>>::empty());
            self.0.tree.lemma_child_count(Seq::empty(), names@);
        }
        let mut i: usize = 0;
        let ghost base = r@.len();
        while i < names.len()
            invariant
                i <= names@.len(),
                r@.len() == base + i,
            decreases names@.len() - i,
        {
            r.push(names[i].clone());
            i = i + 1;
        }
        r
    }
}

} // verus!
