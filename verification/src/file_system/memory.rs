//! The in-memory file system. Paths it reports are written from its root
//! with a leading `/`.

use vstd::prelude::*;

use crate::error::FsError;
use crate::file_system::memory::entry::MemoryEntry;
use crate::file_system::memory::entry::dir::MemoryDir;
use crate::file_system::nodes::lists_tree_files;
use crate::file_system::{
    FileSystem, FsNode, Stat, StatType, after_write, dir_allowed, is_file, lists_files, names_path, write_allowed,
};
use crate::path::{as_schemes, has_prefix, join_absolute, lemma_segs_valid, segs};

pub mod entry;

verus! {

/// A file system held in memory, under one root directory.
pub struct MemoryFileSystem(pub MemoryDir);

impl Default for MemoryFileSystem {
    /// An empty file system.
    fn default() -> (r: MemoryFileSystem)
        ensures
            r.0.wf(),
            r.0.location().len() == 0,
            r.0.0.parent is None,
            forall|q: Seq<Seq<char>>| q.len() > 0 ==> #[trigger] r.0.lookup(q) is None,
    {
        MemoryFileSystem(MemoryDir::root())
    }
}

impl MemoryFileSystem {
    /// Writes a file, creating its enclosing directories; where that cannot be
    /// done (the path names the root, or an enclosing path holds a file)
    /// nothing changes.
    pub fn write_sync(&mut self, path: &str, buf: &[u8])
        requires
            old(self).0.wf(),
        ensures
            final(self).0.wf(),
            final(self).0.0.parent == old(self).0.0.parent,
            final(self).0.location() == old(self).0.location(),
            segs(path@).len() > 0 && !old(self).0.0.tree.file_above(segs(path@)) ==> forall|q: Seq<Seq<char>>|
                #[trigger] final(self).0.lookup(q) == after_write(old(self).0.lookup(q), q, segs(path@), buf@),
            !(segs(path@).len() > 0 && !old(self).0.0.tree.file_above(segs(path@))) ==> forall|q: Seq<Seq<char>>|
                #[trigger] final(self).0.lookup(q) == old(self).0.lookup(q),
    {
        let _ = self.0.write_file(path, buf);
    }
}

impl MemoryFileSystem {
    /// `s` is the path, written from the root, of an entry directly inside `p`.
    pub open spec fn names_child(self, p: Seq<Seq<char>>, s: Seq<char>) -> bool {
        exists|x: Seq<char>| #[trigger] self.0.lookup(p.push(x)) is Some && s == join_absolute(self.0.location() + p.push(x))
    }
}

impl FileSystem for MemoryFileSystem {
    open spec fn fs_inv(&self) -> bool {
        self.0.wf() && self.0.0.parent is None
    }

    open spec fn fs_lookup(&self, p: Seq<Seq<char>>) -> Option<FsNode> {
        self.0.lookup(p)
    }

    open spec fn fs_exact(&self) -> bool {
        true
    }

    fn stat(&self, path: &str) -> (r: Result<Option<Stat>, FsError>)
        ensures
            r is Ok,
            r matches Ok(Some(st)) ==> (st.ty == StatType::File ==> self.0.0.tree.times_at(segs(path@)) == Some(
                (st.create_time, st.update_time),
            )),
    {
        match self.0.read(path) {
            None => Ok(None),
            Some(entry) => {
                let st = entry.stat();
                Ok(Some(st))
            },
        }
    }

    /// Fails, changing nothing, where the path is the root or lies below a file.
    fn write_file(&mut self, path: &str, buf: &[u8]) -> (r: Result<(), FsError>)
        ensures
            r is Ok <==> write_allowed(Set::new(|q: Seq<Seq<char>>| is_file(old(self).fs_lookup(q))), segs(path@)),
            r is Err ==> forall|q: Seq<Seq<char>>| #[trigger] final(self).fs_lookup(q) == old(self).fs_lookup(q),
            r is Ok ==> (final(self).0.0.tree.times_at(segs(path@)) matches Some(t) && (if is_file(
                old(self).fs_lookup(segs(path@)),
            ) {
                t.0 == old(self).0.0.tree.times_at(segs(path@))->Some_0.0
            } else {
                t.0 == t.1
            })),
    {
        let ghost before = *self;
        proof {
            let p = segs(path@);
            let fset = Set::new(|q: Seq<Seq<char>>| is_file(before.fs_lookup(q)));
            if before.0.0.tree.file_above(p) {
                let k = choose|k: int| 0 < k < p.len() && #[trigger] is_file(before.0.0.tree.lookup(p.take(k)));
                assert(fset.contains(p.take(k)));
            }
            if exists|k: int| 0 < k < p.len() && #[trigger] fset.contains(p.take(k)) {
                let k = choose|k: int| 0 < k < p.len() && #[trigger] fset.contains(p.take(k));
                assert(is_file(before.0.0.tree.lookup(p.take(k))));
            }
        }
        self.0.write_file(path, buf)
    }

    /// Fails, changing nothing, where the path is a file or lies below one.
    fn create_dir(&mut self, path: &str) -> (r: Result<(), FsError>)
        ensures
            r is Ok <==> dir_allowed(Set::new(|q: Seq<Seq<char>>| is_file(old(self).fs_lookup(q))), segs(path@)),
            r is Err ==> forall|q: Seq<Seq<char>>| #[trigger] final(self).fs_lookup(q) == old(self).fs_lookup(q),
    {
        let ghost before = *self;
        proof {
            let p = segs(path@);
            let fset = Set::new(|q: Seq<Seq<char>>| is_file(before.fs_lookup(q)));
            if before.0.0.tree.file_above(p) {
                let k = choose|k: int| 0 < k < p.len() && #[trigger] is_file(before.0.0.tree.lookup(p.take(k)));
                assert(fset.contains(p.take(k)));
            }
            if exists|k: int| 0 < k < p.len() && #[trigger] fset.contains(p.take(k)) {
                let k = choose|k: int| 0 < k < p.len() && #[trigger] fset.contains(p.take(k));
                assert(is_file(before.0.0.tree.lookup(p.take(k))));
            }
        }
        match self.0.create_dir(path) {
            Ok(_) => Ok(()),
            Err(e) => Err(e),
        }
    }

    /// Fails where the path is a directory.
    fn read_file(&self, path: &str) -> (r: Result<Option<Vec<u8>>, FsError>)
        ensures
            r is Err <==> self.fs_lookup(segs(path@)) == Some(FsNode::Dir),
    {
        match self.0.read(path) {
            None => Ok(None),
            Some(MemoryEntry::File(f)) => Ok(Some(f.buf())),
            Some(MemoryEntry::Dir(_)) => Err(FsError::ExpectedFile(path.to_owned())),
        }
    }

    /// The paths, written from the root, of the entries directly inside the
    /// directory, one for each.
    fn read_dir(&self, path: &str) -> (r: Result<Option<Vec<String>>, FsError>)
        ensures
            r is Err <==> is_file(self.fs_lookup(segs(path@))),
            r matches Ok(Some(v)) ==> {
                &&& v@.len() == Set::new(|x: Seq<char>| self.fs_lookup(segs(path@).push(x)) is Some).len()
                &&& forall|i: int| 0 <= i < v@.len() ==> #[trigger] self.names_child(segs(path@), v@[i]@)
            },
    {
        match self.0.read(path) {
            None => Ok(None),
            Some(MemoryEntry::Dir(d)) => {
                let names = d.entry_names();
                proof {
                    let p = segs(path@);
                    assert forall|x: Seq<char>| #[trigger] self.fs_lookup(p.push(x)) == d.lookup(seq![x]) by {
                        assert(p + seq![x] =~= p.push(x));
                    }
                    assert(Set::new(|x: Seq<char>| self.fs_lookup(segs(path@).push(x)) is Some) =~= Set::new(
                        |x: Seq<char>| d.0.tree.lookup(Seq::<Seq<char>>::empty().push(x)) is Some,
                    )) by {
                        assert forall|x: Seq<char>| Seq::<Seq<char>>::empty().push(x) == seq![x] by {
                            assert(Seq::<Seq<char>>::empty().push(x) =~= seq![x]);
                        }
                    }
                    assert(names@.len() == d.0.tree.child_count(Seq::empty()));
                    assert forall|i: int| 0 <= i < names@.len() implies #[trigger] self.names_child(p, names@[i]@) by {
                        assert(d.names_entry(names@[i]@));
                        let x = choose|x: Seq<char>| #[trigger] d.lookup(seq![x]) is Some && names@[i]@ == join_absolute(
                            d.location().push(x),
                        );
                        assert(d.location().push(x) =~= self.0.location() + p.push(x));
                        assert(self.fs_lookup(p.push(x)) is Some);
                    }
                }
                Ok(Some(names))
            },
            Some(MemoryEntry::File(_)) => Err(FsError::ExpectedDir(path.to_owned())),
        }
    }

    fn all_files_in(&self, path: &str) -> (r: Result<Vec<String>, FsError>)
        ensures
            r is Ok,
    {
        let p = as_schemes(path);
        proof {
            lemma_segs_valid(path@);
        }
        let files = self.0.0.tree.rendered_files(&p, true);
        proof {
            let pv = segs(path@);
            let v = files@;
            assert(lists_tree_files(self.0.0.tree, pv, v));
            let fset = Set::new(|q: Seq<Seq<char>>| is_file(self.fs_lookup(q)));
            assert forall|i: int| #![trigger v[i]] 0 <= i < v.len() implies has_prefix(segs(v[i]@), pv)
                && fset.contains(segs(v[i]@)) by {
                assert(is_file(self.0.0.tree.lookup(segs(v[i]@))));
            }
            assert forall|q: Seq<Seq<char>>| has_prefix(q, pv) && #[trigger] fset.contains(q)
                implies names_path(v, q) by {
                assert(is_file(self.0.0.tree.lookup(q)));
            }
            assert(lists_files(fset, pv, v));
        }
        Ok(files)
    }

    fn delete(&mut self, path: &str) -> (r: Result<(), FsError>)
        ensures
            r is Ok,
    {
        self.0.delete(path);
        Ok(())
    }
}

} // verus!
