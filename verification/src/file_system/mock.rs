//! The mock file system. Paths it reports are written from its root without
//! a leading `/`, and a directory lists its entries by name.

use vstd::prelude::*;

use crate::error::FsError;
use crate::file_system::mock::dir::MockDir;
use crate::file_system::mock::file::MockFile;
use crate::file_system::nodes::lists_tree_files;
use crate::file_system::{
    FileSystem, FsNode, Stat, StatType, after_write, dir_allowed, is_file, lists_files, names_path, write_allowed,
};
use crate::path::{strs_view, as_schemes, has_prefix, lemma_segs_valid, segs};

pub mod dir;
pub mod file;

verus! {

/// A file or a directory.
pub enum MockEntry {
    File(MockFile),
    Dir(MockDir),
}

/// A borrowed file or directory.
pub enum MockEntryRef<'a> {
    File(&'a MockFile),
    Dir(&'a MockDir),
}

/// A mutably borrowed file or directory.
pub enum MockEntryMut<'a> {
    File(&'a mut MockFile),
    Dir(&'a mut MockDir),
}

impl<'a> MockEntryMut<'a> {
    pub fn stat(&self) -> (r: Stat)
        requires
            match self {
                MockEntryMut::File(_) => true,
                MockEntryMut::Dir(d) => d.wf(),
            },
        ensures
            match self {
                MockEntryMut::File(f) => r.ty == StatType::File && r.size == f.buf@.len(),
                MockEntryMut::Dir(d) => r.ty == StatType::Dir && r.size == d.tree.child_count(Seq::empty()),
            },
    {
        match self {
            MockEntryMut::File(file) => file.stat(),
            MockEntryMut::Dir(dir) => dir.stat(),
        }
    }

    pub fn file(self) -> (r: Result<&'a mut MockFile, FsError>)
        ensures
            (self is File) <==> (r is Ok),
            self is Dir ==> r matches Err(FsError::ExpectedFile(_)),
            r matches Ok(f) ==> (self matches MockEntryMut::File(e) && *f == *e && *final(f) == *final(e)),
    {
        match self {
            MockEntryMut::File(file) => Ok(file),
            MockEntryMut::Dir(_) => Err(FsError::ExpectedFile(String::new())),
        }
    }

    pub fn dir(self) -> (r: Result<&'a mut MockDir, FsError>)
        ensures
            (self is Dir) <==> (r is Ok),
            self is File ==> r matches Err(FsError::ExpectedDir(_)),
            r matches Ok(d) ==> (self matches MockEntryMut::Dir(e) && *d == *e && *final(d) == *final(e)),
    {
        match self {
            MockEntryMut::Dir(dir) => Ok(dir),
            MockEntryMut::File(_) => Err(FsError::ExpectedDir(String::new())),
        }
    }
}

impl MockEntry {
    /// The entry is a copy of what `base` holds at `p`.
    pub open spec fn stands_for(self, base: MockDir, p: Seq<Seq<char>>) -> bool {
        match self {
            MockEntry::File(f) => base.lookup(p) == Some(FsNode::File(f.buf@)),
            MockEntry::Dir(d) => {
                &&& base.lookup(p) == Some(FsNode::Dir)
                &&& d.wf()
                &&& forall|q: Seq<Seq<char>>| q.len() > 0 ==> #[trigger] d.lookup(q) == base.lookup(p + q)
            },
        }
    }

    pub open spec fn wf(self) -> bool {
        match self {
            MockEntry::File(_) => true,
            MockEntry::Dir(d) => d.wf(),
        }
    }

    pub fn stat(&self) -> (r: Stat)
        requires
            self.wf(),
        ensures
            match self {
                MockEntry::File(f) => r.ty == StatType::File && r.size == f.buf@.len() && r.create_time == f.create_time
                    && r.update_time == f.update_time,
                MockEntry::Dir(d) => r.ty == StatType::Dir && r.size == d.tree.child_count(Seq::empty()),
            },
    {
        match self {
            MockEntry::File(file) => file.stat(),
            MockEntry::Dir(dir) => dir.stat(),
        }
    }

    pub fn file(self) -> (r: Result<MockFile, FsError>)
        ensures
            match self {
                MockEntry::File(f) => r == Ok::<MockFile, FsError>(f),
                MockEntry::Dir(_) => r matches Err(FsError::ExpectedFile(_)),
            },
    {
        match self {
            MockEntry::File(file) => Ok(file),
            MockEntry::Dir(_) => Err(FsError::ExpectedFile(String::new())),
        }
    }

    pub fn file_mut(&mut self) -> (r: Result<&mut MockFile, FsError>)
        ensures
            *old(self) is File <==> r is Ok,
            *old(self) is Dir ==> *final(self) == *old(self),
            *old(self) is Dir ==> r matches Err(FsError::ExpectedFile(_)),
            r matches Ok(f) ==> *f == old(self)->File_0 && *final(self) == MockEntry::File(*final(f)),
    {
        match self {
            MockEntry::File(file) => Ok(file),
            MockEntry::Dir(_) => Err(FsError::ExpectedFile(String::new())),
        }
    }

    pub fn dir_mut(&mut self) -> (r: Result<&mut MockDir, FsError>)
        ensures
            *old(self) is Dir <==> r is Ok,
            *old(self) is File ==> *final(self) == *old(self),
            *old(self) is File ==> r matches Err(FsError::ExpectedDir(_)),
            r matches Ok(d) ==> *d == old(self)->Dir_0 && *final(self) == MockEntry::Dir(*final(d)),
    {
        match self {
            MockEntry::Dir(dir) => Ok(dir),
            MockEntry::File(_) => Err(FsError::ExpectedDir(String::new())),
        }
    }

    pub fn dir_ref(&self) -> (r: Result<&MockDir, FsError>)
        ensures
            match self {
                MockEntry::Dir(d) => r == Ok::<&MockDir, FsError>(d),
                MockEntry::File(_) => r matches Err(FsError::ExpectedDir(_)),
            },
    {
        match self {
            MockEntry::Dir(dir) => Ok(dir),
            MockEntry::File(_) => Err(FsError::ExpectedDir(String::new())),
        }
    }

    pub fn dir(self) -> (r: Result<MockDir, FsError>)
        ensures
            match self {
                MockEntry::Dir(d) => r == Ok::<MockDir, FsError>(d),
                MockEntry::File(_) => r matches Err(FsError::ExpectedDir(_)),
            },
    {
        match self {
            MockEntry::Dir(dir) => Ok(dir),
            MockEntry::File(_) => Err(FsError::ExpectedDir(String::new())),
        }
    }
}

/// A file system held in memory, under one root directory.
pub struct MockFileSystem(pub MockDir);

impl Default for MockFileSystem {
    /// An empty file system.
    fn default() -> (r: MockFileSystem)
        ensures
            r.0.wf(),
            forall|q: Seq<Seq<char>>| q.len() > 0 ==> #[trigger] r.0.lookup(q) is None,
    {
        MockFileSystem(MockDir::new())
    }
}

impl MockFileSystem {
    /// Writes a file, creating its enclosing directories; where that cannot be
    /// done (the path names the root, or an enclosing path holds a file)
    /// nothing changes.
    pub fn force_write(&mut self, path: &str, buf: &[u8])
        requires
            old(self).0.wf(),
        ensures
            final(self).0.wf(),
            segs(path@).len() > 0 && !old(self).0.tree.file_above(segs(path@)) ==> forall|q: Seq<Seq<char>>|
                #[trigger] final(self).0.lookup(q) == after_write(old(self).0.lookup(q), q, segs(path@), buf@),
            !(segs(path@).len() > 0 && !old(self).0.tree.file_above(segs(path@))) ==> forall|q: Seq<Seq<char>>|
                #[trigger] final(self).0.lookup(q) == old(self).0.lookup(q),
    {
        let _ = self.0.write_file(path, buf);
    }
}

impl FileSystem for MockFileSystem {
    open spec fn fs_inv(&self) -> bool {
        self.0.wf()
    }

    open spec fn fs_lookup(&self, p: Seq<Seq<char>>) -> Option<FsNode> {
        self.0.lookup(p)
    }

    open spec fn fs_exact(&self) -> bool {
        true
    }

    fn stat(&self, path: &str) -> (r: Result<Option<Stat>, FsError>)
        ensures
            r is Ok,
            r matches Ok(Some(st)) ==> (st.ty == StatType::File ==> self.0.tree.times_at(segs(path@)) == Some(
                (st.create_time, st.update_time),
            )),
    {
        match self.0.read(path) {
            None => Ok(None),
            Some(entry) => {
                let st = entry.stat();
                Ok(Some(st))
            },
        }
    }

    /// Fails, changing nothing, where the path is the root or lies below a file.
    fn write_file(&mut self, path: &str, buf: &[u8]) -> (r: Result<(), FsError>)
        ensures
            r is Ok <==> write_allowed(Set::new(|q: Seq<Seq<char>>| is_file(old(self).fs_lookup(q))), segs(path@)),
            r is Err ==> forall|q: Seq<Seq<char>>| #[trigger] final(self).fs_lookup(q) == old(self).fs_lookup(q),
            r is Ok ==> (final(self).0.tree.times_at(segs(path@)) matches Some(t) && (if is_file(
                old(self).fs_lookup(segs(path@)),
            ) {
                t.0 == old(self).0.tree.times_at(segs(path@))->Some_0.0
            } else {
                t.0 == t.1
            })),
    {
        let ghost before = *self;
        proof {
            let p = segs(path@);
            let fset = Set::new(|q: Seq<Seq<char>>| is_file(before.fs_lookup(q)));
            if before.0.tree.file_above(p) {
                let k = choose|k: int| 0 < k < p.len() && #[trigger] is_file(before.0.tree.lookup(p.take(k)));
                assert(fset.contains(p.take(k)));
            }
            if exists|k: int| 0 < k < p.len() && #[trigger] fset.contains(p.take(k)) {
                let k = choose|k: int| 0 < k < p.len() && #[trigger] fset.contains(p.take(k));
                assert(is_file(before.0.tree.lookup(p.take(k))));
            }
        }
        self.0.write_file(path, buf)
    }

    /// Fails, changing nothing, where the path is a file or lies below one.
    fn create_dir(&mut self, path: &str) -> (r: Result<(), FsError>)
        ensures
            r is Ok <==> dir_allowed(Set::new(|q: Seq<Seq<char>>| is_file(old(self).fs_lookup(q))), segs(path@)),
            r is Err ==> forall|q: Seq<Seq<char>>| #[trigger] final(self).fs_lookup(q) == old(self).fs_lookup(q),
    {
        let ghost before = *self;
        proof {
            let p = segs(path@);
            let fset = Set::new(|q: Seq<Seq<char>>| is_file(before.fs_lookup(q)));
            if before.0.tree.file_above(p) {
                let k = choose|k: int| 0 < k < p.len() && #[trigger] is_file(before.0.tree.lookup(p.take(k)));
                assert(fset.contains(p.take(k)));
            }
            if exists|k: int| 0 < k < p.len() && #[trigger] fset.contains(p.take(k)) {
                let k = choose|k: int| 0 < k < p.len() && #[trigger] fset.contains(p.take(k));
                assert(is_file(before.0.tree.lookup(p.take(k))));
            }
        }
        match self.0.create_dir(path) {
            Ok(_) => Ok(()),
            Err(e) => Err(e),
        }
    }

    /// Fails where the path is a directory.
    fn read_file(&self, path: &str) -> (r: Result<Option<Vec<u8>>, FsError>)
        ensures
            r is Err <==> self.fs_lookup(segs(path@)) == Some(FsNode::Dir),
    {
        match self.0.read(path) {
            None => Ok(None),
            Some(MockEntry::File(f)) => Ok(Some(f.buf)),
            Some(MockEntry::Dir(_)) => Err(FsError::ExpectedFile(path.to_owned())),
        }
    }

    /// The names of the entries directly inside the directory.
    fn read_dir(&self, path: &str) -> (r: Result<Option<Vec<String>>, FsError>)
        ensures
            r is Err <==> is_file(self.fs_lookup(segs(path@))),
            r matches Ok(Some(v)) ==> {
                &&& forall|i: int| 0 <= i < v@.len() ==> #[trigger] self.fs_lookup(segs(path@).push(v@[i]@)) is Some
                &&& forall|x: Seq<char>| #[trigger] self.fs_lookup(segs(path@).push(x)) is Some ==> exists|i: int|
                    0 <= i < v@.len() && #[trigger] v@[i]@ == x
                &&& strs_view(v@).no_duplicates()
            },
    {
        match self.0.read(path) {
            None => Ok(None),
            Some(MockEntry::Dir(d)) => {
                let names = d.entry_names();
                proof {
                    let p = segs(path@);
                    assert forall|x: Seq<char>| #[trigger] self.fs_lookup(p.push(x)) == d.lookup(seq![x]) by {
                        assert(p + seq![x] =~= p.push(x));
                    }
                    assert forall|i: int| 0 <= i < names@.len() implies #[trigger] self.fs_lookup(p.push(names@[i]@)) is Some by {
                        assert(self.fs_lookup(p.push(names@[i]@)) == d.lookup(seq![names@[i]@]));
                    }
                }
                Ok(Some(names))
            },
            Some(MockEntry::File(_)) => Err(FsError::ExpectedDir(path.to_owned())),
        }
    }

    /// The names of the entries directly inside the directory; an error
    /// where there is no entry.
    fn try_read_dir(&self, path: &str) -> (r: Result<Vec<String>, FsError>)
        ensures
            r matches Ok(v) ==> {
                &&& forall|i: int| 0 <= i < v@.len() ==> #[trigger] self.fs_lookup(segs(path@).push(v@[i]@)) is Some
                &&& forall|x: Seq<char>| #[trigger] self.fs_lookup(segs(path@).push(x)) is Some ==> exists|i: int|
                    0 <= i < v@.len() && #[trigger] v@[i]@ == x
                &&& strs_view(v@).no_duplicates()
            },
    {
        match self.read_dir(path) {
            Ok(Some(entries)) => Ok(entries),
            Ok(None) => Err(FsError::NotFound(path.to_owned())),
            Err(e) => Err(e),
        }
    }

    fn all_files_in(&self, path: &str) -> (r: Result<Vec<String>, FsError>)
        ensures
            r is Ok,
    {
        let p = as_schemes(path);
        proof {
            lemma_segs_valid(path@);
        }
        let files = self.0.tree.rendered_files(&p, false);
        proof {
            let pv = segs(path@);
            let v = files@;
            assert(lists_tree_files(self.0.tree, pv, v));
            let fset = Set::new(|q: Seq<Seq<char>>| is_file(self.fs_lookup(q)));
            assert forall|i: int| #![trigger v[i]] 0 <= i < v.len() implies has_prefix(segs(v[i]@), pv)
                && fset.contains(segs(v[i]@)) by {
                assert(is_file(self.0.tree.lookup(segs(v[i]@))));
            }
            assert forall|q: Seq<Seq<char>>| has_prefix(q, pv) && #[trigger] fset.contains(q)
                implies names_path(v, q) by {
                assert(is_file(self.0.tree.lookup(q)));
            }
            assert(lists_files(fset, pv, v));
        }
        Ok(files)
    }

    fn delete(&mut self, path: &str) -> (r: Result<(), FsError>)
        ensures
            r is Ok,
    {
        self.0.delete(path);
        Ok(())
    }
}

} // verus!
