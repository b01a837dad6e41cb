//! A file system seen through path prefixes that are cut off: a path that
//! starts with one of the prefixes reaches the inner file system without it.

use vstd::prelude::*;

use crate::error::FsError;
use crate::file_system::{
    FileSystem, FsNode, Stat, after_create_dir, after_delete, after_write, read_result_reports,
    stat_result_reports,
};
use crate::path::{segs, strs_view};

verus! {

pub open spec fn starts_with(s: Seq<char>, p: Seq<char>) -> bool {
    p.len() <= s.len() && s.take(p.len() as int) == p
}

/// `s` with every leading copy of `p` removed (nothing is removed for an empty `p`).
pub open spec fn trim_start(s: Seq<char>, p: Seq<char>) -> Seq<char>
    decreases s.len(),
{
    if p.len() > 0 && starts_with(s, p) {
        trim_start(s.skip(p.len() as int), p)
    } else {
        s
    }
}

/// The first of the prefixes that `s` starts with.
pub open spec fn find_prefix(ps: Seq<Seq<char>>, s: Seq<char>) -> Option<Seq<char>>
    decreases ps.len(),
{
    if ps.len() == 0 {
        None
    } else if starts_with(s, ps[0]) {
        Some(ps[0])
    } else {
        find_prefix(ps.drop_first(), s)
    }
}

/// The path that reaches the inner file system.
pub open spec fn clipped(ps: Seq<Seq<char>>, s: Seq<char>) -> Seq<char> {
    match find_prefix(ps, s) {
        Some(p) => trim_start(s, p),
        None => s,
    }
}

/// An entry path `e` reported by the inner file system for `path`, written
/// back with the prefix that `path` was reached by.
pub open spec fn restored(ps: Seq<Seq<char>>, path: Seq<char>, e: Seq<char>) -> Seq<char> {
    match find_prefix(ps, path) {
        Some(p) => p + trim_start(e, p),
        None => e,
    }
}

/// `s` is some entry path written back as `restored` does.
pub open spec fn is_restored(ps: Seq<Seq<char>>, path: Seq<char>, s: Seq<char>) -> bool {
    exists|e: Seq<char>| s == restored(ps, path, e)
}

/// Whether `s` starts with `p`.
pub fn str_starts_with(s: &str, p: &str) -> (r: bool)
    ensures
        r == starts_with(s@, p@),
{
    let n = s.unicode_len();
    let m = p.unicode_len();
    if m > n {
        return false;
    }
    let mut i: usize = 0;
    while i < m
        invariant
            n == s@.len(),
            m == p@.len(),
            m <= n,
            i <= m,
            forall|j: int| 0 <= j < i ==> s@[j] == p@[j],
        decreases m - i,
    {
        if s.get_char(i) != p.get_char(i) {
            assert(s@.take(m as int)[i as int] != p@[i as int]);
            return false;
        }
        i = i + 1;
    }
    assert(s@.take(m as int) =~= p@);
    true
}

/// `s` with every leading copy of `p` removed.
pub fn trim_start_str<'a>(s: &'a str, p: &str) -> (r: &'a str)
    ensures
        r@ == trim_start(s@, p@),
{
    let m = p.unicode_len();
    if m == 0 {
        return s;
    }
    let mut rest: &'a str = s;
    while str_starts_with(rest, p)
        invariant
            m == p@.len(),
            m > 0,
            trim_start(rest@, p@) == trim_start(s@, p@),
        decreases rest@.len(),
    {
        let n = rest.unicode_len();
        rest = rest.substring_char(m, n);
    }
    rest
}

/// A file system whose paths lose the first of some prefixes that they start with.
pub struct ClipPathFileSystem<Fs> {
    fs: Fs,
    clip_paths: Vec<String>,
}

impl<Fs: FileSystem> ClipPathFileSystem<Fs> {
    /// The inner file system.
    pub closed spec fn inner(&self) -> Fs {
        self.fs
    }

    /// The prefixes that are cut off, in the order they are tried.
    pub closed spec fn prefixes(&self) -> Seq<Seq<char>> {
        strs_view(self.clip_paths@)
    }

    pub fn new(fs: Fs, clip_paths: Vec<String>) -> (r: ClipPathFileSystem<Fs>)
        ensures
            r.inner() == fs,
            r.prefixes() == strs_view(clip_paths@),
    {
        ClipPathFileSystem { fs, clip_paths }
    }

    /// The first prefix that `path` starts with, by its index.
    fn prefix_index(&self, path: &str) -> (r: Option<usize>)
        ensures
            match r {
                Some(i) => i < self.clip_paths@.len() && find_prefix(self.prefixes(), path@) == Some(
                    self.clip_paths@[i as int]@,
                ),
                None => find_prefix(self.prefixes(), path@) is None,
            },
    {
        let ghost ps = self.prefixes();
        let mut i: usize = 0;
        assert(ps.skip(0) =~= ps);
        while i < self.clip_paths.len()
            invariant
                i <= self.clip_paths@.len(),
                ps == self.prefixes(),
                find_prefix(ps, path@) == find_prefix(ps.skip(i as int), path@),
            decreases self.clip_paths@.len() - i,
        {
            let ghost rest = ps.skip(i as int);
            assert(rest[0] == self.clip_paths@[i as int]@);
            assert(rest.drop_first() =~= ps.skip(i + 1));
            if str_starts_with(path, self.clip_paths[i].as_str()) {
                return Some(i);
            }
            i = i + 1;
        }
        assert(ps.skip(i as int).len() == 0);
        None
    }

    /// The path that reaches the inner file system.
    fn path<'a>(&self, path: &'a str) -> (r: &'a str)
        ensures
            r@ == clipped(self.prefixes(), path@),
    {
        match self.prefix_index(path) {
            Some(i) => trim_start_str(path, self.clip_paths[i].as_str()),
            None => path,
        }
    }

    /// An entry path `p` of the inner file system, written back with the
    /// prefix that `path` was reached by.
    fn restore_path(&self, path: &str, p: &str) -> (r: String)
        ensures
            r@ == restored(self.prefixes(), path@, p@),
    {
        match self.prefix_index(path) {
            Some(i) => {
                let prefix = self.clip_paths[i].as_str();
                let mut r = prefix.to_owned();
                r.append(trim_start_str(p, prefix));
                r
            },
            None => p.to_owned(),
        }
    }

    /// The stat of the entry that `path` reaches.
    pub fn stat(&self, path: &str) -> (r: Result<Option<Stat>, FsError>)
        requires
            self.inner().fs_inv(),
        ensures
            stat_result_reports(r, self.inner().fs_lookup(segs(clipped(self.prefixes(), path@)))),
    {
        self.fs.stat(self.path(path))
    }

    /// Writes a file at the path that `path` reaches.
    pub fn write_file(&mut self, path: &str, buf: &[u8]) -> (r: Result<(), FsError>)
        requires
            old(self).inner().fs_inv(),
        ensures
            final(self).inner().fs_inv(),
            final(self).prefixes() == old(self).prefixes(),
            r is Ok ==> forall|q: Seq<Seq<char>>|
                #[trigger] final(self).inner().fs_lookup(q) == after_write(
                    old(self).inner().fs_lookup(q),
                    q,
                    segs(clipped(old(self).prefixes(), path@)),
                    buf@,
                ),
    {
        let p = self.path(path);
        self.fs.write_file(p, buf)
    }

    /// Creates the directory that `path` reaches, with its enclosing ones.
    pub fn create_dir(&mut self, path: &str) -> (r: Result<(), FsError>)
        requires
            old(self).inner().fs_inv(),
        ensures
            final(self).inner().fs_inv(),
            final(self).prefixes() == old(self).prefixes(),
            r is Ok ==> forall|q: Seq<Seq<char>>|
                #[trigger] final(self).inner().fs_lookup(q) == after_create_dir(
                    old(self).inner().fs_lookup(q),
                    q,
                    segs(clipped(old(self).prefixes(), path@)),
                ),
    {
        let p = self.path(path);
        self.fs.create_dir(p)
    }

    /// The content of the file that `path` reaches.
    pub fn read_file(&self, path: &str) -> (r: Result<Option<Vec<u8>>, FsError>)
        requires
            self.inner().fs_inv(),
        ensures
            read_result_reports(r, self.inner().fs_lookup(segs(clipped(self.prefixes(), path@)))),
    {
        self.fs.read_file(self.path(path))
    }

    /// The entries of the directory that `path` reaches, each written back
    /// with the prefix that `path` was reached by.
    pub fn read_dir(&self, path: &str) -> (r: Result<Option<Vec<String>>, FsError>)
        requires
            self.inner().fs_inv(),
        ensures
            r matches Ok(Some(v)) ==> self.inner().fs_lookup(segs(clipped(self.prefixes(), path@))) == Some(
                FsNode::Dir,
            ) && forall|i: int| 0 <= i < v@.len() ==> #[trigger] is_restored(self.prefixes(), path@, v@[i]@),
            r matches Ok(None) ==> self.inner().fs_lookup(segs(clipped(self.prefixes(), path@))) is None,
    {
        let entries = match self.fs.read_dir(self.path(path)) {
            Ok(Some(entries)) => entries,
            Ok(None) => return Ok(None),
            Err(e) => return Err(e),
        };
        let mut out: Vec<String> = Vec::new();
        let mut i: usize = 0;
        while i < entries.len()
            invariant
                i <= entries@.len(),
                out@.len() == i,
                self.inner().fs_lookup(segs(clipped(self.prefixes(), path@))) == Some(FsNode::Dir),
                forall|a: int| 0 <= a < i ==> #[trigger] out@[a]@ == restored(self.prefixes(), path@, entries@[a]@),
            decreases entries@.len() - i,
        {
            out.push(self.restore_path(path, entries[i].as_str()));
            i = i + 1;
        }
        proof {
            assert forall|a: int| 0 <= a < out@.len() implies #[trigger] is_restored(self.prefixes(), path@, out@[a]@) by {
                assert(out@[a]@ == restored(self.prefixes(), path@, entries@[a]@));
            }
        }
        Ok(Some(out))
    }

    /// Deletes the entry that `path` reaches, with everything below it.
    pub fn delete(&mut self, path: &str) -> (r: Result<(), FsError>)
        requires
            old(self).inner().fs_inv(),
        ensures
            final(self).inner().fs_inv(),
            final(self).prefixes() == old(self).prefixes(),
            r is Ok ==> forall|q: Seq<Seq<char>>|
                #[trigger] final(self).inner().fs_lookup(q) == after_delete(
                    old(self).inner().fs_lookup(q),
                    q,
                    segs(clipped(old(self).prefixes(), path@)),
                ),
    {
        let p = self.path(path);
        self.fs.delete(p)
    }
}

} // verus!
