//! File systems: the interface that the repository works through, and the
//! in-memory implementations.

use vstd::prelude::*;

use crate::error::FsError;
use crate::path::{has_prefix, segs};

pub mod clip;
pub mod memory;
pub mod mock;
pub mod nodes;

verus! {

/// What a path holds, as the contracts see it.
pub enum FsNode {
    File(Seq<u8>),
    Dir,
}

pub open spec fn is_file(o: Option<FsNode>) -> bool {
    o matches Some(FsNode::File(_))
}

/// `q` is an enclosing path of `p` (not `p` itself).
pub open spec fn is_proper_prefix(q: Seq<Seq<char>>, p: Seq<Seq<char>>) -> bool {
    has_prefix(p, q) && q.len() < p.len()
}

/// What `q` holds after a file is written at `p`: `p` holds the file, the
/// enclosing paths are directories, and whatever was below `p` is gone.
pub open spec fn after_write(old: Option<FsNode>, q: Seq<Seq<char>>, p: Seq<Seq<char>>, buf: Seq<u8>) -> Option<FsNode> {
    if q == p {
        Some(FsNode::File(buf))
    } else if is_proper_prefix(q, p) {
        Some(FsNode::Dir)
    } else if has_prefix(q, p) {
        None
    } else {
        old
    }
}

/// What `q` holds after the directory `p` is created with its enclosing ones.
pub open spec fn after_create_dir(old: Option<FsNode>, q: Seq<Seq<char>>, p: Seq<Seq<char>>) -> Option<FsNode> {
    if has_prefix(p, q) {
        Some(FsNode::Dir)
    } else {
        old
    }
}

/// What `q` holds after `p` and everything below it is deleted; the root is
/// never deleted.
pub open spec fn after_delete(old: Option<FsNode>, q: Seq<Seq<char>>, p: Seq<Seq<char>>) -> Option<FsNode> {
    if p.len() > 0 && has_prefix(q, p) {
        None
    } else {
        old
    }
}

#[derive(Debug, Copy, Clone, PartialEq, Eq, Hash, Structural)]
pub enum StatType {
    File,
    Dir,
}

/// What `stat` reports of an entry.
#[derive(Debug, Copy, Clone, PartialEq, Eq, Hash, Structural)]
pub struct Stat {
    pub ty: StatType,
    /// For a file its size in bytes; for a directory its number of entries.
    pub size: u64,
    /// Seconds since the UNIX epoch when the entry was created.
    pub create_time: u64,
    /// Seconds since the UNIX epoch when the entry was last updated.
    pub update_time: u64,
}

impl Stat {
    /// A stat created now.
    pub fn new(ty: StatType, size: u64) -> (r: Stat)
        ensures
            r.ty == ty,
            r.size == size,
            r.create_time == r.update_time,
    {
        let time = crate::time::since_epoch_secs();
        Stat { ty, size, create_time: time, update_time: time }
    }

    pub fn is_file(&self) -> (r: bool)
        ensures
            r == (self.ty == StatType::File),
    {
        match self.ty {
            StatType::File => true,
            StatType::Dir => false,
        }
    }

    pub fn is_dir(&self) -> (r: bool)
        ensures
            r == (self.ty == StatType::Dir),
    {
        match self.ty {
            StatType::File => false,
            StatType::Dir => true,
        }
    }
}

/// A stat that reports what a path holds: its type, and for a file its size.
pub open spec fn stat_reports(st: Stat, node: FsNode) -> bool {
    match node {
        FsNode::File(b) => st.ty == StatType::File && st.size == b.len(),
        FsNode::Dir => st.ty == StatType::Dir,
    }
}

pub open spec fn stat_result_reports(r: Result<Option<Stat>, FsError>, node: Option<FsNode>) -> bool {
    match r {
        Ok(Some(st)) => node matches Some(n) && stat_reports(st, n),
        Ok(None) => node is None,
        Err(_) => true,
    }
}

/// A file can be written at `p`: `p` is not the root and no path above it
/// is among the `files`.
pub open spec fn write_allowed(files: Set<Seq<Seq<char>>>, p: Seq<Seq<char>>) -> bool {
    p.len() > 0 && !exists|k: int| 0 < k < p.len() && #[trigger] files.contains(p.take(k))
}

/// A directory can be made at `p`: neither `p` nor a path above it is among
/// the `files`.
pub open spec fn dir_allowed(files: Set<Seq<Seq<char>>>, p: Seq<Seq<char>>) -> bool {
    !(exists|k: int| 0 < k < p.len() && #[trigger] files.contains(p.take(k))) && !files.contains(p)
}

/// Two views of the contents agree everywhere.
pub open spec fn same_contents(
    a: spec_fn(Seq<Seq<char>>) -> Option<FsNode>,
    b: spec_fn(Seq<Seq<char>>) -> Option<FsNode>,
) -> bool {
    forall|q: Seq<Seq<char>>| #[trigger] a(q) == b(q)
}

/// A listing of a directory fails exactly where a file stands.
pub open spec fn list_fails_exactly(r: Result<Option<Vec<String>>, FsError>, node: Option<FsNode>) -> bool {
    r is Err <==> is_file(node)
}

/// Where nothing stands at `path` the read fails with `NotFound` naming it;
/// where a file stands it succeeds.
pub open spec fn try_read_exact(r: Result<Vec<u8>, FsError>, node: Option<FsNode>, path: Seq<char>) -> bool {
    &&& node is None ==> (r matches Err(FsError::NotFound(s)) && s@ == path)
    &&& is_file(node) ==> r is Ok
}

/// Where nothing stands at `path` the listing fails with `NotFound` naming
/// it; where a directory stands it succeeds.
pub open spec fn try_list_exact(r: Result<Vec<String>, FsError>, node: Option<FsNode>, path: Seq<char>) -> bool {
    &&& node is None ==> (r matches Err(FsError::NotFound(s)) && s@ == path)
    &&& node == Some(FsNode::Dir) ==> r is Ok
}

/// A read of a file fails exactly where a directory stands.
pub open spec fn read_fails_exactly(r: Result<Option<Vec<u8>>, FsError>, node: Option<FsNode>) -> bool {
    r is Err <==> node == Some(FsNode::Dir)
}

pub open spec fn read_result_reports(r: Result<Option<Vec<u8>>, FsError>, node: Option<FsNode>) -> bool {
    match r {
        Ok(Some(b)) => node == Some(FsNode::File(b@)),
        Ok(None) => node is None,
        Err(_) => true,
    }
}

/// One of the strings of `v` names the path `q`.
pub open spec fn names_path(v: Seq<String>, q: Seq<Seq<char>>) -> bool {
    exists|i: int| 0 <= i < v.len() && segs(#[trigger] v[i]@) == q
}

/// `v` names each path of `files` that lies at or below `p` exactly once, each
/// by a path string whose segments are that path.
pub open spec fn lists_files(files: Set<Seq<Seq<char>>>, p: Seq<Seq<char>>, v: Seq<String>) -> bool {
    &&& forall|i: int|
        #![trigger v[i]]
        0 <= i < v.len() ==> has_prefix(segs(v[i]@), p) && files.contains(segs(v[i]@))
    &&& forall|q: Seq<Seq<char>>| has_prefix(q, p) && #[trigger] files.contains(q) ==> names_path(v, q)
    &&& forall|i: int, j: int|
        0 <= i < v.len() && 0 <= j < v.len() && i != j ==> segs(#[trigger] v[i]@) != segs(
            #[trigger] v[j]@,
        )
}

/// What `q` holds after the files `bs` are written in turn at the paths `ps`,
/// starting from `n`.
pub open spec fn writes_applied(n: Option<FsNode>, q: Seq<Seq<char>>, ps: Seq<Seq<Seq<char>>>, bs: Seq<Seq<u8>>) -> Option<FsNode>
    decreases ps.len(),
{
    if ps.len() == 0 || bs.len() == 0 {
        n
    } else {
        after_write(writes_applied(n, q, ps.drop_last(), bs.drop_last()), q, ps.last(), bs.last())
    }
}

/// One more write in turn.
pub proof fn lemma_writes_applied_push(n: Option<FsNode>, q: Seq<Seq<char>>, ps: Seq<Seq<Seq<char>>>, bs: Seq<Seq<u8>>, p: Seq<Seq<char>>, b: Seq<u8>)
    requires
        ps.len() == bs.len(),
    ensures
        writes_applied(n, q, ps.push(p), bs.push(b)) == after_write(writes_applied(n, q, ps, bs), q, p, b),
{
    assert(ps.push(p).drop_last() =~= ps);
    assert(bs.push(b).drop_last() =~= bs);
}

/// A listing of the files below `p` stays one where nothing at or below
/// `p` changed.
pub proof fn lemma_lists_agree<Fs: FileSystem>(a: Fs, b: Fs, p: Seq<Seq<char>>, v: Seq<String>)
    requires
        lists_files(Set::new(|q: Seq<Seq<char>>| is_file(a.fs_lookup(q))), p, v),
        forall|q: Seq<Seq<char>>| has_prefix(q, p) ==> #[trigger] b.fs_lookup(q) == a.fs_lookup(q),
    ensures
        lists_files(Set::new(|q: Seq<Seq<char>>| is_file(b.fs_lookup(q))), p, v),
{
    let fa = Set::new(|q: Seq<Seq<char>>| is_file(a.fs_lookup(q)));
    let fb = Set::new(|q: Seq<Seq<char>>| is_file(b.fs_lookup(q)));
    assert forall|i: int| #![trigger v[i]] 0 <= i < v.len() implies has_prefix(segs(v[i]@), p) && fb.contains(segs(v[i]@)) by {
        assert(b.fs_lookup(segs(v[i]@)) == a.fs_lookup(segs(v[i]@)));
    }
    assert forall|q: Seq<Seq<char>>| has_prefix(q, p) && #[trigger] fb.contains(q) implies names_path(v, q) by {
        assert(b.fs_lookup(q) == a.fs_lookup(q));
        assert(fa.contains(q));
    }
}

/// The paths that hold files.
pub open spec fn files_of<Fs: FileSystem>(fs: Fs) -> Set<Seq<Seq<char>>> {
    Set::new(|q: Seq<Seq<char>>| is_file(fs.fs_lookup(q)))
}

/// Creating a directory a second time succeeds where the first did and
/// changes nothing more.
pub proof fn lemma_create_dir_twice<Fs: FileSystem>(a: Fs, b: Fs, c: Fs, p: Seq<Seq<char>>)
    requires
        forall|q: Seq<Seq<char>>| #[trigger] b.fs_lookup(q) == after_create_dir(a.fs_lookup(q), q, p),
        forall|q: Seq<Seq<char>>| #[trigger] c.fs_lookup(q) == after_create_dir(b.fs_lookup(q), q, p),
    ensures
        dir_allowed(files_of(a), p) ==> dir_allowed(files_of(b), p),
        forall|q: Seq<Seq<char>>| #[trigger] c.fs_lookup(q) == b.fs_lookup(q),
{
    assert forall|q: Seq<Seq<char>>| #[trigger] c.fs_lookup(q) == b.fs_lookup(q) by {
        assert(b.fs_lookup(q) == after_create_dir(a.fs_lookup(q), q, p));
    }
    if dir_allowed(files_of(a), p) {
        assert forall|k: int| 0 < k < p.len() implies !#[trigger] files_of(b).contains(p.take(k)) by {
            let q = p.take(k);
            assert(b.fs_lookup(q) == after_create_dir(a.fs_lookup(q), q, p));
            assert(has_prefix(p, q)) by {
                assert(p.subrange(0, q.len() as int) =~= q);
            }
        }
        assert(has_prefix(p, p)) by {
            assert(p.subrange(0, p.len() as int) =~= p);
        }
        assert(b.fs_lookup(p) == after_create_dir(a.fs_lookup(p), p, p));
    }
}

/// Files can be written at each path of `ws` in turn: none lies above
/// another, and no file of `fs` stands above any of them.
pub open spec fn writes_allowed<Fs: FileSystem>(fs: Fs, ws: Seq<Seq<Seq<char>>>) -> bool {
    &&& forall|i: int| 0 <= i < ws.len() ==> write_allowed(files_of(fs), #[trigger] ws[i])
    &&& forall|i: int, j: int| 0 <= i < ws.len() && 0 <= j < ws.len() ==> !is_proper_prefix(#[trigger] ws[i], #[trigger] ws[j])
}

/// Writing a file at one path of `ws` keeps all of `ws` writable.
pub proof fn lemma_writes_allowed_kept<Fs: FileSystem>(before: Fs, after: Fs, ws: Seq<Seq<Seq<char>>>, w: Seq<Seq<char>>, b: Seq<u8>)
    requires
        writes_allowed(before, ws),
        ws.contains(w),
        forall|q: Seq<Seq<char>>| #[trigger] after.fs_lookup(q) == after_write(before.fs_lookup(q), q, w, b),
    ensures
        writes_allowed(after, ws),
{
    let j = choose|j: int| 0 <= j < ws.len() && ws[j] == w;
    assert forall|i: int| 0 <= i < ws.len() implies write_allowed(files_of(after), #[trigger] ws[i]) by {
        assert(!is_proper_prefix(ws[j], ws[i]));
        lemma_write_keeps_allowed(before, after, ws[i], w, b);
    }
}

/// A write of a file at `w` keeps a file writable at `p`, unless `w` lies
/// above `p`.
pub proof fn lemma_write_keeps_allowed<Fs: FileSystem>(
    before: Fs,
    after: Fs,
    p: Seq<Seq<char>>,
    w: Seq<Seq<char>>,
    b: Seq<u8>,
)
    requires
        write_allowed(files_of(before), p),
        !is_proper_prefix(w, p),
        forall|q: Seq<Seq<char>>| #[trigger] after.fs_lookup(q) == after_write(before.fs_lookup(q), q, w, b),
    ensures
        write_allowed(files_of(after), p),
{
    assert forall|k: int| 0 < k < p.len() implies !#[trigger] files_of(after).contains(p.take(k)) by {
        let q = p.take(k);
        assert(after.fs_lookup(q) == after_write(before.fs_lookup(q), q, w, b));
        assert(!files_of(before).contains(q));
        if q == w {
            assert(has_prefix(p, w)) by {
                assert(p.subrange(0, w.len() as int) =~= p.take(k));
            }
        }
    }
}

/// A deletion keeps a file writable wherever it was writable: it makes no
/// file.
pub proof fn lemma_delete_keeps_allowed<Fs: FileSystem>(before: Fs, after: Fs, p: Seq<Seq<char>>, w: Seq<Seq<char>>)
    requires
        write_allowed(files_of(before), p),
        forall|q: Seq<Seq<char>>| #[trigger] after.fs_lookup(q) == after_delete(before.fs_lookup(q), q, w),
    ensures
        write_allowed(files_of(after), p),
{
    assert forall|k: int| 0 < k < p.len() implies !#[trigger] files_of(after).contains(p.take(k)) by {
        let q = p.take(k);
        assert(after.fs_lookup(q) == after_delete(before.fs_lookup(q), q, w));
        assert(!files_of(before).contains(q));
    }
}

/// The storage that the repository works through. Paths are read as their
/// segments (see `crate::path::segs`). The contracts state what each call
/// does where it succeeds; a call may fail, as storage may.
pub trait FileSystem {
    /// The file system's invariant, under which its calls meet the contracts
    /// below. A file system that does not model its contents (one over a
    /// disk) keeps the default, which does not hold: nothing below is then
    /// promised of it, and neither is anything that the library's operations
    /// state, since they all require it.
    open spec fn fs_inv(&self) -> bool {
        false
    }

    /// What the file system holds at a path. A file system that does not
    /// model its contents keeps the default, one unknown value; its invariant
    /// then does not hold, so no contract speaks of that value.
    open spec fn fs_lookup(&self, p: Seq<Seq<char>>) -> Option<FsNode> {
        arbitrary()
    }

    open spec fn fs_exact(&self) -> bool {
        false
    }

    /// The stat of the entry at `path`, or `None` where there is none.
    fn stat(&self, path: &str) -> (r: Result<Option<Stat>, FsError>)
        requires
            self.fs_inv(),
        ensures
            stat_result_reports(r, self.fs_lookup(segs(path@))),
            self.fs_exact() ==> r is Ok,
    ;

    /// Writes a file, creating the enclosing directories.
    fn write_file(&mut self, path: &str, buf: &[u8]) -> (r: Result<(), FsError>)
        requires
            old(self).fs_inv(),
        ensures
            final(self).fs_inv(),
            r is Ok ==> segs(path@).len() > 0 && forall|q: Seq<Seq<char>>|
                #[trigger] final(self).fs_lookup(q) == after_write(
                    old(self).fs_lookup(q),
                    q,
                    segs(path@),
                    buf@,
                ),
            old(self).fs_exact() ==> final(self).fs_exact(),
            old(self).fs_exact() ==> (r is Ok <==> write_allowed(Set::new(|q: Seq<Seq<char>>| is_file(old(self).fs_lookup(q))), segs(path@))),
            old(self).fs_exact() && r is Err ==> same_contents(
                |q: Seq<Seq<char>>| final(self).fs_lookup(q),
                |q: Seq<Seq<char>>| old(self).fs_lookup(q),
            ),
    ;

    /// Creates a directory and its enclosing directories.
    fn create_dir(&mut self, path: &str) -> (r: Result<(), FsError>)
        requires
            old(self).fs_inv(),
        ensures
            final(self).fs_inv(),
            r is Ok ==> forall|q: Seq<Seq<char>>|
                #[trigger] final(self).fs_lookup(q) == after_create_dir(
                    old(self).fs_lookup(q),
                    q,
                    segs(path@),
                ),
            old(self).fs_exact() ==> final(self).fs_exact(),
            old(self).fs_exact() ==> (r is Ok <==> dir_allowed(Set::new(|q: Seq<Seq<char>>| is_file(old(self).fs_lookup(q))), segs(path@))),
            old(self).fs_exact() && r is Err ==> same_contents(
                |q: Seq<Seq<char>>| final(self).fs_lookup(q),
                |q: Seq<Seq<char>>| old(self).fs_lookup(q),
            ),
    ;

    /// The content of the file at `path`, or `None` where there is no entry.
    fn read_file(&self, path: &str) -> (r: Result<Option<Vec<u8>>, FsError>)
        requires
            self.fs_inv(),
        ensures
            read_result_reports(r, self.fs_lookup(segs(path@))),
            self.fs_exact() ==> read_fails_exactly(r, self.fs_lookup(segs(path@))),
    ;

    /// The paths of the entries in the directory at `path`, or `None` where
    /// there is no entry.
    fn read_dir(&self, path: &str) -> (r: Result<Option<Vec<String>>, FsError>)
        requires
            self.fs_inv(),
        ensures
            r matches Ok(Some(_)) ==> self.fs_lookup(segs(path@)) == Some(FsNode::Dir),
            r matches Ok(None) ==> self.fs_lookup(segs(path@)) is None,
            self.fs_exact() ==> list_fails_exactly(r, self.fs_lookup(segs(path@))),
    ;

    /// The paths of all files at or below `path`.
    fn all_files_in(&self, path: &str) -> (r: Result<Vec<String>, FsError>)
        requires
            self.fs_inv(),
        ensures
            r matches Ok(v) ==> lists_files(
                Set::new(|q: Seq<Seq<char>>| is_file(self.fs_lookup(q))),
                segs(path@),
                v@,
            ),
            self.fs_exact() ==> r is Ok,
    ;

    /// Deletes the entry at `path` and everything below it.
    fn delete(&mut self, path: &str) -> (r: Result<(), FsError>)
        requires
            old(self).fs_inv(),
        ensures
            final(self).fs_inv(),
            r is Ok ==> forall|q: Seq<Seq<char>>|
                #[trigger] final(self).fs_lookup(q) == after_delete(
                    old(self).fs_lookup(q),
                    q,
                    segs(path@),
                ),
            old(self).fs_exact() ==> final(self).fs_exact() && r is Ok,
    ;

    /// The content of the file at `path`; an error where there is no entry.
    fn try_read_file(&self, path: &str) -> (r: Result<Vec<u8>, FsError>)
        requires
            self.fs_inv(),
        ensures
            r matches Ok(b) ==> self.fs_lookup(segs(path@)) == Some(FsNode::File(b@)),
            self.fs_lookup(segs(path@)) is None ==> r is Err,
            self.fs_exact() ==> try_read_exact(r, self.fs_lookup(segs(path@)), path@),
    {
        match self.read_file(path) {
            Ok(Some(buf)) => Ok(buf),
            Ok(None) => Err(FsError::NotFound(path.to_owned())),
            Err(e) => Err(e),
        }
    }

    /// The entries of the directory at `path`; an error where there is no entry.
    fn try_read_dir(&self, path: &str) -> (r: Result<Vec<String>, FsError>)
        requires
            self.fs_inv(),
        ensures
            r is Ok ==> self.fs_lookup(segs(path@)) == Some(FsNode::Dir),
            self.fs_lookup(segs(path@)) is None ==> r is Err,
            self.fs_exact() ==> try_list_exact(r, self.fs_lookup(segs(path@)), path@),
    {
        match self.read_dir(path) {
            Ok(Some(entries)) => Ok(entries),
            Ok(None) => Err(FsError::NotFound(path.to_owned())),
            Err(e) => Err(e),
        }
    }

    /// Whether the repository's own data (below `.meltos`) already holds a file.
    fn project_already_initialized(&self) -> (r: Result<bool, FsError>)
        requires
            self.fs_inv(),
        ensures
            r matches Ok(b) ==> (b <==> exists|q: Seq<Seq<char>>|
                has_prefix(q, segs(".meltos"@)) && #[trigger] is_file(self.fs_lookup(q))),
            self.fs_exact() ==> r is Ok,
    {
        let files = self.all_files_in("./.meltos")?;
        proof {
            reveal_strlit("./.meltos");
            reveal_strlit(".meltos");
            assert(segs("./.meltos"@) == segs(".meltos"@)) by {
                crate::path::lemma_segs_dot_prefix(".meltos"@);
                assert("./.meltos"@ =~= seq!['.', '/'] + ".meltos"@);
            }
            let fset = Set::new(|q: Seq<Seq<char>>| is_file(self.fs_lookup(q)));
            if files.len() > 0 {
                assert(fset.contains(segs(files@[0]@)));
                assert(has_prefix(segs(files@[0]@), segs(".meltos"@)));
                assert(is_file(self.fs_lookup(segs(files@[0]@))));
            } else {
                assert forall|q: Seq<Seq<char>>| has_prefix(q, segs(".meltos"@)) implies !is_file(#[trigger] self.fs_lookup(q)) by {
                    if is_file(self.fs_lookup(q)) {
                        assert(fset.contains(q));
                    }
                }
            }
        }
        Ok(files.len() > 0)
    }
}

/// The path of a file, as a string.
#[derive(Debug, Clone, PartialEq, Eq, Hash, PartialOrd, Ord)]
pub struct FilePath(pub String);

impl FilePath {
    pub fn from_path(path: &str) -> (r: FilePath)
        ensures
            r.0@ == path@,
    {
        FilePath(path.to_owned())
    }

    pub fn as_str(&self) -> (r: &str)
        ensures
            r@ == self.0@,
    {
        self.0.as_str()
    }
}

impl From<&str> for FilePath {
    fn from(path: &str) -> FilePath {
        FilePath(path.to_owned())
    }
}

impl vstd::std_specs::convert::FromSpecImpl<&str> for FilePath {
    open spec fn obeys_from_spec() -> bool {
        false
    }

    open spec fn from_spec(v: &str) -> FilePath {
        choose|f: FilePath| f.0@ == v@
    }
}

} // verus!
