//! The workspace: the files the user edits, below `/workspace`.

use vstd::prelude::*;

use crate::assoc::{seq_has, seq_lookup};
use crate::branch::BranchName;
use crate::error::{Error, Result, is_data_error};
use crate::file_system::clip::trim_start;
use crate::file_system::{FileSystem, FilePath, FsNode, after_delete, after_write, is_file, lists_files};
use crate::io::atomic::head::{HeadIo, head_of, head_path};
use crate::io::atomic::trace::trace_tree_of;
use crate::io::trace_tree::TraceTreeIo;
use crate::io::{concat, file_bytes, lift};
use crate::object::file::{FileObj, file_encoded};
use crate::object::tree::TreeObj;
use crate::object::{Encodable, Obj, hash_of};
use crate::path::{segs, strs_view};
use crate::util::str_eq;

verus! {

/// The path of a workspace file given relative to the workspace (or already
/// below `/workspace/`).
pub open spec fn workspace_path(p: Seq<char>) -> Seq<char> {
    "/workspace/"@ + trim_start(p, "/workspace/"@)
}

/// The path whose files `files` lists for `p`.
pub open spec fn workspace_dir(p: Seq<char>) -> Seq<char> {
    if p == "."@ || p == "./"@ {
        "/workspace"@
    } else {
        workspace_path(p)
    }
}

/// Whether a workspace file differs from the trace tree: its content's hash
/// differs from the traced hash, or only one of them exists.
pub open spec fn differs(trace: Seq<(Seq<char>, Seq<char>)>, key: Seq<char>, file: Option<Seq<u8>>) -> bool {
    match seq_lookup(trace, key) {
        Some(h) => match file {
            Some(b) => hash_of(file_encoded(b)) != h,
            None => true,
        },
        None => file is Some,
    }
}

/// The files of `fs` below the workspace path `p`, as a listing names them.
pub open spec fn lists_workspace<Fs: FileSystem>(fs: Fs, p: Seq<char>, v: Seq<String>) -> bool {
    lists_files(Set::new(|q: Seq<Seq<char>>| is_file(fs.fs_lookup(q))), segs(workspace_dir(p)), v)
}

/// The hash of the file object of the workspace file that `q` names, where
/// there is one.
pub open spec fn workspace_hash<Fs: FileSystem>(fs: Fs, q: Seq<char>) -> Option<Seq<char>> {
    match file_bytes(fs.fs_lookup(segs(workspace_path(q)))) {
        Some(c) => Some(hash_of(file_encoded(c))),
        None => None,
    }
}

/// `q` changed against the trace `tr`, the workspace files being `ws`: a
/// listed file whose object is not what the trace records, or a traced file
/// that is not listed.
pub open spec fn ws_changed<Fs: FileSystem>(fs: Fs, tr: Seq<(Seq<char>, Seq<char>)>, ws: Seq<Seq<char>>, q: Seq<char>) -> bool {
    if ws.contains(q) {
        seq_lookup(tr, q) != workspace_hash(fs, q)
    } else {
        seq_has(tr, q)
    }
}

/// Some change of `v` is of the path `q`.
pub open spec fn reported(v: Seq<ChangeFileMeta>, q: Seq<char>) -> bool {
    exists|i: int| 0 <= i < v.len() && #[trigger] v[i].path.0@ == q
}

/// No two changes of `v` are of the same path.
pub open spec fn paths_distinct(v: Seq<ChangeFileMeta>) -> bool {
    forall|i: int, j: int| 0 <= i < v.len() && 0 <= j < v.len() && i != j ==> #[trigger] v[i].path.0@ != #[trigger] v[j].path.0@
}

/// A change of a workspace file against a trace tree.
pub enum ChangeFile {
    Create(FileObj),
    Update(FileObj),
    Delete,
}

/// A changed file and its change.
pub struct ChangeFileMeta {
    pub path: FilePath,
    pub change: ChangeFile,
}

/// Reads and writes workspace files.
pub struct WorkspaceIo;

impl WorkspaceIo {
    pub fn new() -> (r: WorkspaceIo) {
        WorkspaceIo
    }

    fn as_path(&self, path: &str) -> (r: String)
        ensures
            r@ == workspace_path(path@),
    {
        concat("/workspace/", crate::file_system::clip::trim_start_str(path, "/workspace/"))
    }

    /// A workspace file; an error where there is none.
    pub fn try_read<Fs: FileSystem>(&self, fs: &Fs, file_path: &FilePath) -> (r: Result<FileObj>)
        requires
            fs.fs_inv(),
        ensures
            r matches Err(e) ==> is_data_error(e),
            r matches Ok(f) ==> fs.fs_lookup(segs(workspace_path(file_path.0@))) == Some(FsNode::File(f@)),
            fs.fs_lookup(segs(workspace_path(file_path.0@))) is None ==> r is Err,
            fs.fs_exact() && is_file(fs.fs_lookup(segs(workspace_path(file_path.0@)))) ==> r is Ok,
            fs.fs_exact() && fs.fs_lookup(segs(workspace_path(file_path.0@))) is None ==> (r matches Err(
                Error::NotfoundWorkspaceFile(p),
            ) && p.0@ == file_path.0@),
    {
        match self.read(fs, file_path)? {
            Some(f) => Ok(f),
            None => Err(Error::NotfoundWorkspaceFile(FilePath(file_path.0.clone()))),
        }
    }

    /// A workspace file, where there is one.
    pub fn read<Fs: FileSystem>(&self, fs: &Fs, file_path: &FilePath) -> (r: Result<Option<FileObj>>)
        requires
            fs.fs_inv(),
        ensures
            r matches Err(e) ==> is_data_error(e),
            r matches Ok(Some(f)) ==> fs.fs_lookup(segs(workspace_path(file_path.0@))) == Some(FsNode::File(f@)),
            r matches Ok(None) ==> fs.fs_lookup(segs(workspace_path(file_path.0@))) is None,
            fs.fs_exact() && fs.fs_lookup(segs(workspace_path(file_path.0@))) != Some(FsNode::Dir) ==> r is Ok,
    {
        let path = self.as_path(file_path.0.as_str());
        match lift(fs.read_file(path.as_str()))? {
            Some(buf) => Ok(Some(FileObj(buf))),
            None => Ok(None),
        }
    }

    /// Puts an object into place at `file_path`: a file object is written
    /// there, a delete object removes what is there.
    pub fn unpack<Fs: FileSystem>(&self, fs: &mut Fs, file_path: &FilePath, obj: &Obj) -> (r: Result<()>)
        requires
            old(fs).fs_inv(),
        ensures
            r matches Err(e) ==> is_data_error(e),
            final(fs).fs_inv(),
            match obj {
                Obj::File(f) => r is Ok ==> forall|q: Seq<Seq<char>>|
                    #[trigger] final(fs).fs_lookup(q) == after_write(old(fs).fs_lookup(q), q, segs(file_path.0@), f@),
                Obj::Delete(_) => r is Ok ==> forall|q: Seq<Seq<char>>|
                    #[trigger] final(fs).fs_lookup(q) == after_delete(old(fs).fs_lookup(q), q, segs(file_path.0@)),
                _ => r == Err::<(), Error>(Error::InvalidWorkspaceObj) && *final(fs) == *old(fs),
            },
            old(fs).fs_exact() ==> final(fs).fs_exact(),
            old(fs).fs_exact() && (obj is Delete || (obj is File && crate::file_system::write_allowed(
                crate::file_system::files_of(*old(fs)),
                segs(file_path.0@),
            ))) ==> r is Ok,
    {
        match obj {
            Obj::File(file) => lift(fs.write_file(file_path.0.as_str(), file.0.as_slice())),
            Obj::Delete(_) => lift(fs.delete(file_path.0.as_str())),
            _ => Err(Error::InvalidWorkspaceObj),
        }
    }

    /// Whether a workspace file differs from the trace of the branch's head.
    pub fn is_change<Fs: FileSystem>(&self, fs: &Fs, branch: &BranchName, path: &FilePath) -> (r: Result<bool>)
        requires
            fs.fs_inv(),
        ensures
            r matches Err(e) ==> is_data_error(e),
            r matches Ok(b) ==> (head_of(*fs, branch.0@) matches Some(head) && trace_tree_of(*fs, head) matches Some(
                trace,
            ) && b == differs(
                trace,
                workspace_path(path.0@),
                file_bytes(fs.fs_lookup(segs(workspace_path(path.0@)))),
            )),
            fs.fs_exact() && (head_of(*fs, branch.0@) matches Some(h) && trace_tree_of(*fs, h) is Some)
                && fs.fs_lookup(segs(workspace_path(path.0@))) != Some(FsNode::Dir) ==> r is Ok,
            fs.fs_exact() && fs.fs_lookup(segs(head_path(branch.0@))) is None ==> (r matches Err(Error::NotfoundHead(n))
                && n.0@ == branch.0@),
    {
        let head = HeadIo::new().try_read(fs, branch)?;
        let trace = TraceTreeIo::new().read(fs, &head)?;
        let file_obj = self.read(fs, path)?;
        let key = FilePath(self.as_path(path.0.as_str()));
        match trace.get(&key) {
            Some(current_obj_hash) => match file_obj {
                Some(f) => {
                    let meta = f.as_meta()?;
                    Ok(!meta.hash.same(&current_obj_hash))
                },
                None => Ok(true),
            },
            None => Ok(file_obj.is_some()),
        }
    }

    /// The workspace files at or below `path`, to be read one by one.
    pub fn convert_to_objs<Fs: FileSystem>(&self, fs: &Fs, path: &str) -> (r: Result<ObjectIter>)
        requires
            fs.fs_inv(),
        ensures
            r matches Err(e) ==> is_data_error(e),
            r matches Ok(it) ==> it.index == 0 && lists_files(
                Set::new(|q: Seq<Seq<char>>| is_file(fs.fs_lookup(q))),
                segs(workspace_dir(path@)),
                it.files@,
            ),
            fs.fs_exact() ==> r is Ok,
    {
        let files = self.files(fs, path)?;
        Ok(ObjectIter { files, index: 0 })
    }

    /// The paths of the workspace files at or below `path`.
    pub fn files<Fs: FileSystem>(&self, fs: &Fs, path: &str) -> (r: Result<Vec<String>>)
        requires
            fs.fs_inv(),
        ensures
            r matches Err(e) ==> is_data_error(e),
            r matches Ok(v) ==> lists_files(
                Set::new(|q: Seq<Seq<char>>| is_file(fs.fs_lookup(q))),
                segs(workspace_dir(path@)),
                v@,
            ),
            fs.fs_exact() ==> r is Ok,
    {
        proof {
            reveal_strlit(".");
            reveal_strlit("./");
        }
        let dir = if str_eq(path, ".") || str_eq(path, "./") {
            "/workspace".to_owned()
        } else {
            self.as_path(path)
        };
        lift(fs.all_files_in(dir.as_str()))
    }

    /// The changes of the workspace against a trace tree: new files, files
    /// whose content's hash differs, and traced files that are gone.
    /// Success is not promised even on exact storage: each listed path is
    /// read back at `/workspace/` followed by the path with every leading
    /// `/workspace/` taken off, which for a file whose path below the
    /// workspace starts with `workspace/` again is another path, and the
    /// form of the listed paths is left to the file system.
    pub fn changed_files<Fs: FileSystem>(&self, fs: &Fs, trace_tree: TreeObj) -> (r: Result<Vec<ChangeFileMeta>>)
        requires
            fs.fs_inv(),
            trace_tree.wf(),
        ensures
            r matches Err(e) ==> is_data_error(e),
            r matches Ok(v) ==> forall|i: int| 0 <= i < v@.len() ==> #[trigger] change_holds(*fs, trace_tree@, v@[i]),
            r matches Ok(v) ==> paths_distinct(v@),
            r matches Ok(v) ==> exists|ws: Seq<String>|
                #[trigger] lists_workspace(*fs, "."@, ws) && forall|q: Seq<char>|
                    #[trigger] reported(v@, q) == ws_changed(*fs, trace_tree@, strs_view(ws), q),
    {
        let mut trace = trace_tree;
        let ghost original = trace@;
        let mut changed_files: Vec<ChangeFileMeta> = Vec::new();
        let files = self.files(fs, ".")?;
        proof {
            reveal_strlit(".");
        }
        let ghost wv = strs_view(files@);
        let mut i: usize = 0;
        proof {
            assert(wv.take(0) =~= Seq::<Seq<char>>::empty());
            assert forall|q: Seq<char>| #[trigger] seq_has(trace@, q) == (seq_has(original, q) && !wv.take(0).contains(q)) by {}
            assert forall|q: Seq<char>| #[trigger] reported(changed_files@, q) == (wv.take(0).contains(q)
                && seq_lookup(original, q) != workspace_hash(*fs, q)) by {}
        }
        while i < files.len()
            invariant
                fs.fs_inv(),
                i <= files@.len(),
                trace.wf(),
                wv == strs_view(files@),
                lists_workspace(*fs, "."@, files@),
                forall|q: Seq<char>| #[trigger] seq_lookup(trace@, q) is Some ==> seq_lookup(original, q) == seq_lookup(trace@, q),
                forall|j: int| 0 <= j < changed_files@.len() ==> #[trigger] change_holds(*fs, original, changed_files@[j]),
                forall|q: Seq<char>| #[trigger] seq_has(trace@, q) == (seq_has(original, q) && !wv.take(i as int).contains(q)),
                forall|q: Seq<char>| #[trigger] reported(changed_files@, q) == (wv.take(i as int).contains(q)
                    && seq_lookup(original, q) != workspace_hash(*fs, q)),
                paths_distinct(changed_files@),
            decreases files@.len() - i,
        {
            let path = FilePath(files[i].clone());
            let ghost p = wv[i as int];
            let file_obj = self.try_read(fs, &path)?;
            let ghost trace_before = trace@;
            let ghost changed_before = changed_files@;
            proof {
                crate::path::lemma_listing_distinct(files@, i as int);
                assert(wv.take(i + 1) =~= wv.take(i as int).push(p));
                assert(!reported(changed_before, p));
                crate::assoc::lemma_as_map(trace_before, p);
                crate::assoc::lemma_as_map(original, p);
            }
            match trace.remove(&path) {
                Some(h) => {
                    assert(seq_lookup(trace_before, path.0@) is Some);
                    let meta = file_obj.as_meta()?;
                    if !meta.hash.same(&h) {
                        changed_files.push(ChangeFileMeta { path, change: ChangeFile::Update(file_obj) });
                    }
                },
                None => {
                    changed_files.push(ChangeFileMeta { path, change: ChangeFile::Create(file_obj) });
                },
            }
            proof {
                assert forall|q: Seq<char>| #[trigger] seq_lookup(trace@, q) is Some implies seq_lookup(original, q)
                    == seq_lookup(trace@, q) by {
                    assert(trace.lookup(q) == seq_lookup(trace@, q));
                    assert(seq_lookup(trace_before, q) is Some);
                }
                assert forall|q: Seq<char>| #[trigger] seq_has(trace@, q) == (seq_has(original, q) && !wv.take(i + 1).contains(q)) by {
                    crate::assoc::lemma_as_map(trace@, q);
                    crate::assoc::lemma_as_map(trace_before, q);
                    assert(trace.lookup(q) == seq_lookup(trace@, q));
                    crate::path::lemma_contains_push(wv.take(i as int), p, q);
                }
                assert forall|q: Seq<char>| #[trigger] reported(changed_files@, q) == (wv.take(i + 1).contains(q)
                    && seq_lookup(original, q) != workspace_hash(*fs, q)) by {
                    crate::path::lemma_contains_push(wv.take(i as int), p, q);
                    if reported(changed_files@, q) {
                        let j = choose|j: int| 0 <= j < changed_files@.len() && #[trigger] changed_files@[j].path.0@ == q;
                        if j < changed_before.len() {
                            assert(changed_before[j] == changed_files@[j]);
                        }
                    }
                    if reported(changed_before, q) {
                        let j = choose|j: int| 0 <= j < changed_before.len() && #[trigger] changed_before[j].path.0@ == q;
                        assert(changed_files@[j] == changed_before[j]);
                    }
                    if q == p && changed_files@.len() > changed_before.len() {
                        assert(changed_files@[changed_before.len() as int].path.0@ == q);
                    }
                }
                assert forall|a: int, b: int|
                    0 <= a < changed_files@.len() && 0 <= b < changed_files@.len() && a != b implies #[trigger] changed_files@[a].path.0@
                    != #[trigger] changed_files@[b].path.0@ by {
                    if a < changed_before.len() && b < changed_before.len() {
                        assert(changed_files@[a] == changed_before[a] && changed_files@[b] == changed_before[b]);
                    } else if a < changed_before.len() {
                        assert(changed_files@[a] == changed_before[a]);
                    } else if b < changed_before.len() {
                        assert(changed_files@[b] == changed_before[b]);
                    }
                }
            }
            i = i + 1;
        }
        proof {
            assert(wv.take(i as int) =~= wv);
        }
        let ghost rest = trace@;
        let mut k: usize = 0;
        proof {
            assert forall|q: Seq<char>| #[trigger] reported(changed_files@, q) == ((wv.contains(q)
                && seq_lookup(original, q) != workspace_hash(*fs, q)) || seq_has(rest.take(0), q)) by {}
        }
        while k < trace.0.len()
            invariant
                k <= trace@.len(),
                trace@ == rest,
                trace.wf(),
                forall|q: Seq<char>| #[trigger] seq_lookup(trace@, q) is Some ==> seq_lookup(original, q) == seq_lookup(trace@, q),
                forall|j: int| 0 <= j < changed_files@.len() ==> #[trigger] change_holds(*fs, original, changed_files@[j]),
                forall|q: Seq<char>| #[trigger] seq_has(rest, q) == (seq_has(original, q) && !wv.contains(q)),
                forall|q: Seq<char>| #[trigger] reported(changed_files@, q) == ((wv.contains(q)
                    && seq_lookup(original, q) != workspace_hash(*fs, q)) || seq_has(rest.take(k as int), q)),
                paths_distinct(changed_files@),
            decreases trace@.len() - k,
        {
            proof {
                crate::assoc::lemma_lookup_index(trace@, k as int);
            }
            let ghost e = rest[k as int].0;
            let ghost changed_before = changed_files@;
            proof {
                assert(seq_has(rest, e));
                assert(!seq_has(rest.take(k as int), e)) by {
                    if seq_has(rest.take(k as int), e) {
                        let j = choose|j: int| 0 <= j < rest.take(k as int).len() && #[trigger] rest.take(k as int)[j].0 == e;
                        assert(rest[j].0 == rest[k as int].0);
                    }
                }
                assert(!reported(changed_before, e));
            }
            let path = FilePath(trace.0[k].0.0.clone());
            changed_files.push(ChangeFileMeta { path, change: ChangeFile::Delete });
            proof {
                assert forall|q: Seq<char>| #[trigger] reported(changed_files@, q) == ((wv.contains(q)
                    && seq_lookup(original, q) != workspace_hash(*fs, q)) || seq_has(rest.take(k + 1), q)) by {
                    let pre = rest.take(k as int);
                    let post = rest.take(k + 1);
                    if seq_has(post, q) {
                        let j = choose|j: int| 0 <= j < post.len() && #[trigger] post[j].0 == q;
                        if j < k {
                            assert(pre[j].0 == q);
                        }
                    }
                    if seq_has(pre, q) {
                        let j = choose|j: int| 0 <= j < pre.len() && #[trigger] pre[j].0 == q;
                        assert(post[j].0 == q);
                    }
                    if q == e {
                        assert(post[k as int].0 == q);
                        assert(changed_files@[changed_before.len() as int].path.0@ == q);
                    }
                    if reported(changed_files@, q) {
                        let j = choose|j: int| 0 <= j < changed_files@.len() && #[trigger] changed_files@[j].path.0@ == q;
                        if j < changed_before.len() {
                            assert(changed_before[j] == changed_files@[j]);
                        }
                    }
                    if reported(changed_before, q) {
                        let j = choose|j: int| 0 <= j < changed_before.len() && #[trigger] changed_before[j].path.0@ == q;
                        assert(changed_files@[j] == changed_before[j]);
                    }
                }
                assert forall|a: int, b: int|
                    0 <= a < changed_files@.len() && 0 <= b < changed_files@.len() && a != b implies #[trigger] changed_files@[a].path.0@
                    != #[trigger] changed_files@[b].path.0@ by {
                    if a < changed_before.len() && b < changed_before.len() {
                        assert(changed_files@[a] == changed_before[a] && changed_files@[b] == changed_before[b]);
                    } else if a < changed_before.len() {
                        assert(changed_files@[a] == changed_before[a]);
                    } else if b < changed_before.len() {
                        assert(changed_files@[b] == changed_before[b]);
                    }
                }
            }
            k = k + 1;
        }
        proof {
            assert(rest.take(k as int) =~= rest);
            assert forall|q: Seq<char>| #[trigger] reported(changed_files@, q) == ws_changed(*fs, original, wv, q) by {}
            assert(lists_workspace(*fs, "."@, files@));
        }
        Ok(changed_files)
    }
}

/// What a reported change says holds: a created or updated file holds the
/// reported content, an updated file is traced under another hash, a
/// deleted file is traced.
pub open spec fn change_holds<Fs: FileSystem>(fs: Fs, trace: Seq<(Seq<char>, Seq<char>)>, m: ChangeFileMeta) -> bool {
    match m.change {
        ChangeFile::Create(f) => fs.fs_lookup(segs(workspace_path(m.path.0@))) == Some(FsNode::File(f@)),
        ChangeFile::Update(f) => seq_lookup(trace, m.path.0@) matches Some(h) && hash_of(file_encoded(f@)) != h
            && fs.fs_lookup(segs(workspace_path(m.path.0@))) == Some(FsNode::File(f@)),
        ChangeFile::Delete => seq_lookup(trace, m.path.0@) is Some,
    }
}

/// The workspace files found by `convert_to_objs`, read one by one.
pub struct ObjectIter {
    pub files: Vec<String>,
    pub index: usize,
}

impl ObjectIter {
    /// The next file and its content; `None` once every file was read.
    pub fn next<Fs: FileSystem>(&mut self, fs: &Fs) -> (r: Option<Result<(FilePath, FileObj)>>)
        requires
            fs.fs_inv(),
            old(self).index <= old(self).files@.len(),
        ensures
            final(self).files@ == old(self).files@,
            final(self).index <= final(self).files@.len(),
            old(self).index == old(self).files@.len() ==> r is None && final(self).index == old(self).index,
            old(self).index < old(self).files@.len() ==> r is Some && final(self).index == old(self).index + 1,
            r matches Some(Ok((p, f))) ==> p.0@ == old(self).files@[old(self).index as int]@ && fs.fs_lookup(segs(p.0@))
                == Some(FsNode::File(f@)),
            r matches Some(Err(e)) ==> is_data_error(e),
            fs.fs_exact() && old(self).index < old(self).files@.len() && is_file(
                fs.fs_lookup(segs(old(self).files@[old(self).index as int]@)),
            ) ==> r matches Some(Ok(_)),
    {
        if self.index == self.files.len() {
            None
        } else {
            let path = self.files[self.index].clone();
            let obj = match lift(fs.try_read_file(path.as_str())) {
                Ok(buf) => Ok((FilePath(path), FileObj(buf))),
                Err(e) => Err(e),
            };
            self.index = self.index + 1;
            Some(obj)
        }
    }

    /// Every remaining file and its content.
    pub fn all<Fs: FileSystem>(&mut self, fs: &Fs) -> (r: Result<Vec<(FilePath, FileObj)>>)
        requires
            fs.fs_inv(),
            old(self).index <= old(self).files@.len(),
        ensures
            r matches Err(e) ==> is_data_error(e),
            r matches Ok(v) ==> v@.len() == old(self).files@.len() - old(self).index && forall|i: int|
                0 <= i < v@.len() ==> #[trigger] v@[i].0.0@ == old(self).files@[old(self).index + i]@
                    && fs.fs_lookup(segs(v@[i].0.0@)) == Some(FsNode::File(v@[i].1@)),
    {
        let ghost start = self.index;
        let ghost files = self.files@;
        let mut objs: Vec<(FilePath, FileObj)> = Vec::new();
        while self.index < self.files.len()
            invariant
                fs.fs_inv(),
                self.files@ == files,
                start <= self.index <= self.files@.len(),
                objs@.len() == self.index - start,
                forall|i: int|
                    0 <= i < objs@.len() ==> #[trigger] objs@[i].0.0@ == files[start + i]@ && fs.fs_lookup(
                        segs(objs@[i].0.0@),
                    ) == Some(FsNode::File(objs@[i].1@)),
            decreases self.files@.len() - self.index,
        {
            match self.next(fs) {
                Some(Ok(o)) => objs.push(o),
                Some(Err(e)) => return Err(e),
                None => return Err(Error::InvalidWorkspaceObj),
            }
        }
        Ok(objs)
    }
}

} // verus!
