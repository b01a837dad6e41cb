//! Traces: for each commit, the hash of the tree of every file as it stood
//! after the commit, kept in `/.meltos/traces/{commit hash}`.

use vstd::prelude::*;
use vstd::utf8::encode_utf8;

use crate::error::{Error, Result, is_data_error};
use crate::file_system::{
    FileSystem, after_write, files_of, is_file, lemma_writes_applied_push, lists_files, write_allowed, writes_applied,
};
use crate::io::bundle::BundleTrace;
use crate::io::{concat, file_bytes, file_name, lift, not_text, text_decoded};
use crate::object::ObjHash;
use crate::object::commit::CommitHash;
use crate::io::layout::{fam_traces, lemma_trace_path, lemma_write_frame, outside, touches_only};
use crate::path::{has_prefix, segs};

verus! {

/// The file that holds the trace of a commit.
pub open spec fn trace_path(c: Seq<char>) -> Seq<char> {
    "/.meltos/traces/"@ + c
}

/// The trace of commit `c` is the hash `h`.
pub open spec fn trace_of<Fs: FileSystem>(fs: Fs, c: Seq<char>, h: Seq<char>) -> bool {
    file_bytes(fs.fs_lookup(segs(trace_path(c)))) matches Some(b) && text_decoded(b) == Some(h)
}

/// What recording `h` as the trace of commit `c` does.
pub open spec fn trace_written<Fs: FileSystem>(before: Fs, after: Fs, c: Seq<char>, h: Seq<char>) -> bool {
    &&& segs(trace_path(c)).len() > 0
    &&& forall|q: Seq<Seq<char>>|
        #[trigger] after.fs_lookup(q) == after_write(before.fs_lookup(q), q, segs(trace_path(c)), encode_utf8(h))
}

/// The trace tree of a commit, as recorded: the tree object that its trace names.
pub open spec fn trace_tree_of<Fs: FileSystem>(fs: Fs, c: Seq<char>) -> Option<Seq<(Seq<char>, Seq<char>)>> {
    match crate::io::text_at(fs.fs_lookup(segs(trace_path(c)))) {
        Some(h) => match crate::io::atomic::object::stored_obj(fs, h) {
            Some(crate::object::ObjView::Tree(es)) => Some(es),
            _ => None,
        },
        None => None,
    }
}

/// The files that a list of bundled traces is recorded in.
pub open spec fn trace_paths(ts: Seq<BundleTrace>) -> Seq<Seq<Seq<char>>> {
    ts.map_values(|t: BundleTrace| segs(trace_path(t.commit_hash.0.0@)))
}

/// What the files of a list of bundled traces hold: the tree hash as text.
pub open spec fn trace_bufs(ts: Seq<BundleTrace>) -> Seq<Seq<u8>> {
    ts.map_values(|t: BundleTrace| encode_utf8(t.obj_hash.0@))
}

/// Reads and writes traces.
pub struct TraceIo;

impl TraceIo {
    pub fn new() -> (r: TraceIo) {
        TraceIo
    }

    /// Stores the given traces, in turn.
    pub fn write_all<Fs: FileSystem>(&self, fs: &mut Fs, traces: &Vec<BundleTrace>) -> (r: Result<()>)
        requires
            old(fs).fs_inv(),
        ensures
            r matches Err(e) ==> is_data_error(e),
            final(fs).fs_inv(),
            r is Ok ==> forall|q: Seq<Seq<char>>|
                #[trigger] final(fs).fs_lookup(q) == writes_applied(old(fs).fs_lookup(q), q, trace_paths(traces@), trace_bufs(traces@)),
            r is Ok ==> touches_only(*old(fs), *final(fs), fam_traces()),
            forall|ws: Seq<Seq<Seq<char>>>|
                old(fs).fs_exact() && #[trigger] crate::file_system::writes_allowed(*old(fs), ws) && (forall|k: int|
                    0 <= k < traces@.len() ==> ws.contains(#[trigger] trace_paths(traces@)[k])) ==> r is Ok && final(fs).fs_exact()
                    && crate::file_system::writes_allowed(*final(fs), ws),
    {
        let ghost s0 = *fs;
        let ghost ps = trace_paths(traces@);
        let ghost bs = trace_bufs(traces@);
        let mut i: usize = 0;
        proof {
            assert forall|q: Seq<Seq<char>>| #[trigger] fs.fs_lookup(q) == writes_applied(s0.fs_lookup(q), q, ps.take(0), bs.take(0)) by {}
            assert forall|q: Seq<Seq<char>>| outside(q, fam_traces()) implies #[trigger] fs.fs_lookup(q) == s0.fs_lookup(q) by {}
        }
        while i < traces.len()
            invariant
                fs.fs_inv(),
                i <= traces@.len(),
                ps == trace_paths(traces@),
                bs == trace_bufs(traces@),
                forall|q: Seq<Seq<char>>| #[trigger] fs.fs_lookup(q) == writes_applied(s0.fs_lookup(q), q, ps.take(i as int), bs.take(i as int)),
                touches_only(s0, *fs, fam_traces()),
                s0.fs_exact() ==> fs.fs_exact(),
                *old(fs) == s0,
                forall|ws: Seq<Seq<Seq<char>>>|
                    s0.fs_exact() && #[trigger] crate::file_system::writes_allowed(s0, ws) && (forall|k: int|
                        0 <= k < traces@.len() ==> ws.contains(#[trigger] trace_paths(traces@)[k])) ==> crate::file_system::writes_allowed(*fs, ws),
            decreases traces@.len() - i,
        {
            let ghost prev = *fs;
            proof {
                assert forall|ws: Seq<Seq<Seq<char>>>|
                    s0.fs_exact() && #[trigger] crate::file_system::writes_allowed(s0, ws) && (forall|k: int|
                        0 <= k < traces@.len() ==> ws.contains(#[trigger] trace_paths(traces@)[k])) implies crate::file_system::write_allowed(
                        crate::file_system::files_of(*fs),
                        ps[i as int],
                    ) by {
                    assert(ws.contains(ps[i as int]));
                    let j = choose|j: int| 0 <= j < ws.len() && ws[j] == ps[i as int];
                    assert(crate::file_system::write_allowed(crate::file_system::files_of(*fs), ws[j]));
                }
            }
            self.write(fs, &traces[i].commit_hash, &traces[i].obj_hash)?;
            proof {
                assert(ps.take(i + 1) =~= ps.take(i as int).push(ps[i as int]));
                assert(bs.take(i + 1) =~= bs.take(i as int).push(bs[i as int]));
                assert forall|q: Seq<Seq<char>>| #[trigger] fs.fs_lookup(q) == writes_applied(s0.fs_lookup(q), q, ps.take(i + 1), bs.take(i + 1)) by {
                    lemma_writes_applied_push(s0.fs_lookup(q), q, ps.take(i as int), bs.take(i as int), ps[i as int], bs[i as int]);
                    assert(prev.fs_lookup(q) == writes_applied(s0.fs_lookup(q), q, ps.take(i as int), bs.take(i as int)));
                }
                assert forall|q: Seq<Seq<char>>| outside(q, fam_traces()) implies #[trigger] fs.fs_lookup(q) == s0.fs_lookup(q) by {
                    assert(prev.fs_lookup(q) == s0.fs_lookup(q));
                }
                assert forall|ws: Seq<Seq<Seq<char>>>|
                    s0.fs_exact() && #[trigger] crate::file_system::writes_allowed(s0, ws) && (forall|k: int|
                        0 <= k < traces@.len() ==> ws.contains(#[trigger] trace_paths(traces@)[k])) implies crate::file_system::writes_allowed(*fs, ws) by {
                    assert(ws.contains(ps[i as int]));
                    crate::file_system::lemma_writes_allowed_kept(prev, *fs, ws, ps[i as int], bs[i as int]);
                }
            }
            i = i + 1;
        }
        proof {
            assert(ps.take(i as int) =~= ps);
            assert(bs.take(i as int) =~= bs);
        }
        Ok(())
    }

    /// Records the trace of a commit.
    pub fn write<Fs: FileSystem>(&self, fs: &mut Fs, commit_hash: &CommitHash, hash: &ObjHash) -> (r: Result<()>)
        requires
            old(fs).fs_inv(),
        ensures
            r matches Err(e) ==> is_data_error(e),
            final(fs).fs_inv(),
            r is Ok ==> trace_written(*old(fs), *final(fs), commit_hash.0.0@, hash.0@),
            r is Ok ==> touches_only(*old(fs), *final(fs), fam_traces()),
            old(fs).fs_exact() ==> final(fs).fs_exact(),
            old(fs).fs_exact() && write_allowed(files_of(*old(fs)), segs(trace_path(commit_hash.0.0@))) ==> r is Ok,
    {
        let ghost before = *fs;
        let path = concat("/.meltos/traces/", commit_hash.0.0.as_str());
        let buf = hash.encode();
        let r = lift(fs.write_file(path.as_str(), buf.as_slice()));
        proof {
            if r is Ok {
                lemma_trace_path(commit_hash.0.0@);
                lemma_write_frame(before, *fs, segs(trace_path(commit_hash.0.0@)), encode_utf8(hash.0@), fam_traces());
            }
        }
        r
    }

    /// Every recorded trace, with the commit taken from its file's name.
    pub fn read_all<Fs: FileSystem>(&self, fs: &Fs) -> (r: Result<Vec<BundleTrace>>)
        requires
            fs.fs_inv(),
        ensures
            r matches Err(e) ==> is_data_error(e),
            r matches Ok(v) ==> forall|i: int| 0 <= i < v@.len() ==> #[trigger] traced_under(*fs, v@[i]),
            r matches Ok(v) ==> all_traces(*fs, v@),
            r matches Err(e) ==> !fs.fs_exact() || (e == Error::InvalidUtf8 && unreadable_trace(*fs)),
    {
        proof {
            lemma_trace_path(Seq::empty());
            assert(trace_path(Seq::empty()) =~= "/.meltos/traces/"@);
        }
        let files = lift(fs.all_files_in("/.meltos/traces/"))?;
        let mut traces: Vec<BundleTrace> = Vec::new();
        let mut i: usize = 0;
        while i < files.len()
            invariant
                fs.fs_inv(),
                i <= files@.len(),
                lists_files(
                    Set::new(|q: Seq<Seq<char>>| is_file(fs.fs_lookup(q))),
                    segs("/.meltos/traces/"@),
                    files@,
                ),
                forall|j: int| 0 <= j < traces@.len() ==> #[trigger] traced_under(*fs, traces@[j]),
                segs("/.meltos/traces/"@).len() > 0,
                segs("/.meltos/traces/"@) == segs(trace_path(Seq::empty())),
                traces@.len() == i,
                forall|j: int| 0 <= j < i ==> #[trigger] listed_trace(*fs, files@[j], traces@[j]),
            decreases files@.len() - i,
        {
            proof {
                assert(has_prefix(segs(files@[i as int]@), segs("/.meltos/traces/"@)));
            }
            match file_name(files[i].as_str()) {
                Some(name) => {
                    let commit_hash = CommitHash(ObjHash(name));
                    proof {
                        assert(Set::new(|q: Seq<Seq<char>>| is_file(fs.fs_lookup(q))).contains(segs(files@[i as int]@)));
                    }
                    let buf = match lift(fs.read_file(files[i].as_str()))? {
                        Some(b) => b,
                        None => return Err(Error::NotfoundTrace(commit_hash)),
                    };
                    let obj_hash = match ObjHash::decode(buf.as_slice()) {
                        Ok(h) => h,
                        Err(e) => {
                            proof {
                                assert(has_prefix(segs(files@[i as int]@), segs(trace_path(Seq::empty()))));
                                assert(file_bytes(fs.fs_lookup(segs(files@[i as int]@))) == Some(buf@));
                                assert(not_text(fs.fs_lookup(segs(files@[i as int]@))));
                            }
                            return Err(e);
                        },
                    };
                    let t = BundleTrace { commit_hash, obj_hash };
                    proof {
                        let q = segs(files@[i as int]@);
                        assert(has_prefix(q, segs("/.meltos/traces/"@)));
                        assert(traced_under(*fs, t));
                    }
                    traces.push(t);
                },
                None => {},
            }
            i = i + 1;
        }
        proof {
            assert(lists_traces(*fs, files@));
            assert(all_traces(*fs, traces@));
        }
        Ok(traces)
    }

    /// The trace of a commit; an error where there is none.
    pub fn read<Fs: FileSystem>(&self, fs: &Fs, commit_hash: &CommitHash) -> (r: Result<ObjHash>)
        requires
            fs.fs_inv(),
        ensures
            r matches Err(e) ==> is_data_error(e),
            r matches Ok(h) ==> trace_of(*fs, commit_hash.0.0@, h.0@),
            fs.fs_lookup(segs(trace_path(commit_hash.0.0@))) is None ==> r is Err,
            fs.fs_exact() && crate::io::text_at(fs.fs_lookup(segs(trace_path(commit_hash.0.0@)))) is Some ==> r is Ok,
    {
        let path = concat("/.meltos/traces/", commit_hash.0.0.as_str());
        let buf = match fs.try_read_file(path.as_str()) {
            Ok(b) => b,
            Err(_) => return Err(Error::NotfoundTrace(commit_hash.copy())),
        };
        ObjHash::decode(buf.as_slice())
    }
}

/// Some file below the traces directory does not hold text.
pub open spec fn unreadable_trace<Fs: FileSystem>(fs: Fs) -> bool {
    exists|q: Seq<Seq<char>>| has_prefix(q, segs(trace_path(Seq::empty()))) && #[trigger] not_text(fs.fs_lookup(q))
}

/// `t` is the trace recorded in the file named by the path string `f`: its
/// commit is the file's name and its tree hash the file's text.
pub open spec fn listed_trace<Fs: FileSystem>(fs: Fs, f: String, t: BundleTrace) -> bool {
    &&& segs(f@).len() > 0
    &&& t.commit_hash.0.0@ == segs(f@).last()
    &&& file_bytes(fs.fs_lookup(segs(f@))) matches Some(b) && text_decoded(b) == Some(t.obj_hash.0@)
}

/// `files` names, once each, every file below `/.meltos/traces`.
pub open spec fn lists_traces<Fs: FileSystem>(fs: Fs, files: Seq<String>) -> bool {
    lists_files(Set::new(|q: Seq<Seq<char>>| is_file(fs.fs_lookup(q))), segs("/.meltos/traces/"@), files)
}

/// `v` holds, once each, the trace of every file below `/.meltos/traces`.
pub open spec fn all_traces<Fs: FileSystem>(fs: Fs, v: Seq<BundleTrace>) -> bool {
    exists|files: Seq<String>|
        #[trigger] lists_traces(fs, files) && v.len() == files.len() && forall|i: int|
            0 <= i < v.len() ==> #[trigger] listed_trace(fs, files[i], v[i])
}

/// The trace sits in a file below `/.meltos/traces` named by its commit.
pub open spec fn traced_under<Fs: FileSystem>(fs: Fs, t: BundleTrace) -> bool {
    exists|q: Seq<Seq<char>>|
        #![trigger fs.fs_lookup(q)]
        has_prefix(q, segs("/.meltos/traces/"@)) && q.len() > 0 && q.last() == t.commit_hash.0.0@
            && (file_bytes(fs.fs_lookup(q)) matches Some(b) && text_decoded(b) == Some(t.obj_hash.0@))
}

} // verus!
