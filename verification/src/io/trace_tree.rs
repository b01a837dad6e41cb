//! Trace trees: the tree of every file as it stood after a commit, stored
//! as an object and named by the commit's trace.

use vstd::prelude::*;

use crate::compression::{gz_decoded, gz_encoded};
use crate::error::{Result, is_data_error};
use crate::file_system::{FileSystem, files_of, lemma_write_keeps_allowed, write_allowed};
use crate::io::atomic::object::{ObjIo, obj_written};
use crate::io::atomic::trace::{TraceIo, trace_path, trace_tree_of, trace_written};
use crate::object::commit::CommitHash;
use crate::object::tree::{TreeObj, tree_encoded};
use crate::object::{Encodable, ObjView, hash_of};
use crate::encode::lemma_frame_fits;
use crate::io::atomic::object::{lemma_obj_read_after_write, obj_path};
use crate::io::layout::{
    fam_heads, fam_objects, fam_traces, lemma_fams_apart, lemma_kept, lemma_obj_path, lemma_trace_path, objects_open,
    outside, traces_open,
    touches_only2,
};
use crate::io::{lemma_text_roundtrip, lemma_written};
use crate::object::obj_fits;
use vstd::utf8::encode_utf8;
use crate::path::{has_prefix, segs};

verus! {

/// Reads and writes the trace tree of commits.
pub struct TraceTreeIo;

impl TraceTreeIo {
    pub fn new() -> (r: TraceTreeIo) {
        TraceTreeIo
    }

    /// Stores a tree as the trace of a commit.
    pub fn write<Fs: FileSystem>(&self, fs: &mut Fs, tree: &TreeObj, commit_hash: &CommitHash) -> (r: Result<()>)
        requires
            old(fs).fs_inv(),
        ensures
            r matches Err(e) ==> is_data_error(e),
            final(fs).fs_inv(),
            r is Ok ==> exists|mid: Fs|
                obj_written(*old(fs), mid, hash_of(tree_encoded(tree@)), gz_encoded(tree_encoded(tree@)))
                    && trace_written(mid, *final(fs), commit_hash.0.0@, hash_of(tree_encoded(tree@))),
            r is Ok ==> gz_decoded(gz_encoded(tree_encoded(tree@))) == Some(tree_encoded(tree@)),
            r is Ok ==> touches_only2(*old(fs), *final(fs), fam_objects(), fam_traces()),
            r is Ok && tree.wf() ==> trace_tree_of(*final(fs), commit_hash.0.0@) == Some(tree@),
            old(fs).fs_exact() ==> final(fs).fs_exact(),
            old(fs).fs_exact() && objects_open(*old(fs)) && write_allowed(files_of(*old(fs)), segs(trace_path(commit_hash.0.0@)))
                ==> r is Ok,
            r is Ok ==> forall|p: Seq<Seq<char>>|
                has_prefix(p, fam_heads()) && write_allowed(files_of(*old(fs)), p) ==> #[trigger] write_allowed(
                    files_of(*final(fs)),
                    p,
                ),
            r is Ok ==> (objects_open(*old(fs)) ==> objects_open(*final(fs))),
            r is Ok ==> (traces_open(*old(fs)) && crate::object::is_hex(commit_hash.0.0@) ==> traces_open(*final(fs))),
            r is Ok ==> crate::io::text_at(final(fs).fs_lookup(segs(trace_path(commit_hash.0.0@)))) == Some(
                hash_of(tree_encoded(tree@)),
            ),
            r is Ok ==> forall|x: Seq<char>|
                crate::object::is_hex(x) && x != hash_of(tree_encoded(tree@)) ==> #[trigger] crate::io::atomic::object::stored_obj(
                    *final(fs),
                    x,
                ) == crate::io::atomic::object::stored_obj(*old(fs), x),
    {
        let ghost before = *fs;
        let meta = tree.as_meta()?;
        proof {
            if tree.wf() {
                assert(meta.buf@.len() == meta.buf.len());
                let fields = crate::encode::utf8_fields(crate::object::tree::flat(tree@));
                assert(tree_encoded(tree@) == crate::object::tree::tree_tag() + crate::encode::frame(fields));
                lemma_frame_fits(fields);
                assert(obj_fits(ObjView::Tree(tree@)));
            }
        }
        proof {
            if fs.fs_exact() && objects_open(*fs) {
                crate::io::layout::lemma_objects_open_writes(*fs, meta.hash.0@);
            }
        }
        ObjIo::new().write(fs, &meta.hash, &meta.compressed_buf)?;
        let ghost mid = *fs;
        proof {
            if tree.wf() {
                lemma_obj_read_after_write(before, mid, ObjView::Tree(tree@));
            }
            if before.fs_exact() && objects_open(before) && write_allowed(files_of(before), segs(trace_path(commit_hash.0.0@))) {
                lemma_obj_path(meta.hash.0@);
                lemma_trace_path(commit_hash.0.0@);
                lemma_fams_apart();
                crate::io::layout::lemma_not_above(segs(obj_path(meta.hash.0@)), segs(trace_path(commit_hash.0.0@)), fam_objects(), fam_traces());
                lemma_write_keeps_allowed(before, mid, segs(trace_path(commit_hash.0.0@)), segs(obj_path(meta.hash.0@)), meta.compressed_buf.0@);
            }
        }
        let r = TraceIo::new().write(fs, commit_hash, &meta.hash);
        proof {
            if r is Ok {
                let h = meta.hash.0@;
                lemma_text_roundtrip(h);
                lemma_written(mid.fs_lookup(segs(trace_path(commit_hash.0.0@))), segs(trace_path(commit_hash.0.0@)), encode_utf8(h));
                lemma_obj_path(h);
                lemma_fams_apart();
                lemma_kept(mid, *fs, fam_traces(), segs(obj_path(h)), fam_objects());
                assert forall|q: Seq<Seq<char>>| outside(q, fam_objects()) && outside(q, fam_traces()) implies #[trigger] fs.fs_lookup(q)
                    == before.fs_lookup(q) by {
                    assert(mid.fs_lookup(q) == before.fs_lookup(q));
                    assert(fs.fs_lookup(q) == mid.fs_lookup(q));
                }
                let wo = segs(obj_path(h));
                let wt = segs(trace_path(commit_hash.0.0@));
                lemma_trace_path(commit_hash.0.0@);
                assert forall|p: Seq<Seq<char>>|
                    has_prefix(p, fam_heads()) && write_allowed(files_of(before), p) implies #[trigger] write_allowed(
                        files_of(*fs),
                        p,
                    ) by {
                    crate::io::layout::lemma_not_above(wo, p, fam_objects(), fam_heads());
                    crate::io::layout::lemma_not_above(wt, p, fam_traces(), fam_heads());
                    lemma_write_keeps_allowed(before, mid, p, wo, meta.compressed_buf.0@);
                    lemma_write_keeps_allowed(mid, *fs, p, wt, encode_utf8(h));
                }
                crate::io::layout::lemma_obj_path_hex(h);
                assert forall|x: Seq<char>|
                    crate::object::is_hex(x) && x != h implies #[trigger] crate::io::atomic::object::stored_obj(*fs, x)
                    == crate::io::atomic::object::stored_obj(before, x) by {
                    lemma_obj_path(x);
                    lemma_kept(mid, *fs, fam_traces(), segs(obj_path(x)), fam_objects());
                    crate::io::atomic::object::lemma_obj_kept_hex(before, mid, h, meta.compressed_buf.0@, x);
                }
                assert(wo.len() == 3);
                crate::io::layout::lemma_open_kept(before, mid, wo, meta.compressed_buf.0@);
                if crate::object::is_hex(commit_hash.0.0@) {
                    assert forall|i: int| 0 <= i < commit_hash.0.0@.len() implies commit_hash.0.0@[i] != '/' by {
                        assert(crate::object::hex_digits().contains(commit_hash.0.0@[i]));
                    }
                    if commit_hash.0.0@ == seq!['.'] {
                        assert(crate::object::hex_digits().contains(commit_hash.0.0@[0]));
                    }
                    crate::path::lemma_segs_one(commit_hash.0.0@);
                    assert(wt.len() == 3);
                    crate::io::layout::lemma_open_kept(mid, *fs, wt, encode_utf8(h));
                }
            }
        }
        r
    }

    /// The trace tree of a commit.
    pub fn read<Fs: FileSystem>(&self, fs: &Fs, commit_hash: &CommitHash) -> (r: Result<TreeObj>)
        requires
            fs.fs_inv(),
        ensures
            r matches Err(e) ==> is_data_error(e),
            r matches Ok(t) ==> t.wf() && trace_tree_of(*fs, commit_hash.0.0@) == Some(t@),
            fs.fs_lookup(segs(trace_path(commit_hash.0.0@))) is None ==> r is Err,
            fs.fs_exact() && trace_tree_of(*fs, commit_hash.0.0@) is Some ==> r is Ok,
    {
        let hash = TraceIo::new().read(fs, commit_hash)?;
        ObjIo::new().read_to_tree(fs, &hash)
    }
}

} // verus!
