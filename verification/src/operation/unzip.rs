//! Restoring committed files into the workspace.

use vstd::prelude::*;

use crate::branch::BranchName;
use crate::error::{Result, is_data_error};
use crate::file_system::{
    FilePath, FileSystem, FsNode, after_delete, after_write, files_of, is_proper_prefix, lemma_delete_keeps_allowed,
    lemma_write_keeps_allowed, write_allowed,
};
use crate::io::atomic::head::{HeadIo, head_of, head_path};
use crate::io::atomic::object::{ObjIo, obj_in, obj_path, stored_obj};
use crate::io::atomic::trace::{trace_path, trace_tree_of};
use crate::io::layout::{
    fam_heads, fam_objects, fam_traces, fam_workspace, lemma_delete_frame, lemma_head_path,
    lemma_kept, lemma_obj_path, lemma_trace_path, lemma_workspace_apart, lemma_workspace_dir, fams_apart, touches_only,
};
use crate::io::lift;
use crate::io::trace_tree::TraceTreeIo;
use crate::io::workspace::{WorkspaceIo, workspace_dir};
use crate::object::{Obj, ObjView};
use crate::path::{has_prefix, segs};

verus! {

/// What `q` holds once the workspace is emptied.
pub open spec fn wiped(n: Option<FsNode>, q: Seq<Seq<char>>) -> Option<FsNode> {
    after_delete(n, q, segs("/workspace"@))
}

/// The paths that the entries of a tree name.
pub open spec fn entry_paths(es: Seq<(Seq<char>, Seq<char>)>) -> Seq<Seq<Seq<char>>> {
    es.map_values(|e: (Seq<char>, Seq<char>)| segs(e.0))
}

/// What `q` holds after the objects `objs` are put in turn at the paths
/// `keys`, starting from `n`: a file object is written there, a delete
/// object removes the path.
pub open spec fn unpacked(n: Option<FsNode>, q: Seq<Seq<char>>, keys: Seq<Seq<Seq<char>>>, objs: Seq<ObjView>) -> Option<FsNode>
    decreases objs.len(),
{
    if keys.len() == 0 || objs.len() == 0 {
        n
    } else {
        let prev = unpacked(n, q, keys.drop_last(), objs.drop_last());
        match objs.last() {
            ObjView::File(b) => after_write(prev, q, keys.last(), b),
            ObjView::Delete(_) => after_delete(prev, q, keys.last()),
            _ => prev,
        }
    }
}

/// Restoring branch `b` took `before` to `after`: the workspace was
/// emptied, and each entry of the trace tree `es` of the branch's head was
/// put into place in turn, as the object `objs[i]` that its hash named when
/// its turn came.
pub open spec fn unzipped<Fs: FileSystem>(
    before: Fs,
    after: Fs,
    b: Seq<char>,
    es: Seq<(Seq<char>, Seq<char>)>,
    objs: Seq<ObjView>,
) -> bool {
    &&& head_of(before, b) matches Some(h)
    &&& trace_tree_of(before, h) == Some(es)
    &&& objs.len() == es.len()
    &&& forall|i: int|
        0 <= i < es.len() ==> (#[trigger] objs[i] is File || objs[i] is Delete) && obj_in(
            unpacked(
                wiped(before.fs_lookup(segs(obj_path(es[i].1))), segs(obj_path(es[i].1))),
                segs(obj_path(es[i].1)),
                entry_paths(es).take(i),
                objs.take(i),
            ),
        ) == Some(objs[i])
    &&& forall|q: Seq<Seq<char>>|
        #[trigger] after.fs_lookup(q) == unpacked(wiped(before.fs_lookup(q), q), q, entry_paths(es), objs)
}

/// Restoring branch `b` is owed success: the storage answers exactly, `b`
/// has a head whose trace tree is stored, every entry of that tree names a
/// path below the workspace (and no entry lies above another), and each
/// entry's hash names a stored file or delete object.
pub open spec fn unzip_owed<Fs: FileSystem>(fs: Fs, b: Seq<char>) -> bool {
    &&& fs.fs_exact()
    &&& head_of(fs, b) matches Some(h) && trace_tree_of(fs, h) matches Some(es) && unzip_tree_ok(fs, es)
}

/// The entries of `es` lie below the workspace, none above another, and
/// each names a stored file or delete object.
pub open spec fn unzip_tree_ok<Fs: FileSystem>(fs: Fs, es: Seq<(Seq<char>, Seq<char>)>) -> bool {
    &&& forall|i: int| #![trigger es[i]] 0 <= i < es.len() ==> has_prefix(segs(es[i].0), fam_workspace()) && segs(es[i].0).len() > 1
    &&& forall|i: int, j: int|
        0 <= i < es.len() && 0 <= j < es.len() ==> !is_proper_prefix(#[trigger] segs(es[i].0), #[trigger] segs(es[j].0))
    &&& forall|i: int|
        #![trigger es[i]]
        0 <= i < es.len() ==> (stored_obj(fs, es[i].1) matches Some(o) && (o is File || o is Delete))
}

/// A change confined to a directory of the layout other than the heads,
/// traces and objects keeps a restore owed.
pub proof fn lemma_unzip_owed_kept<Fs: FileSystem>(before: Fs, after: Fs, b: Seq<char>, fam: Seq<Seq<char>>)
    requires
        unzip_owed(before, b),
        after.fs_exact(),
        touches_only(before, after, fam),
        fams_apart(fam, fam_heads()),
        fams_apart(fam, fam_traces()),
        fams_apart(fam, fam_objects()),
    ensures
        unzip_owed(after, b),
{
    lemma_head_path(b);
    assert(has_prefix(fam, fam)) by {
        assert(fam.subrange(0, fam.len() as int) =~= fam);
    }
    let hp = segs(head_path(b));
    let k = choose|k: int| 0 <= k < fam.len() && k < fam_heads().len() && #[trigger] fam[k] != fam_heads()[k];
    crate::path::lemma_apart(hp, fam, fam_heads(), fam, k);
    assert(after.fs_lookup(hp) == before.fs_lookup(hp));
    let h = head_of(before, b)->Some_0;
    lemma_trace_path(h);
    let tp = segs(trace_path(h));
    let k2 = choose|k: int| 0 <= k < fam.len() && k < fam_traces().len() && #[trigger] fam[k] != fam_traces()[k];
    crate::path::lemma_apart(tp, fam, fam_traces(), fam, k2);
    assert(after.fs_lookup(tp) == before.fs_lookup(tp));
    let k3 = choose|k: int| 0 <= k < fam.len() && k < fam_objects().len() && #[trigger] fam[k] != fam_objects()[k];
    assert forall|x: Seq<char>| #[trigger] stored_obj(after, x) == stored_obj(before, x) by {
        lemma_obj_path(x);
        crate::path::lemma_apart(segs(obj_path(x)), fam, fam_objects(), fam, k3);
        assert(after.fs_lookup(segs(obj_path(x))) == before.fs_lookup(segs(obj_path(x))));
    }
    let th = crate::io::text_at(before.fs_lookup(tp))->Some_0;
    assert(stored_obj(after, th) == stored_obj(before, th));
    let es = trace_tree_of(before, h)->Some_0;
    assert(trace_tree_of(after, h) == Some(es));
    assert forall|i: int| #![trigger es[i]] 0 <= i < es.len() implies (stored_obj(after, es[i].1) matches Some(o) && (o is File
        || o is Delete)) by {
        assert(stored_obj(after, es[i].1) == stored_obj(before, es[i].1));
    }
}

/// Moving the head of `b` to `h`, whose trace tree can be restored, makes a
/// restore of `b` owed.
pub proof fn lemma_unzip_owed_after_head<Fs: FileSystem>(before: Fs, after: Fs, b: Seq<char>, h: Seq<char>)
    requires
        after.fs_exact(),
        head_of(after, b) == Some(h),
        touches_only(before, after, fam_heads()),
        trace_tree_of(before, h) matches Some(es) && unzip_tree_ok(before, es),
    ensures
        unzip_owed(after, b),
{
    crate::io::layout::lemma_fams_apart();
    let fam = fam_heads();
    assert(has_prefix(fam, fam)) by {
        assert(fam.subrange(0, fam.len() as int) =~= fam);
    }
    lemma_trace_path(h);
    let tp = segs(trace_path(h));
    let k2 = choose|k: int| 0 <= k < fam.len() && k < fam_traces().len() && #[trigger] fam[k] != fam_traces()[k];
    crate::path::lemma_apart(tp, fam, fam_traces(), fam, k2);
    assert(after.fs_lookup(tp) == before.fs_lookup(tp));
    let k3 = choose|k: int| 0 <= k < fam.len() && k < fam_objects().len() && #[trigger] fam[k] != fam_objects()[k];
    assert forall|x: Seq<char>| #[trigger] stored_obj(after, x) == stored_obj(before, x) by {
        lemma_obj_path(x);
        crate::path::lemma_apart(segs(obj_path(x)), fam, fam_objects(), fam, k3);
        assert(after.fs_lookup(segs(obj_path(x))) == before.fs_lookup(segs(obj_path(x))));
    }
    let th = crate::io::text_at(before.fs_lookup(tp))->Some_0;
    assert(stored_obj(after, th) == stored_obj(before, th));
    let es = trace_tree_of(before, h)->Some_0;
    assert(trace_tree_of(after, h) == Some(es));
    assert forall|i: int| #![trigger es[i]] 0 <= i < es.len() implies (stored_obj(after, es[i].1) matches Some(o) && (o is File
        || o is Delete)) by {
        assert(stored_obj(after, es[i].1) == stored_obj(before, es[i].1));
    }
}

/// Restores the workspace from the trace of a branch's head.
pub struct UnZip;

impl UnZip {
    pub fn new() -> (r: UnZip) {
        UnZip
    }

    /// Empties the workspace, then puts each entry of the trace tree of the
    /// branch's head into place: a file object is written at its path, a
    /// delete object removes its path.
    #[verifier::rlimit(80)]
    pub fn execute<Fs: FileSystem>(&self, fs: &mut Fs, branch_name: &BranchName) -> (r: Result<()>)
        requires
            old(fs).fs_inv(),
        ensures
            r matches Err(e) ==> is_data_error(e),
            final(fs).fs_inv(),
            r is Ok ==> exists|es: Seq<(Seq<char>, Seq<char>)>, objs: Seq<ObjView>|
                #[trigger] unzipped(*old(fs), *final(fs), branch_name.0@, es, objs),
            old(fs).fs_exact() ==> final(fs).fs_exact(),
            unzip_owed(*old(fs), branch_name.0@) ==> r is Ok,
    {
        let ghost s0 = *fs;
        lift(fs.delete("/workspace"))?;
        let ghost s1 = *fs;
        proof {
            reveal_strlit(".");
            lemma_workspace_dir("."@);
            assert(workspace_dir("."@) == "/workspace"@);
            assert(segs("/workspace"@) == fam_workspace());
            lemma_delete_frame(s0, s1, segs("/workspace"@), fam_workspace());
            lemma_workspace_apart();
            lemma_head_path(branch_name.0@);
            lemma_kept(s0, s1, fam_workspace(), segs(head_path(branch_name.0@)), fam_heads());
        }
        let head = HeadIo::new().try_read(fs, branch_name)?;
        proof {
            lemma_trace_path(head.0.0@);
            lemma_kept(s0, s1, fam_workspace(), segs(trace_path(head.0.0@)), fam_traces());
            if unzip_owed(s0, branch_name.0@) {
                let h = crate::io::text_at(s0.fs_lookup(segs(trace_path(head.0.0@)))).unwrap();
                lemma_obj_path(h);
                lemma_kept(s0, s1, fam_workspace(), segs(obj_path(h)), fam_objects());
                assert(trace_tree_of(s1, head.0.0@) == trace_tree_of(s0, head.0.0@));
            }
        }
        let trace_tree = TraceTreeIo::new().read(fs, &head)?;
        proof {
            let h = crate::io::text_at(s0.fs_lookup(segs(trace_path(head.0.0@)))).unwrap();
            lemma_obj_path(h);
            lemma_kept(s0, s1, fam_workspace(), segs(obj_path(h)), fam_objects());
            assert(trace_tree_of(s0, head.0.0@) == Some(trace_tree@));
        }
        let ghost es = trace_tree@;
        let ghost keys = entry_paths(es);
        let ghost mut objs: Seq<ObjView> = Seq::empty();
        let object = ObjIo::new();
        let workspace = WorkspaceIo::new();
        let mut i: usize = 0;
        proof {
            assert forall|q: Seq<Seq<char>>| #[trigger] fs.fs_lookup(q) == unpacked(wiped(s0.fs_lookup(q), q), q, keys.take(0), objs) by {}
            if unzip_owed(s0, branch_name.0@) {
                assert(unzip_tree_ok(s0, es));
                assert forall|j: int| 0 <= j < es.len() implies #[trigger] write_allowed(files_of(*fs), segs(es[j].0)) by {
                    let p = segs(es[j].0);
                    assert(has_prefix(p, fam_workspace()) && p.len() > 1);
                    assert forall|k: int| 0 < k < p.len() implies !#[trigger] files_of(*fs).contains(p.take(k)) by {
                        assert(has_prefix(p.take(k), fam_workspace())) by {
                            assert(p.take(k).subrange(0, 1) =~= p.subrange(0, 1));
                        }
                        assert(fs.fs_lookup(p.take(k)) == after_delete(s0.fs_lookup(p.take(k)), p.take(k), fam_workspace()));
                    }
                }
                assert forall|j: int| 0 <= j < es.len() implies #[trigger] stored_obj(*fs, es[j].1) == stored_obj(s0, es[j].1) by {
                    lemma_obj_path(es[j].1);
                    lemma_kept(s0, s1, fam_workspace(), segs(obj_path(es[j].1)), fam_objects());
                }
            }
        }
        while i < trace_tree.0.len()
            invariant
                fs.fs_inv(),
                es == trace_tree@,
                keys == entry_paths(es),
                es.len() == trace_tree.0@.len(),
                i <= es.len(),
                objs.len() == i,
                forall|j: int|
                    0 <= j < i ==> (#[trigger] objs[j] is File || objs[j] is Delete) && obj_in(
                        unpacked(
                            wiped(s0.fs_lookup(segs(obj_path(es[j].1))), segs(obj_path(es[j].1))),
                            segs(obj_path(es[j].1)),
                            keys.take(j),
                            objs.take(j),
                        ),
                    ) == Some(objs[j]),
                forall|q: Seq<Seq<char>>|
                    #[trigger] fs.fs_lookup(q) == unpacked(wiped(s0.fs_lookup(q), q), q, keys.take(i as int), objs),
                s0.fs_exact() ==> fs.fs_exact(),
                *old(fs) == s0,
                unzip_owed(s0, branch_name.0@) ==> unzip_tree_ok(s0, es),
                unzip_owed(s0, branch_name.0@) ==> forall|j: int|
                    i <= j < es.len() ==> #[trigger] write_allowed(files_of(*fs), segs(es[j].0)),
                unzip_owed(s0, branch_name.0@) ==> forall|j: int|
                    0 <= j < es.len() ==> #[trigger] stored_obj(*fs, es[j].1) == stored_obj(s0, es[j].1),
            decreases es.len() - i,
        {
            let ghost prev = *fs;
            let ghost objs_prev = objs;
            proof {
                if unzip_owed(s0, branch_name.0@) {
                    assert(stored_obj(*fs, es[i as int].1) == stored_obj(s0, es[i as int].1));
                    assert(trace_tree.0@[i as int].1.0@ == es[i as int].1);
                }
            }
            let obj = object.try_read_obj(fs, &trace_tree.0[i].1)?;
            let ghost op = segs(obj_path(es[i as int].1));
            proof {
                if unzip_owed(s0, branch_name.0@) {
                    assert(write_allowed(files_of(*fs), segs(es[i as int].0)));
                    assert(trace_tree.0@[i as int].0.0@ == es[i as int].0);
                    assert(obj@ == stored_obj(s0, es[i as int].1)->Some_0);
                }
            }
            proof {
                assert(prev.fs_lookup(op) == unpacked(wiped(s0.fs_lookup(op), op), op, keys.take(i as int), objs));
                assert(objs.take(i as int) =~= objs);
            }
            workspace.unpack(fs, &FilePath(trace_tree.0[i].0.0.clone()), &obj)?;
            proof {
                if unzip_owed(s0, branch_name.0@) {
                    let pi = segs(es[i as int].0);
                    assert forall|j: int| i + 1 <= j < es.len() implies #[trigger] write_allowed(files_of(*fs), segs(es[j].0)) by {
                        assert(write_allowed(files_of(prev), segs(es[j].0)));
                        assert(!is_proper_prefix(segs(es[i as int].0), segs(es[j].0)));
                        match obj {
                            Obj::File(f) => {
                                lemma_write_keeps_allowed(prev, *fs, segs(es[j].0), pi, f@);
                            },
                            _ => {
                                lemma_delete_keeps_allowed(prev, *fs, segs(es[j].0), pi);
                            },
                        }
                    }
                    assert forall|j: int| 0 <= j < es.len() implies #[trigger] stored_obj(*fs, es[j].1) == stored_obj(s0, es[j].1) by {
                        let oq = segs(obj_path(es[j].1));
                        lemma_obj_path(es[j].1);
                        lemma_workspace_apart();
                        crate::io::layout::lemma_not_above(pi, oq, fam_workspace(), fam_objects());
                        crate::io::layout::lemma_not_above(oq, pi, fam_objects(), fam_workspace());
                        assert(fs.fs_lookup(oq) == prev.fs_lookup(oq));
                        assert(stored_obj(prev, es[j].1) == stored_obj(s0, es[j].1));
                    }
                }
                objs = objs.push(obj@);
                let k = keys.take(i + 1);
                assert(k.drop_last() =~= keys.take(i as int));
                assert(objs.drop_last() =~= objs_prev);
                assert(k.last() == segs(es[i as int].0));
                assert forall|q: Seq<Seq<char>>| #[trigger] fs.fs_lookup(q) == unpacked(
                    wiped(s0.fs_lookup(q), q),
                    q,
                    keys.take(i + 1),
                    objs,
                ) by {
                    assert(prev.fs_lookup(q) == unpacked(wiped(s0.fs_lookup(q), q), q, keys.take(i as int), objs_prev));
                }
                assert forall|j: int|
                    0 <= j < i + 1 implies (#[trigger] objs[j] is File || objs[j] is Delete) && obj_in(
                        unpacked(
                            wiped(s0.fs_lookup(segs(obj_path(es[j].1))), segs(obj_path(es[j].1))),
                            segs(obj_path(es[j].1)),
                            keys.take(j),
                            objs.take(j),
                        ),
                    ) == Some(objs[j]) by {
                    assert(objs.take(j) =~= objs_prev.take(j));
                    if j < i {
                        assert(objs[j] == objs_prev[j]);
                    }
                }
            }
            i = i + 1;
        }
        proof {
            assert(keys.take(es.len() as int) =~= keys);
            assert(unzipped(s0, *fs, branch_name.0@, es, objs));
        }
        Ok(())
    }
}

} // verus!
