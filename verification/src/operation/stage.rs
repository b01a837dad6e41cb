//! Staging changed workspace files.

use vstd::prelude::*;

use crate::assoc::{filt, keys_distinct, lemma_as_map, lemma_filt, lemma_lookup_index, seq_has, seq_lookup};
use crate::branch::BranchName;
use crate::error::{Error, Result, is_data_error};
use crate::file_system::nodes::lemma_prefix_trans;
use crate::file_system::{FilePath, FileSystem, FsNode, is_file, lemma_lists_agree};
use crate::io::atomic::head::{HeadIo, head_of, head_path};
use crate::io::atomic::object::{ObjIo, lemma_names_stored_after_write, names_stored};
use crate::io::atomic::staging::{StagingIo, staged_tree, staging_path};
use crate::io::atomic::trace::trace_tree_of;
use crate::io::file_bytes;
use crate::io::layout::{
    fam_objects, fam_stage, fam_workspace, lemma_outside_fam, objects_open,
    lemma_workspace_apart, lemma_workspace_dir, outside, touches_only, touches_only2,
};
use crate::io::trace_tree::TraceTreeIo;
use crate::io::workspace::{WorkspaceIo, lists_workspace, workspace_dir};
use crate::object::delete::{DeleteObj, delete_encoded};
use crate::object::file::{FileObj, file_encoded};
use crate::object::tree::{TreeObj, entry_view, tree_encoded};
use crate::object::{Encodable, ObjHash, ObjView, hash_of};
use crate::path::{has_prefix, lemma_contains_push, lemma_listing_distinct, segs, strs_view};
use crate::util::str_eq;

verus! {

/// The hash of the file object for the file at `q`, where `q` holds a file.
pub open spec fn file_hash_at<Fs: FileSystem>(fs: Fs, q: Seq<char>) -> Option<Seq<char>> {
    match file_bytes(fs.fs_lookup(segs(q))) {
        Some(c) => Some(hash_of(file_encoded(c))),
        None => None,
    }
}

/// The staging tree that staging starts from: the recorded one, or an empty
/// one where none is recorded.
pub open spec fn stage_base<Fs: FileSystem>(fs: Fs) -> Option<Seq<(Seq<char>, Seq<char>)>> {
    if fs.fs_lookup(segs(staging_path())) is None {
        Some(Seq::empty())
    } else {
        staged_tree(fs)
    }
}

/// The trace tree of the head of branch `b`, or an empty one where `b` has
/// no head.
pub open spec fn head_trace<Fs: FileSystem>(fs: Fs, b: Seq<char>) -> Option<Seq<(Seq<char>, Seq<char>)>> {
    if fs.fs_lookup(segs(head_path(b))) is None {
        Some(Seq::empty())
    } else {
        match head_of(fs, b) {
            Some(h) => trace_tree_of(fs, h),
            None => None,
        }
    }
}

/// Staging is owed an answer other than a storage error: the storage answers
/// exactly, no file stands where the objects or the staging tree belong, the
/// staging tree (if any) decodes, and the head of `b` (if any) names a
/// commit whose trace tree is stored.
pub open spec fn stage_owed<Fs: FileSystem>(fs: Fs, b: Seq<char>) -> bool {
    &&& fs.fs_exact()
    &&& objects_open(fs)
    &&& stage_base(fs) is Some
    &&& head_trace(fs, b) is Some
}

/// `q` holds a file whose content is not what the trace records for it.
pub open spec fn file_differs<Fs: FileSystem>(fs: Fs, tr: Seq<(Seq<char>, Seq<char>)>, q: Seq<char>) -> bool {
    file_hash_at(fs, q) is Some && seq_lookup(tr, q) != file_hash_at(fs, q)
}

/// `q` is traced but is not among the workspace files `ws`.
pub open spec fn file_gone(tr: Seq<(Seq<char>, Seq<char>)>, ws: Seq<Seq<char>>, q: Seq<char>) -> bool {
    seq_has(tr, q) && !ws.contains(q)
}

/// What the staging tree holds for `q` once the files `names` are staged
/// against the trace `tr`: the file's object where it differs from the
/// trace, else what `st` held.
pub open spec fn staged_file_entry<Fs: FileSystem>(
    fs: Fs,
    st: Seq<(Seq<char>, Seq<char>)>,
    tr: Seq<(Seq<char>, Seq<char>)>,
    names: Seq<Seq<char>>,
    q: Seq<char>,
) -> Option<Seq<char>> {
    if names.contains(q) && file_differs(fs, tr, q) {
        file_hash_at(fs, q)
    } else {
        seq_lookup(st, q)
    }
}

/// What the staging tree holds for `q` after staging: a delete object for a
/// traced file that is gone, else as `staged_file_entry` says.
pub open spec fn staged_entry<Fs: FileSystem>(
    fs: Fs,
    st: Seq<(Seq<char>, Seq<char>)>,
    tr: Seq<(Seq<char>, Seq<char>)>,
    names: Seq<Seq<char>>,
    ws: Seq<Seq<char>>,
    q: Seq<char>,
) -> Option<Seq<char>> {
    if file_gone(tr, ws, q) {
        Some(hash_of(delete_encoded(seq_lookup(tr, q).unwrap())))
    } else {
        staged_file_entry(fs, st, tr, names, q)
    }
}

/// Some file of `names` differs both from the trace and from what is staged.
pub open spec fn files_change<Fs: FileSystem>(
    fs: Fs,
    st: Seq<(Seq<char>, Seq<char>)>,
    tr: Seq<(Seq<char>, Seq<char>)>,
    names: Seq<Seq<char>>,
) -> bool {
    exists|q: Seq<char>| #[trigger] names.contains(q) && file_differs(fs, tr, q) && seq_lookup(st, q) != file_hash_at(fs, q)
}

/// Staging has something to record: a changed file or a traced file that is gone.
pub open spec fn stage_changes<Fs: FileSystem>(
    fs: Fs,
    st: Seq<(Seq<char>, Seq<char>)>,
    tr: Seq<(Seq<char>, Seq<char>)>,
    names: Seq<Seq<char>>,
    ws: Seq<Seq<char>>,
) -> bool {
    files_change(fs, st, tr, names) || exists|q: Seq<char>| #[trigger] file_gone(tr, ws, q)
}

/// The pairs of a trace kept for files that are not in the listing `ws`.
pub open spec fn gone_only(ws: Seq<Seq<char>>) -> spec_fn(Seq<char>, Seq<char>) -> bool {
    |k: Seq<char>, h: Seq<char>| !ws.contains(k)
}

/// The traced files gone from the workspace as `ws` lists it were staged as
/// delete objects, taking `st` to `st2` and `changed` to `changed2`.
pub open spec fn deletes_staged<Fs: FileSystem>(
    fs: Fs,
    tr: Seq<(Seq<char>, Seq<char>)>,
    st: Seq<(Seq<char>, Seq<char>)>,
    st2: Seq<(Seq<char>, Seq<char>)>,
    changed: bool,
    changed2: bool,
    ws: Seq<String>,
) -> bool {
    &&& lists_workspace(fs, "."@, ws)
    &&& forall|q: Seq<char>|
        #[trigger] seq_lookup(st2, q) == if file_gone(tr, strs_view(ws), q) {
            Some(hash_of(delete_encoded(seq_lookup(tr, q).unwrap())))
        } else {
            seq_lookup(st, q)
        }
    &&& changed2 == (changed || exists|q: Seq<char>| #[trigger] file_gone(tr, strs_view(ws), q))
}

/// Staging branch `b` at the workspace path `wp` of `fs`, reading `names`
/// as the files at or below `wp` and `ws` as all workspace files, finds
/// nothing to record.
pub open spec fn nothing_to_stage<Fs: FileSystem>(fs: Fs, b: Seq<char>, wp: Seq<char>, names: Seq<String>, ws: Seq<String>) -> bool {
    &&& lists_workspace(fs, wp, names)
    &&& lists_workspace(fs, "."@, ws)
    &&& stage_base(fs) matches Some(st)
    &&& head_trace(fs, b) matches Some(tr)
    &&& !stage_changes(fs, st, tr, strs_view(names), strs_view(ws))
}

/// Staging branch `b` at the workspace path `wp` took `before` to `after`,
/// reading `names` as the files at or below `wp` and `ws` as all workspace
/// files, and recorded the staging tree `t`; every hash that the staging
/// tree gains names a stored object (the file or delete object staged).
pub open spec fn staged_as<Fs: FileSystem>(
    before: Fs,
    after: Fs,
    b: Seq<char>,
    wp: Seq<char>,
    names: Seq<String>,
    ws: Seq<String>,
    t: Seq<(Seq<char>, Seq<char>)>,
) -> bool {
    &&& lists_workspace(before, wp, names)
    &&& lists_workspace(before, "."@, ws)
    &&& stage_base(before) matches Some(st)
    &&& head_trace(before, b) matches Some(tr)
    &&& stage_changes(before, st, tr, strs_view(names), strs_view(ws))
    &&& keys_distinct(t)
    &&& after.fs_lookup(segs(staging_path())) == Some(FsNode::File(tree_encoded(t)))
    &&& forall|q: Seq<char>|
        #[trigger] seq_lookup(t, q) == staged_entry(before, st, tr, strs_view(names), strs_view(ws), q)
    &&& forall|q: Seq<char>|
        #[trigger] seq_lookup(t, q) != seq_lookup(st, q) ==> (seq_lookup(t, q) matches Some(h) && names_stored(after, h))
}

/// What lies at or below a workspace directory is untouched by a change
/// confined to the objects.
proof fn lemma_workspace_kept<Fs: FileSystem>(before: Fs, after: Fs, p: Seq<char>, q: Seq<Seq<char>>)
    requires
        touches_only(before, after, fam_objects()),
        has_prefix(q, segs(workspace_dir(p))),
    ensures
        after.fs_lookup(q) == before.fs_lookup(q),
{
    lemma_workspace_dir(p);
    lemma_prefix_trans(q, segs(workspace_dir(p)), fam_workspace());
    lemma_workspace_apart();
    lemma_outside_fam(q, fam_workspace(), fam_objects());
}

/// Stages changes of the workspace.
pub struct Stage;

impl Stage {
    pub fn new() -> (r: Stage) {
        Stage
    }

    /// Stages the workspace files at or below `workspace_path` whose content
    /// differs from the trace of the branch's head and from what is staged
    /// (storing their file objects), and a delete object for each traced
    /// file that is no longer in the workspace. Fails, writing no staging
    /// tree, where nothing is to be staged.
    pub fn execute<Fs: FileSystem>(&self, fs: &mut Fs, branch_name: &BranchName, workspace_path: &str) -> (r: Result<()>)
        requires
            old(fs).fs_inv(),
        ensures
            final(fs).fs_inv(),
            r is Ok ==> exists|names: Seq<String>, ws: Seq<String>, t: Seq<(Seq<char>, Seq<char>)>|
                #[trigger] staged_as(*old(fs), *final(fs), branch_name.0@, workspace_path@, names, ws, t),
            r is Ok ==> touches_only2(*old(fs), *final(fs), fam_objects(), fam_stage()),
            r matches Err(e) ==> is_data_error(e) || (e is ChangedFileNotExits && exists|names: Seq<String>, ws: Seq<String>|
                #[trigger] nothing_to_stage(*old(fs), branch_name.0@, workspace_path@, names, ws)),
            stage_owed(*old(fs), branch_name.0@) ==> (r is Ok || r == Err::<(), Error>(Error::ChangedFileNotExits)),
            stage_owed(*old(fs), branch_name.0@) ==> final(fs).fs_exact() && objects_open(*final(fs)),
            r is Err && stage_owed(*old(fs), branch_name.0@) ==> touches_only(*old(fs), *final(fs), fam_objects()),
            r is Ok ==> staged_tree(*final(fs)) is Some,
    {
        let ghost s0 = *fs;
        let staging = StagingIo::new();
        let mut stage_tree = match staging.read(fs)? {
            Some(t) => t,
            None => {
                let t = TreeObj::new();
                assert(t@ =~= Seq::<(Seq<char>, Seq<char>)>::empty());
                t
            },
        };
        let ghost st0 = stage_tree@;
        let trace_tree = match HeadIo::new().read(fs, branch_name)? {
            Some(head) => TraceTreeIo::new().read(fs, &head)?,
            None => {
                let t = TreeObj::new();
                assert(t@ =~= Seq::<(Seq<char>, Seq<char>)>::empty());
                t
            },
        };
        assert(stage_base(s0) == Some(st0));
        assert(head_trace(s0, branch_name.0@) == Some(trace_tree@));
        let mut changed = false;
        let mut objs = WorkspaceIo::new().convert_to_objs(fs, workspace_path)?;
        let ghost names = objs.files@;
        proof {
            assert(strs_view(names).take(0) =~= Seq::<Seq<char>>::empty());
            assert forall|q: Seq<Seq<char>>| outside(q, fam_objects()) implies #[trigger] fs.fs_lookup(q) == s0.fs_lookup(q) by {}
        }
        while objs.index < objs.files.len()
            invariant
                fs.fs_inv(),
                stage_tree.wf(),
                trace_tree.wf(),
                objs.files@ == names,
                objs.index <= names.len(),
                lists_workspace(s0, workspace_path@, names),
                touches_only(s0, *fs, fam_objects()),
                stage_owed(s0, branch_name.0@) ==> fs.fs_exact() && objects_open(*fs),
                *old(fs) == s0,
                forall|q: Seq<char>|
                    #[trigger] stage_tree.lookup(q) == staged_file_entry(
                        s0,
                        st0,
                        trace_tree@,
                        strs_view(names).take(objs.index as int),
                        q,
                    ),
                changed == files_change(s0, st0, trace_tree@, strs_view(names).take(objs.index as int)),
                forall|q: Seq<char>|
                    #[trigger] stage_tree.lookup(q) != seq_lookup(st0, q) ==> (stage_tree.lookup(q) matches Some(h) && names_stored(
                        *fs,
                        h,
                    )),
            decreases names.len() - objs.index,
        {
            let ghost k = objs.index as int;
            let ghost fs_prev = *fs;
            proof {
                assert(has_prefix(segs(names[k]@), segs(workspace_dir(workspace_path@))));
                lemma_workspace_kept(s0, fs_prev, workspace_path@, segs(names[k]@));
                assert(Set::new(|q: Seq<Seq<char>>| is_file(s0.fs_lookup(q))).contains(segs(names[k]@)));
                assert(is_file(fs_prev.fs_lookup(segs(objs.files@[objs.index as int]@))));
            }
            match objs.next(fs) {
                Some(Ok((file_path, file_obj))) => {
                    let ghost qk = names[k]@;
                    let ghost h = hash_of(file_encoded(file_obj@));
                    proof {
                        assert(has_prefix(segs(names[k]@), segs(workspace_dir(workspace_path@))));
                        lemma_workspace_kept(s0, fs_prev, workspace_path@, segs(qk));
                        assert(file_hash_at(s0, qk) == Some(h));
                        lemma_listing_distinct(names, k);
                        assert(strs_view(names).take(k + 1) =~= strs_view(names).take(k).push(qk));
                        assert(stage_tree.lookup(qk) == seq_lookup(st0, qk));
                    }
                    let ghost stg_prev = stage_tree;
                    let ghost fp = file_path.0@;
                    self.stage_file(fs, &mut stage_tree, &mut changed, &trace_tree, file_path, file_obj)?;
                    proof {
                        assert forall|q: Seq<char>| #[trigger] stage_tree.lookup(q) != seq_lookup(st0, q) implies (stage_tree.lookup(q) matches Some(
                            hh,
                        ) && names_stored(*fs, hh)) by {
                            if stage_tree.lookup(q) == stg_prev.lookup(q) {
                                assert(stg_prev.lookup(q) != seq_lookup(st0, q));
                                let hh = stg_prev.lookup(q)->Some_0;
                                assert(names_stored(fs_prev, hh));
                            } else {
                                assert(q == fp);
                            }
                        }
                        let pre = strs_view(names).take(k);
                        let post = strs_view(names).take(k + 1);
                        assert forall|q: Seq<char>| #[trigger]
                            stage_tree.lookup(q) == staged_file_entry(s0, st0, trace_tree@, post, q) by {
                            lemma_contains_push(pre, qk, q);
                        }
                        assert forall|q: Seq<Seq<char>>| outside(q, fam_objects()) implies #[trigger] fs.fs_lookup(q)
                            == s0.fs_lookup(q) by {
                            assert(fs_prev.fs_lookup(q) == s0.fs_lookup(q));
                        }
                        if files_change(s0, st0, trace_tree@, post) {
                            let q = choose|q: Seq<char>| #[trigger] post.contains(q) && file_differs(s0, trace_tree@, q)
                                && seq_lookup(st0, q) != file_hash_at(s0, q);
                            lemma_contains_push(pre, qk, q);
                            if q != qk {
                                assert(files_change(s0, st0, trace_tree@, pre));
                            }
                        }
                        if files_change(s0, st0, trace_tree@, pre) {
                            let q = choose|q: Seq<char>| #[trigger] pre.contains(q) && file_differs(s0, trace_tree@, q)
                                && seq_lookup(st0, q) != file_hash_at(s0, q);
                            lemma_contains_push(pre, qk, q);
                            assert(post.contains(q));
                        }
                        lemma_contains_push(pre, qk, qk);
                        assert(post.contains(qk));
                    }
                },
                Some(Err(e)) => {
                    return Err(e);
                },
                None => {},
            }
        }
        let ghost fs_files = *fs;
        proof {
            assert(strs_view(names).take(names.len() as int) =~= strs_view(names));
        }
        let ghost changed_files = changed;
        let ghost stage_files = stage_tree@;
        proof {
            assert forall|q: Seq<char>| #[trigger] seq_lookup(stage_files, q) == staged_file_entry(
                s0,
                st0,
                trace_tree@,
                strs_view(names),
                q,
            ) by {
                assert(stage_tree.lookup(q) == seq_lookup(stage_files, q));
            }
        }
        let ghost stg_files = stage_tree;
        self.add_delete_objs_into_staging(fs, &mut stage_tree, &mut changed, &trace_tree)?;
        let ghost stg_deleted = stage_tree;
        let ghost ws = choose|ws: Seq<String>|
            #[trigger] deletes_staged(fs_files, trace_tree@, stage_files, stage_tree@, changed_files, changed, ws);
        proof {
            assert forall|q: Seq<Seq<char>>| has_prefix(q, segs(workspace_dir("."@))) implies #[trigger] s0.fs_lookup(q)
                == fs_files.fs_lookup(q) by {
                lemma_workspace_kept(s0, fs_files, "."@, q);
            }
            lemma_lists_agree(fs_files, s0, segs(workspace_dir("."@)), ws);
        }
        let ghost fs_deleted = *fs;
        if !changed {
            proof {
                assert(nothing_to_stage(s0, branch_name.0@, workspace_path@, names, ws));
            }
            return Err(Error::ChangedFileNotExits);
        }
        staging.write_tree(fs, &stage_tree)?;
        proof {
            crate::io::lemma_written(fs_deleted.fs_lookup(segs(staging_path())), segs(staging_path()), tree_encoded(stage_tree@));
            assert forall|q: Seq<char>| #[trigger] seq_lookup(stage_tree@, q) == staged_entry(
                s0,
                st0,
                trace_tree@,
                strs_view(names),
                strs_view(ws),
                q,
            ) by {}
            assert forall|q: Seq<char>| #[trigger] seq_lookup(stage_tree@, q) != seq_lookup(st0, q) implies (seq_lookup(
                stage_tree@,
                q,
            ) matches Some(hh) && names_stored(*fs, hh)) by {
                assert(stage_tree.lookup(q) == seq_lookup(stage_tree@, q));
                let hh = seq_lookup(stage_tree@, q)->Some_0;
                if stg_deleted.lookup(q) == stg_files.lookup(q) {
                    assert(names_stored(fs_files, hh));
                }
                assert(names_stored(fs_deleted, hh));
                crate::io::layout::lemma_obj_path(hh);
                crate::io::layout::lemma_kept(fs_deleted, *fs, fam_stage(), segs(crate::io::atomic::object::obj_path(hh)), fam_objects());
            }
            assert(staged_as(s0, *fs, branch_name.0@, workspace_path@, names, ws, stage_tree@));
            assert forall|q: Seq<Seq<char>>| outside(q, fam_objects()) && outside(q, fam_stage()) implies #[trigger] fs.fs_lookup(q)
                == s0.fs_lookup(q) by {
                assert(fs_files.fs_lookup(q) == s0.fs_lookup(q));
                assert(fs_deleted.fs_lookup(q) == fs_files.fs_lookup(q));
            }
        }
        Ok(())
    }

    /// Stages one workspace file: where its object differs from the trace,
    /// the staging tree records it (and the object is stored where the
    /// staging tree did not yet record it, which counts as a change).
    fn stage_file<Fs: FileSystem>(
        &self,
        fs: &mut Fs,
        stage: &mut TreeObj,
        changed: &mut bool,
        trace: &TreeObj,
        file_path: FilePath,
        file_obj: FileObj,
    ) -> (r: Result<()>)
        requires
            old(fs).fs_inv(),
            old(stage).wf(),
            trace.wf(),
        ensures
            r matches Err(e) ==> is_data_error(e),
            final(fs).fs_inv(),
            final(stage).wf(),
            r is Ok ==> forall|q: Seq<char>|
                #[trigger] final(stage).lookup(q) == if q == file_path.0@ && trace.lookup(q) != Some(
                    hash_of(file_encoded(file_obj@)),
                ) {
                    Some(hash_of(file_encoded(file_obj@)))
                } else {
                    old(stage).lookup(q)
                },
            r is Ok ==> *final(changed) == (*old(changed) || (trace.lookup(file_path.0@) != Some(
                hash_of(file_encoded(file_obj@)),
            ) && old(stage).lookup(file_path.0@) != Some(hash_of(file_encoded(file_obj@))))),
            r is Ok ==> touches_only(*old(fs), *final(fs), fam_objects()),
            old(fs).fs_exact() && objects_open(*old(fs)) ==> r is Ok && final(fs).fs_exact() && objects_open(*final(fs)),
            r is Ok ==> forall|h: Seq<char>| names_stored(*old(fs), h) ==> #[trigger] names_stored(*final(fs), h),
            r is Ok ==> (final(stage).lookup(file_path.0@) != old(stage).lookup(file_path.0@) ==> names_stored(
                *final(fs),
                hash_of(file_encoded(file_obj@)),
            )),
    {
        let meta = file_obj.as_meta()?;
        if !trace.changed_hash(&file_path, &meta.hash) {
            return Ok(());
        }
        if stage.changed_hash(&file_path, &meta.hash) {
            *changed = true;
            let ghost before = *fs;
            ObjIo::new().write_obj(fs, &file_obj)?;
            proof {
                assert(crate::object::obj_encoded(ObjView::File(file_obj@)) == file_obj.encoded());
                assert forall|h: Seq<char>| names_stored(before, h) implies #[trigger] names_stored(*fs, h) by {
                    lemma_names_stored_after_write(before, *fs, ObjView::File(file_obj@), h);
                }
                lemma_names_stored_after_write(before, *fs, ObjView::File(file_obj@), meta.hash.0@);
            }
            stage.insert(file_path, meta.hash);
        }
        Ok(())
    }

    /// Stages a delete object for each traced file that is gone from the
    /// workspace.
    fn add_delete_objs_into_staging<Fs: FileSystem>(
        &self,
        fs: &mut Fs,
        staging: &mut TreeObj,
        changed: &mut bool,
        trace_tree: &TreeObj,
    ) -> (r: Result<()>)
        requires
            old(fs).fs_inv(),
            old(staging).wf(),
            trace_tree.wf(),
        ensures
            r matches Err(e) ==> is_data_error(e),
            final(fs).fs_inv(),
            final(staging).wf(),
            r is Ok ==> exists|ws: Seq<String>|
                #[trigger] deletes_staged(
                    *old(fs),
                    trace_tree@,
                    old(staging)@,
                    final(staging)@,
                    *old(changed),
                    *final(changed),
                    ws,
                ),
            r is Ok ==> touches_only(*old(fs), *final(fs), fam_objects()),
            old(fs).fs_exact() && objects_open(*old(fs)) ==> r is Ok && final(fs).fs_exact() && objects_open(*final(fs)),
            r is Ok ==> forall|h: Seq<char>| names_stored(*old(fs), h) ==> #[trigger] names_stored(*final(fs), h),
            r is Ok ==> forall|q: Seq<char>|
                #[trigger] final(staging).lookup(q) != old(staging).lookup(q) ==> (final(staging).lookup(q) matches Some(h)
                    && names_stored(*final(fs), h)),
    {
        let ghost s0 = *fs;
        let ghost st0 = staging@;
        let ghost changed0 = *changed;
        let deleted = self.scan_deleted_files(fs, trace_tree)?;
        let ghost ws = choose|ws: Seq<String>| #[trigger] lists_workspace(s0, "."@, ws)
            && deleted@.map_values(|e: (FilePath, ObjHash)| entry_view(e)) == filt(trace_tree@, gone_only(strs_view(ws)));
        let ghost keep = gone_only(strs_view(ws));
        let ghost ov = deleted@.map_values(|e: (FilePath, ObjHash)| entry_view(e));
        proof {
            lemma_filt(trace_tree@, keep);
            assert(ov.take(0) =~= Seq::<(Seq<char>, Seq<char>)>::empty());
            assert forall|q: Seq<Seq<char>>| outside(q, fam_objects()) implies #[trigger] fs.fs_lookup(q) == s0.fs_lookup(q) by {}
        }
        let mut i: usize = 0;
        while i < deleted.len()
            invariant
                fs.fs_inv(),
                staging.wf(),
                i <= deleted@.len(),
                ov == deleted@.map_values(|e: (FilePath, ObjHash)| entry_view(e)),
                keys_distinct(ov),
                touches_only(s0, *fs, fam_objects()),
                s0.fs_exact() && objects_open(s0) ==> fs.fs_exact() && objects_open(*fs),
                *old(fs) == s0,
                forall|q: Seq<char>|
                    #[trigger] staging.lookup(q) == if seq_has(ov.take(i as int), q) {
                        Some(hash_of(delete_encoded(seq_lookup(ov, q).unwrap())))
                    } else {
                        seq_lookup(st0, q)
                    },
                *changed == (changed0 || i > 0),
                forall|h: Seq<char>| names_stored(s0, h) ==> #[trigger] names_stored(*fs, h),
                forall|q: Seq<char>|
                    #[trigger] staging.lookup(q) != seq_lookup(st0, q) ==> (staging.lookup(q) matches Some(h) && names_stored(*fs, h)),
            decreases deleted@.len() - i,
        {
            let ghost fs_prev = *fs;
            let ghost stg_prev = staging@;
            *changed = true;
            let delete_obj = DeleteObj(deleted[i].1.copy());
            let delete_meta = delete_obj.as_meta()?;
            ObjIo::new().write_obj(fs, &delete_obj)?;
            proof {
                assert(crate::object::obj_encoded(ObjView::Delete(delete_obj@)) == delete_obj.encoded());
                assert forall|h: Seq<char>| names_stored(fs_prev, h) implies #[trigger] names_stored(*fs, h) by {
                    lemma_names_stored_after_write(fs_prev, *fs, ObjView::Delete(delete_obj@), h);
                }
                lemma_names_stored_after_write(fs_prev, *fs, ObjView::Delete(delete_obj@), delete_meta.hash.0@);
            }
            let ghost ki = ov[i as int].0;
            proof {
                lemma_lookup_index(ov, i as int);
                assert(ov.take(i + 1) =~= ov.take(i as int).push(ov[i as int]));
            }
            staging.insert(FilePath(deleted[i].0.0.clone()), delete_meta.hash);
            proof {
                assert forall|q: Seq<char>| #[trigger] staging.lookup(q) == if seq_has(ov.take(i + 1), q) {
                    Some(hash_of(delete_encoded(seq_lookup(ov, q).unwrap())))
                } else {
                    seq_lookup(st0, q)
                } by {
                    let pre = ov.take(i as int);
                    let post = ov.take(i + 1);
                    if seq_has(post, q) {
                        let j = choose|j: int| 0 <= j < post.len() && #[trigger] post[j].0 == q;
                        if j < i {
                            assert(pre[j].0 == q);
                        }
                    }
                    if seq_has(pre, q) {
                        let j = choose|j: int| 0 <= j < pre.len() && #[trigger] pre[j].0 == q;
                        assert(post[j].0 == q);
                    }
                    if q == ki {
                        assert(post[i as int].0 == q);
                    }
                }
                assert forall|q: Seq<Seq<char>>| outside(q, fam_objects()) implies #[trigger] fs.fs_lookup(q)
                    == s0.fs_lookup(q) by {
                    assert(fs_prev.fs_lookup(q) == s0.fs_lookup(q));
                }
                assert forall|q: Seq<char>| #[trigger] staging.lookup(q) != seq_lookup(st0, q) implies (staging.lookup(q) matches Some(h)
                    && names_stored(*fs, h)) by {
                    if q != ki {
                        assert(staging.lookup(q) == seq_lookup(stg_prev, q));
                    }
                }
            }
            i = i + 1;
        }
        proof {
            assert(ov.take(ov.len() as int) =~= ov);
            assert(ov == filt(trace_tree@, keep));
            assert forall|q: Seq<char>| #[trigger] seq_lookup(staging@, q) == if file_gone(trace_tree@, strs_view(ws), q) {
                Some(hash_of(delete_encoded(seq_lookup(trace_tree@, q).unwrap())))
            } else {
                seq_lookup(st0, q)
            } by {
                assert(staging.lookup(q) == seq_lookup(staging@, q));
                lemma_as_map(ov, q);
                lemma_as_map(trace_tree@, q);
                assert(seq_lookup(ov, q) == match seq_lookup(trace_tree@, q) {
                    Some(v) => if keep(q, v) {
                        Some(v)
                    } else {
                        None
                    },
                    None => None,
                });
            }
            if exists|q: Seq<char>| #[trigger] file_gone(trace_tree@, strs_view(ws), q) {
                let q = choose|q: Seq<char>| #[trigger] file_gone(trace_tree@, strs_view(ws), q);
                lemma_as_map(ov, q);
                lemma_as_map(trace_tree@, q);
                assert(seq_lookup(ov, q) is Some);
                assert(ov.len() > 0);
            }
            if ov.len() > 0 {
                lemma_lookup_index(ov, 0);
                let q = ov[0].0;
                lemma_as_map(ov, q);
                lemma_as_map(trace_tree@, q);
                assert(file_gone(trace_tree@, strs_view(ws), q));
            }
            assert(deletes_staged(s0, trace_tree@, st0, staging@, changed0, *changed, ws));
        }
        Ok(())
    }

    /// The traced files that are not among the workspace files.
    fn scan_deleted_files<Fs: FileSystem>(&self, fs: &Fs, trace_tree: &TreeObj) -> (r: Result<Vec<(FilePath, ObjHash)>>)
        requires
            fs.fs_inv(),
        ensures
            r matches Err(e) ==> is_data_error(e),
            r matches Ok(v) ==> exists|ws: Seq<String>|
                #[trigger] lists_workspace(*fs, "."@, ws) && v@.map_values(|e: (FilePath, ObjHash)| entry_view(e))
                    == filt(trace_tree@, gone_only(strs_view(ws))),
            fs.fs_exact() ==> r is Ok,
    {
        let work_space_files = WorkspaceIo::new().files(fs, ".")?;
        let ghost ws = work_space_files@;
        let ghost keep = gone_only(strs_view(ws));
        let mut out: Vec<(FilePath, ObjHash)> = Vec::new();
        let mut i: usize = 0;
        proof {
            reveal_strlit(".");
            assert(trace_tree@.take(0) =~= Seq::<(Seq<char>, Seq<char>)>::empty());
            assert(out@.map_values(|e: (FilePath, ObjHash)| entry_view(e)) =~= Seq::<(Seq<char>, Seq<char>)>::empty());
        }
        while i < trace_tree.0.len()
            invariant
                i <= trace_tree@.len(),
                trace_tree@.len() == trace_tree.0@.len(),
                work_space_files@ == ws,
                keep == gone_only(strs_view(ws)),
                out@.map_values(|e: (FilePath, ObjHash)| entry_view(e)) == filt(trace_tree@.take(i as int), keep),
            decreases trace_tree@.len() - i,
        {
            let path = trace_tree.0[i].0.0.as_str();
            let mut found = false;
            let mut k: usize = 0;
            while k < work_space_files.len()
                invariant
                    k <= work_space_files@.len(),
                    i < trace_tree@.len(),
                    work_space_files@ == ws,
                    path@ == trace_tree@[i as int].0,
                    found == strs_view(ws).take(k as int).contains(path@),
                decreases work_space_files@.len() - k,
            {
                proof {
                    lemma_contains_push(strs_view(ws).take(k as int), ws[k as int]@, path@);
                    assert(strs_view(ws).take(k + 1) =~= strs_view(ws).take(k as int).push(ws[k as int]@));
                }
                if str_eq(work_space_files[k].as_str(), path) {
                    found = true;
                }
                k = k + 1;
            }
            proof {
                assert(strs_view(ws).take(k as int) =~= strs_view(ws));
                assert(trace_tree@.take(i + 1).drop_last() =~= trace_tree@.take(i as int));
                assert(trace_tree@.take(i + 1).last() == trace_tree@[i as int]);
            }
            if !found {
                out.push((FilePath(trace_tree.0[i].0.0.clone()), trace_tree.0[i].1.copy()));
                proof {
                    assert(out@.map_values(|e: (FilePath, ObjHash)| entry_view(e)) =~= filt(
                        trace_tree@.take(i as int),
                        keep,
                    ).push(trace_tree@[i as int]));
                }
            } else {
                assert(!keep(trace_tree@[i as int].0, trace_tree@[i as int].1));
                assert(filt(trace_tree@.take(i + 1), keep) == filt(trace_tree@.take(i as int), keep));
            }
            i = i + 1;
        }
        proof {
            assert(trace_tree@.take(trace_tree@.len() as int) =~= trace_tree@);
            assert(lists_workspace(*fs, "."@, ws));
            assert(out@.map_values(|e: (FilePath, ObjHash)| entry_view(e)) == filt(trace_tree@, gone_only(strs_view(ws))));
        }
        Ok(out)
    }
}

} // verus!
