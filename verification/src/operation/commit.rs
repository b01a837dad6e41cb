//! Committing the staging tree.

use vstd::prelude::*;

use crate::assoc::seq_lookup;
use crate::branch::BranchName;
use crate::compression::gz_encoded;
use crate::error::{Error, Result, is_data_error};
use crate::file_system::{FileSystem, FsNode, files_of, lemma_write_keeps_allowed, write_allowed};
use crate::io::atomic::head::{CommitText, HeadIo, head_of, head_path, lemma_head_read_after_write};
use crate::io::atomic::local_commits::{LocalCommitsIo, local_commits_path, prior_local_commits};
use crate::io::atomic::object::{ObjIo, lemma_obj_after_write, obj_in, obj_path, stored_obj};
use crate::io::atomic::staging::{StagingIo, staged_tree, staging_path};
use crate::io::atomic::trace::{trace_path, trace_tree_of};
use crate::io::commit_obj::CommitObjIo;
use crate::io::layout::{
    fam_branches, fam_heads, fam_objects, fam_stage, fam_traces, lemma_fams_apart, lemma_head_path, lemma_kept,
    lemma_local_commits_path, lemma_obj_path, lemma_outside_fam, lemma_staging_path, lemma_trace_path, objects_open, touches_only2,
    traces_open,
};
use crate::io::trace_tree::TraceTreeIo;
use crate::object::commit::{CommitHash, CommitObj, CommitView, commit_encoded};
use crate::object::{Encodable, ObjMeta, ObjView, hash_of, is_hex};
use crate::object::local_commits::local_commits_encoded;
use crate::object::tree::{TreeObj, tree_encoded};
use crate::path::{has_prefix, segs};
use vstd::utf8::encode_utf8;

verus! {

/// The parents of a new commit on a branch with the given head.
pub open spec fn parents_on(head: Option<Seq<char>>) -> Seq<Seq<char>> {
    match head {
        Some(h) => seq![h],
        None => Seq::empty(),
    }
}

/// The hash of the commit that committing the staging tree of `fs` on
/// branch `b` with message `text` makes.
pub open spec fn next_commit_hash<Fs: FileSystem>(fs: Fs, b: Seq<char>, text: Seq<char>, es: Seq<(Seq<char>, Seq<char>)>) -> Seq<char> {
    hash_of(commit_encoded(CommitView { parents: parents_on(head_of(fs, b)), text, tree: hash_of(tree_encoded(es)) }))
}

/// The trace tree that a commit on branch `b` of the staged entries `es`
/// lays them over: the trace tree of the branch's head, or an empty one where
/// it cannot be read. (Where storing `es` replaced the object that the head's
/// trace names, that object is `es` itself.)
pub open spec fn prior_trace<Fs: FileSystem>(
    before: Fs,
    b: Seq<char>,
    es: Seq<(Seq<char>, Seq<char>)>,
    prior: Seq<(Seq<char>, Seq<char>)>,
) -> bool {
    ||| prior.len() == 0
    ||| prior == es
    ||| head_of(before, b) matches Some(h0) && trace_tree_of(before, h0) == Some(prior)
}

/// On exact storage, where the trace of the head of `b` names a tree object
/// by a hexadecimal hash other than the new commit's `h`, and that tree can
/// be read, the commit lays the staged entries `es` over exactly that tree
/// (or over `es` itself, where storing `es` took the place of that object).
pub open spec fn prior_kept<Fs: FileSystem>(
    before: Fs,
    b: Seq<char>,
    es: Seq<(Seq<char>, Seq<char>)>,
    h: Seq<char>,
    prior: Seq<(Seq<char>, Seq<char>)>,
) -> bool {
    (before.fs_exact() && head_of(before, b) is Some && trace_names_other(before, head_of(before, b)->Some_0, h)
        && trace_tree_of(before, head_of(before, b)->Some_0) is Some) ==> (Some(prior) == trace_tree_of(
        before,
        head_of(before, b)->Some_0,
    ) || (prior == es && crate::io::text_at(before.fs_lookup(segs(trace_path(head_of(before, b)->Some_0)))) == Some(
        hash_of(tree_encoded(es)),
    )))
}

/// A commit keeps, in the trace of the new commit, every path that the
/// trace of the former head records and that nothing staged replaces: on
/// exact storage, where that trace names a tree by a hexadecimal hash other
/// than the new commit's and the staged tree's.
pub proof fn lemma_commit_keeps_traced<Fs: FileSystem>(
    before: Fs,
    after: Fs,
    b: Seq<char>,
    text: Seq<char>,
    h: Seq<char>,
    q: Seq<char>,
)
    requires
        committed(before, after, b, text, h),
        before.fs_exact(),
        head_of(before, b) is Some,
        trace_names_other(before, head_of(before, b)->Some_0, h),
        trace_tree_of(before, head_of(before, b)->Some_0) is Some,
        crate::io::text_at(before.fs_lookup(segs(trace_path(head_of(before, b)->Some_0)))) != Some(
            hash_of(tree_encoded(staged_tree(before)->Some_0)),
        ),
        seq_lookup(staged_tree(before)->Some_0, q) is None,
    ensures
        trace_tree_of(after, h) is Some,
        seq_lookup(trace_tree_of(after, h)->Some_0, q) == seq_lookup(trace_tree_of(before, head_of(before, b)->Some_0)->Some_0, q),
{
    let es = staged_tree(before)->Some_0;
    let prior = choose|prior: Seq<(Seq<char>, Seq<char>)>|
        #[trigger] prior_trace(before, b, es, prior) && prior_kept(before, b, es, h, prior) && (trace_tree_of(after, h) matches Some(t)
            && forall|q: Seq<char>|
            #[trigger] seq_lookup(t, q) == match seq_lookup(es, q) {
                Some(x) => Some(x),
                None => seq_lookup(prior, q),
            });
    assert(prior_kept(before, b, es, h, prior));
    let t = trace_tree_of(after, h)->Some_0;
    assert(seq_lookup(t, q) == seq_lookup(prior, q));
}

/// The trace of commit `c` names a hexadecimal hash other than `h`.
pub open spec fn trace_names_other<Fs: FileSystem>(fs: Fs, c: Seq<char>, h: Seq<char>) -> bool {
    crate::io::text_at(fs.fs_lookup(segs(trace_path(c)))) matches Some(th) && is_hex(th) && th != h
}

/// Committing the staging tree of `before` on branch `b` with message
/// `text` made the commit `h` and led to `after`: `h` is the hash of the
/// commit of the staged tree whose parent is the branch's former head, the
/// trace of `h` lays the staged entries over the prior trace tree, the head now names `h`, the
/// staging tree is empty, `h` is the newest local commit of the branch, and
/// the commit is stored under `h` (unless `h` is also the hash of its own
/// trace tree, whose object then takes that place).
pub open spec fn committed<Fs: FileSystem>(before: Fs, after: Fs, b: Seq<char>, text: Seq<char>, h: Seq<char>) -> bool {
    &&& staged_tree(before) matches Some(es)
    &&& h == next_commit_hash(before, b, text, es)
    &&& exists|prior: Seq<(Seq<char>, Seq<char>)>|
        #[trigger] prior_trace(before, b, es, prior) && prior_kept(before, b, es, h, prior) && (trace_tree_of(after, h) matches Some(t) && forall|q: Seq<char>|
            #[trigger] seq_lookup(t, q) == match seq_lookup(es, q) {
                Some(x) => Some(x),
                None => seq_lookup(prior, q),
            })
    &&& head_of(after, b) == Some(h)
    &&& after.fs_lookup(segs(staging_path())) == Some(FsNode::File(tree_encoded(Seq::empty())))
    &&& prior_local_commits(before.fs_lookup(segs(local_commits_path(b)))) matches Some(prev)
        && after.fs_lookup(segs(local_commits_path(b))) == Some(FsNode::File(local_commits_encoded(prev.push(h))))
    &&& stored_obj(after, h) == Some(
        ObjView::Commit(CommitView { parents: parents_on(head_of(before, b)), text, tree: hash_of(tree_encoded(es)) }),
    ) || crate::io::text_at(after.fs_lookup(segs(trace_path(h)))) == Some(h)
}

/// The trace of commit `c` in `after` records the entries of `staged` over
/// those of `prior`, which is empty or the trace tree of `pre_head` in
/// `before`.
pub open spec fn traced_over<Fs: FileSystem>(
    before: Fs,
    after: Fs,
    c: Seq<char>,
    staged: Seq<(Seq<char>, Seq<char>)>,
    pre_head: Option<CommitHash>,
    prior: Seq<(Seq<char>, Seq<char>)>,
) -> bool {
    &&& prior.len() == 0 || (pre_head matches Some(h0) && trace_tree_of(before, h0.0.0@) == Some(prior))
    &&& before.fs_exact() && (pre_head matches Some(h0) && trace_tree_of(before, h0.0.0@) is Some) ==> trace_tree_of(
        before,
        pre_head->Some_0.0.0@,
    ) == Some(prior)
    &&& trace_tree_of(after, c) matches Some(t) && forall|q: Seq<char>|
        #[trigger] seq_lookup(t, q) == match seq_lookup(staged, q) {
            Some(x) => Some(x),
            None => seq_lookup(prior, q),
        }
}

/// The first commit of a branch: no parents, the text `Initial Commit` and
/// the empty tree.
pub open spec fn null_commit_view() -> CommitView {
    CommitView { parents: Seq::empty(), text: "Initial Commit"@, tree: hash_of(tree_encoded(Seq::empty())) }
}

/// A commit on branch `b` is owed success: the storage answers exactly, no
/// file stands where the repository's objects, traces, head file and local
/// commits file of `b` belong, a staging tree is stored and decodes, the head
/// of `b` (if any) is text, and the local commits of `b` (if any) decode.
pub open spec fn commit_owed<Fs: FileSystem>(fs: Fs, b: Seq<char>) -> bool {
    &&& fs.fs_exact()
    &&& objects_open(fs)
    &&& traces_open(fs)
    &&& staged_tree(fs) is Some
    &&& fs.fs_lookup(segs(head_path(b))) is None || head_of(fs, b) is Some
    &&& prior_local_commits(fs.fs_lookup(segs(local_commits_path(b)))) is Some
    &&& write_allowed(files_of(fs), segs(head_path(b)))
    &&& write_allowed(files_of(fs), segs(local_commits_path(b)))
}

/// The first commit of branch `b` is owed success: the storage answers
/// exactly, no file stands where the repository's objects, traces, head file
/// and local commits file of `b` belong, and the local commits of `b` (if
/// any) decode.
pub open spec fn null_commit_owed<Fs: FileSystem>(fs: Fs, b: Seq<char>) -> bool {
    &&& fs.fs_exact()
    &&& objects_open(fs)
    &&& traces_open(fs)
    &&& prior_local_commits(fs.fs_lookup(segs(local_commits_path(b)))) is Some
    &&& write_allowed(files_of(fs), segs(head_path(b)))
    &&& write_allowed(files_of(fs), segs(local_commits_path(b)))
}

/// Commits staged changes.
pub struct Commit;

impl Commit {
    pub fn new() -> (r: Commit) {
        Commit
    }

    /// Commits the staging tree on a branch: stores the tree and a commit
    /// whose parent is the branch's head, records the commit as a local
    /// commit and in the trace, empties the staging tree and moves the head
    /// to the commit. Fails where nothing is staged.
    pub fn execute<Fs: FileSystem>(&self, fs: &mut Fs, branch_name: &BranchName, commit_text: &str) -> (r: Result<CommitHash>)
        requires
            old(fs).fs_inv(),
        ensures
            final(fs).fs_inv(),
            r matches Ok(h) ==> committed(*old(fs), *final(fs), branch_name.0@, commit_text@, h.0.0@),
            old(fs).fs_lookup(segs(staging_path())) is None ==> r is Err,
            old(fs).fs_exact() && old(fs).fs_lookup(segs(staging_path())) is None ==> r == Err::<CommitHash, Error>(
                Error::NotfoundStages,
            ),
            r matches Err(e) ==> is_data_error(e) || (e is NotfoundStages && old(fs).fs_lookup(
                segs(staging_path()),
            ) is None),
            commit_owed(*old(fs), branch_name.0@) ==> r is Ok,
    {
        let ghost s0 = *fs;
        let ghost sp = segs(staging_path());
        let ghost lp = segs(local_commits_path(branch_name.0@));
        let ghost hp = segs(head_path(branch_name.0@));
        proof {
            lemma_fams_apart();
            lemma_staging_path();
            lemma_local_commits_path(branch_name.0@);
            lemma_head_path(branch_name.0@);
        }
        let staging = StagingIo::new();
        let stage_tree = match staging.read(fs)? {
            Some(t) => t,
            None => return Err(Error::NotfoundStages),
        };
        staging.reset(fs)?;
        let ghost s1 = *fs;
        proof {
            crate::io::layout::lemma_not_above(sp, hp, fam_stage(), fam_heads());
            crate::io::layout::lemma_not_above(sp, lp, fam_stage(), fam_branches());
            if commit_owed(s0, branch_name.0@) {
                lemma_write_keeps_allowed(s0, s1, hp, sp, tree_encoded(Seq::empty()));
                lemma_write_keeps_allowed(s0, s1, lp, sp, tree_encoded(Seq::empty()));
                crate::io::layout::lemma_open_kept(s0, s1, sp, tree_encoded(Seq::empty()));
            }
        }
        let stage_meta = stage_tree.as_meta()?;
        ObjIo::new().write_obj(fs, &stage_tree)?;
        let ghost s2 = *fs;
        proof {
            let wo = segs(obj_path(hash_of(stage_tree.encoded())));
            lemma_obj_path(hash_of(stage_tree.encoded()));
            crate::io::layout::lemma_obj_path_hex(hash_of(stage_tree.encoded()));
            crate::io::layout::lemma_not_above(wo, hp, fam_objects(), fam_heads());
            crate::io::layout::lemma_not_above(wo, lp, fam_objects(), fam_branches());
            if commit_owed(s0, branch_name.0@) {
                lemma_write_keeps_allowed(s1, s2, hp, wo, gz_encoded(stage_tree.encoded()));
                lemma_write_keeps_allowed(s1, s2, lp, wo, gz_encoded(stage_tree.encoded()));
                assert(wo.len() == 3);
                crate::io::layout::lemma_open_kept(s1, s2, wo, gz_encoded(stage_tree.encoded()));
            }
        }
        proof {
            lemma_kept(s0, s1, fam_stage(), lp, fam_branches());
            lemma_kept(s1, s2, fam_objects(), lp, fam_branches());
            lemma_kept(s0, s1, fam_stage(), hp, fam_heads());
            lemma_kept(s1, s2, fam_objects(), hp, fam_heads());
            lemma_kept(s1, s2, fam_objects(), sp, fam_stage());
        }
        let text = CommitText(commit_text.to_owned());
        let commit = CommitObjIo::new().create(fs, text, stage_meta.hash, branch_name)?;
        proof {
            if commit@.parents.len() == 0 {
                assert(commit@.parents =~= parents_on(head_of(s0, branch_name.0@)));
            } else {
                assert(commit@.parents =~= parents_on(head_of(s0, branch_name.0@)));
            }
        }
        let head = HeadIo::new();
        let pre_head = head.read(fs, branch_name)?;
        let head_commit_hash = self.commit(fs, branch_name, commit)?;
        let ghost s5 = *fs;
        self.update_trace(fs, stage_tree, &head_commit_hash, &pre_head)?;
        let ghost s6 = *fs;
        proof {
            lemma_outside_fam(sp, fam_stage(), fam_objects());
            lemma_outside_fam(sp, fam_stage(), fam_traces());
            lemma_outside_fam(lp, fam_branches(), fam_objects());
            lemma_outside_fam(lp, fam_branches(), fam_traces());
            assert(s6.fs_lookup(sp) == s5.fs_lookup(sp));
            assert(s6.fs_lookup(lp) == s5.fs_lookup(lp));
        }
        head.write(fs, branch_name, &head_commit_hash)?;
        proof {
            lemma_head_read_after_write(s6, *fs, head_path(branch_name.0@), head_commit_hash.0.0@);
            lemma_kept(s6, *fs, fam_heads(), sp, fam_stage());
            lemma_kept(s6, *fs, fam_heads(), lp, fam_branches());
            let c = head_commit_hash.0.0@;
            let prior = choose|prior: Seq<(Seq<char>, Seq<char>)>|
                #[trigger] traced_over(s5, s6, c, stage_tree@, pre_head, prior);
            lemma_trace_path(c);
            lemma_kept(s6, *fs, fam_heads(), segs(trace_path(c)), fam_traces());
            let th = crate::io::text_at(s6.fs_lookup(segs(trace_path(c)))).unwrap();
            lemma_obj_path(th);
            lemma_kept(s6, *fs, fam_heads(), segs(obj_path(th)), fam_objects());
            assert(trace_tree_of(*fs, c) == trace_tree_of(s6, c));
            let es0 = stage_tree@;
            if prior.len() != 0 {
                let h0 = pre_head->Some_0.0.0@;
                assert(head_of(s2, branch_name.0@) == Some(h0));
                lemma_trace_path(h0);
                let tp0 = segs(trace_path(h0));
                lemma_kept(s0, s1, fam_stage(), tp0, fam_traces());
                lemma_kept(s1, s2, fam_objects(), tp0, fam_traces());
                assert(s5.fs_lookup(tp0) == s2.fs_lookup(tp0));
                let big_h = crate::io::text_at(s0.fs_lookup(tp0)).unwrap();
                assert(stored_obj(s5, big_h) == Some(ObjView::Tree(prior)));
                assert(stored_obj(s2, big_h) == Some(ObjView::Tree(prior)));
                lemma_obj_after_write(s1, s2, hash_of(tree_encoded(es0)), gz_encoded(tree_encoded(es0)), big_h);
                lemma_obj_path(big_h);
                lemma_kept(s0, s1, fam_stage(), segs(obj_path(big_h)), fam_objects());
                if stored_obj(s2, big_h) == obj_in(Some(FsNode::File(gz_encoded(tree_encoded(es0))))) {
                    assert(stage_meta.buf@.len() == stage_meta.buf.len());
                    let fields = crate::encode::utf8_fields(crate::object::tree::flat(es0));
                    assert(tree_encoded(es0) == crate::object::tree::tree_tag() + crate::encode::frame(fields));
                    crate::encode::lemma_frame_fits(fields);
                    crate::object::lemma_obj_roundtrip(ObjView::Tree(es0));
                    assert(prior == es0);
                }
            }
            if s0.fs_exact() && head_of(s0, branch_name.0@) is Some && trace_names_other(s0, head_of(s0, branch_name.0@)->Some_0, c)
                && trace_tree_of(s0, head_of(s0, branch_name.0@)->Some_0) is Some {
                let h0 = head_of(s0, branch_name.0@)->Some_0;
                let tp0 = segs(trace_path(h0));
                lemma_trace_path(h0);
                lemma_kept(s0, s1, fam_stage(), hp, fam_heads());
                lemma_kept(s1, s2, fam_objects(), hp, fam_heads());
                assert(head_of(s2, branch_name.0@) == Some(h0));
                assert(pre_head->Some_0.0.0@ == h0);
                lemma_kept(s0, s1, fam_stage(), tp0, fam_traces());
                lemma_kept(s1, s2, fam_objects(), tp0, fam_traces());
                assert(s5.fs_lookup(tp0) == s2.fs_lookup(tp0));
                let th = crate::io::text_at(s0.fs_lookup(tp0))->Some_0;
                lemma_obj_path(th);
                lemma_kept(s0, s1, fam_stage(), segs(obj_path(th)), fam_objects());
                let hz = hash_of(tree_encoded(es0));
                if th != hz {
                    crate::io::atomic::object::lemma_obj_kept_hex(s1, s2, hz, gz_encoded(tree_encoded(es0)), th);
                    assert(stored_obj(s2, th) == stored_obj(s0, th));
                    assert(trace_tree_of(s5, h0) == trace_tree_of(s0, h0));
                } else {
                    assert(stage_meta.buf@.len() == stage_meta.buf.len());
                    let fields = crate::encode::utf8_fields(crate::object::tree::flat(es0));
                    assert(tree_encoded(es0) == crate::object::tree::tree_tag() + crate::encode::frame(fields));
                    crate::encode::lemma_frame_fits(fields);
                    assert(crate::object::obj_encoded(ObjView::Tree(es0)) == tree_encoded(es0));
                    crate::io::atomic::object::lemma_obj_read_after_write(s1, s2, ObjView::Tree(es0));
                }
                assert(stored_obj(s5, th) == stored_obj(s2, th));
                assert(trace_tree_of(s5, h0) is Some);
                assert(trace_tree_of(s5, h0) == Some(prior));
                assert(prior_kept(s0, branch_name.0@, es0, c, prior));
            }
            assert(prior_kept(s0, branch_name.0@, es0, c, prior));
            assert(prior_trace(s0, branch_name.0@, es0, prior));
            assert(staged_tree(s0) == Some(es0));
            assert(c == next_commit_hash(s0, branch_name.0@, commit_text@, es0));
            assert(head_of(*fs, branch_name.0@) == Some(c));
            lemma_trace_path(c);
            lemma_obj_path(c);
            lemma_kept(s6, *fs, fam_heads(), segs(obj_path(c)), fam_objects());
            assert(stored_obj(*fs, c) == stored_obj(s6, c));
            assert(crate::io::text_at(fs.fs_lookup(segs(trace_path(c)))) == crate::io::text_at(s6.fs_lookup(segs(trace_path(c)))));
            assert(committed(s0, *fs, branch_name.0@, commit_text@, c));
        }
        Ok(head_commit_hash)
    }

    /// Makes the first commit of a branch, of an empty tree: stores it,
    /// records it as a local commit and in the trace, empties the staging
    /// tree and moves the head to it.
    pub fn execute_null_commit<Fs: FileSystem>(&self, fs: &mut Fs, branch_name: &BranchName) -> (r: Result<CommitHash>)
        requires
            old(fs).fs_inv(),
        ensures
            r matches Err(e) ==> is_data_error(e),
            final(fs).fs_inv(),
            r matches Ok(h) ==> head_of(*final(fs), branch_name.0@) == Some(h.0.0@),
            r matches Ok(h) ==> h.0.0@ == hash_of(commit_encoded(null_commit_view())),
            r is Ok ==> final(fs).fs_lookup(segs(staging_path())) == Some(FsNode::File(tree_encoded(Seq::empty()))),
            r matches Ok(h) ==> (prior_local_commits(old(fs).fs_lookup(segs(local_commits_path(branch_name.0@))))
                matches Some(prev) && final(fs).fs_lookup(segs(local_commits_path(branch_name.0@))) == Some(
                FsNode::File(local_commits_encoded(prev.push(h.0.0@))),
            )),
            null_commit_owed(*old(fs), branch_name.0@) ==> r is Ok,
    {
        let ghost owed = null_commit_owed(*fs, branch_name.0@);
        let ghost lp = segs(local_commits_path(branch_name.0@));
        let ghost sp = segs(staging_path());
        let ghost hp = segs(head_path(branch_name.0@));
        proof {
            lemma_head_path(branch_name.0@);
        }
        proof {
            lemma_fams_apart();
            lemma_staging_path();
            lemma_local_commits_path(branch_name.0@);
        }
        let null_staging = TreeObj::new();
        let null_staging_meta = null_staging.as_meta()?;
        let null_commit = self.create_null_commit(null_staging_meta);
        let null_meta = null_commit.as_meta()?;
        let head = HeadIo::new();
        let ghost t0 = *fs;
        head.write(fs, branch_name, &CommitHash(null_meta.hash))?;
        let ghost t1 = *fs;
        proof {
            lemma_kept(t0, t1, fam_heads(), lp, fam_branches());
            if owed {
                crate::io::layout::lemma_not_above(hp, lp, fam_heads(), fam_branches());
                lemma_write_keeps_allowed(t0, t1, lp, hp, encode_utf8(null_meta.hash.0@));
                lemma_write_keeps_allowed(t0, t1, hp, hp, encode_utf8(null_meta.hash.0@));
                assert(hp.len() >= 3);
                assert(has_prefix(fam_traces(), fam_traces())) by {
                    assert(fam_traces().subrange(0, 2) =~= fam_traces());
                }
                crate::io::layout::lemma_not_above(hp, fam_traces(), fam_heads(), fam_traces());
                crate::io::layout::lemma_open_kept(t0, t1, hp, encode_utf8(null_meta.hash.0@));
            }
            assert(null_staging@ =~= Seq::<(Seq<char>, Seq<char>)>::empty());
            assert(null_commit@.parents =~= Seq::<Seq<char>>::empty());
            assert(null_commit@.tree == hash_of(tree_encoded(Seq::empty())));
            assert(null_commit@ == null_commit_view());
        }
        let commit_hash = self.commit(fs, branch_name, null_commit)?;
        let ghost t2 = *fs;
        let none: Option<CommitHash> = None;
        self.update_trace(fs, null_staging, &commit_hash, &none)?;
        let ghost t3 = *fs;
        proof {
            lemma_outside_fam(lp, fam_branches(), fam_objects());
            lemma_outside_fam(lp, fam_branches(), fam_traces());
            assert(t3.fs_lookup(lp) == t2.fs_lookup(lp));
        }
        proof {
            if owed {
                lemma_fams_apart();
            }
        }
        StagingIo::new().reset(fs)?;
        let ghost t4 = *fs;
        proof {
            lemma_kept(t3, t4, fam_stage(), lp, fam_branches());
            if owed {
                crate::io::layout::lemma_not_above(sp, hp, fam_stage(), fam_heads());
                lemma_write_keeps_allowed(t3, t4, hp, sp, tree_encoded(Seq::empty()));
            }
        }
        head.write(fs, branch_name, &commit_hash)?;
        proof {
            lemma_head_read_after_write(t4, *fs, head_path(branch_name.0@), commit_hash.0.0@);
            lemma_kept(t4, *fs, fam_heads(), sp, fam_stage());
            lemma_kept(t4, *fs, fam_heads(), lp, fam_branches());
        }
        Ok(commit_hash)
    }

    /// The first commit of a branch: no parents, the text `Initial Commit`,
    /// and the given (empty) tree.
    pub fn create_null_commit(&self, null_staging: ObjMeta) -> (r: CommitObj)
        ensures
            r@.parents.len() == 0,
            r@.text == "Initial Commit"@,
            r@.tree == null_staging.hash.0@,
    {
        let r = CommitObj {
            parents: Vec::new(),
            text: CommitText("Initial Commit".to_owned()),
            committed_objs_tree: null_staging.hash,
        };
        assert(r@.parents =~= Seq::<Seq<char>>::empty());
        r
    }

    fn update_trace<Fs: FileSystem>(&self, fs: &mut Fs, staging_tree: TreeObj, commit_hash: &CommitHash, pre_head: &Option<CommitHash>) -> (r: Result<()>)
        requires
            old(fs).fs_inv(),
            staging_tree.wf(),
        ensures
            r matches Err(e) ==> is_data_error(e),
            final(fs).fs_inv(),
            r is Ok ==> touches_only2(*old(fs), *final(fs), fam_objects(), fam_traces()),
            r is Ok ==> exists|prior: Seq<(Seq<char>, Seq<char>)>|
                #[trigger] traced_over(*old(fs), *final(fs), commit_hash.0.0@, staging_tree@, *pre_head, prior),
            old(fs).fs_exact() ==> final(fs).fs_exact(),
            old(fs).fs_exact() && objects_open(*old(fs)) && traces_open(*old(fs)) && is_hex(commit_hash.0.0@) ==> r is Ok,
            r is Ok ==> forall|p: Seq<Seq<char>>|
                has_prefix(p, fam_heads()) && write_allowed(files_of(*old(fs)), p) ==> #[trigger] write_allowed(
                    files_of(*final(fs)),
                    p,
                ),
            r is Ok ==> forall|x: Seq<char>|
                is_hex(x) && crate::io::text_at(final(fs).fs_lookup(segs(trace_path(commit_hash.0.0@)))) != Some(x)
                    ==> #[trigger] stored_obj(*final(fs), x) == stored_obj(*old(fs), x),
            r is Ok ==> (objects_open(*old(fs)) ==> objects_open(*final(fs))),
    {
        let ghost s0 = *fs;
        let trace_tree_io = TraceTreeIo::new();
        let mut trace_tree = match pre_head {
            Some(head) => match trace_tree_io.read(fs, head) {
                Ok(t) => t,
                Err(_) => {
                    let t = TreeObj::new();
                    assert(t@ =~= Seq::<(Seq<char>, Seq<char>)>::empty());
                    t
                },
            },
            None => {
                let t = TreeObj::new();
                assert(t@ =~= Seq::<(Seq<char>, Seq<char>)>::empty());
                t
            },
        };
        let ghost prior = trace_tree@;
        let ghost staged = staging_tree@;
        trace_tree.replace_by(staging_tree);
        proof {
            if fs.fs_exact() && objects_open(*fs) && traces_open(*fs) && is_hex(commit_hash.0.0@) {
                crate::io::layout::lemma_trace_write_allowed(*fs, commit_hash.0.0@);
            }
        }
        let r = trace_tree_io.write(fs, &trace_tree, commit_hash);
        proof {
            if r is Ok {
                assert forall|q: Seq<char>| #[trigger] seq_lookup(trace_tree@, q) == match seq_lookup(staged, q) {
                    Some(x) => Some(x),
                    None => seq_lookup(prior, q),
                } by {
                    assert(trace_tree.lookup(q) == seq_lookup(trace_tree@, q));
                }
                assert(traced_over(s0, *fs, commit_hash.0.0@, staged, *pre_head, prior));
            }
        }
        r
    }

    fn commit<Fs: FileSystem>(&self, fs: &mut Fs, branch_name: &BranchName, commit: CommitObj) -> (r: Result<CommitHash>)
        requires
            old(fs).fs_inv(),
        ensures
            r matches Err(e) ==> is_data_error(e),
            final(fs).fs_inv(),
            r matches Ok(h) ==> h.0.0@ == hash_of(commit.encoded()),
            r is Ok ==> final(fs).fs_lookup(segs(staging_path())) == old(fs).fs_lookup(segs(staging_path())),
            r matches Ok(h) ==> (prior_local_commits(old(fs).fs_lookup(segs(local_commits_path(branch_name.0@))))
                matches Some(prev) && final(fs).fs_lookup(segs(local_commits_path(branch_name.0@))) == Some(
                FsNode::File(local_commits_encoded(prev.push(h.0.0@))),
            )),
            r is Ok ==> forall|c: Seq<char>|
                #[trigger] final(fs).fs_lookup(segs(trace_path(c))) == old(fs).fs_lookup(segs(trace_path(c))),
            r is Ok ==> forall|x: Seq<char>|
                (#[trigger] stored_obj(*final(fs), x) matches Some(ObjView::Tree(_))) ==> stored_obj(*old(fs), x) == stored_obj(
                    *final(fs),
                    x,
                ),
            old(fs).fs_exact() ==> final(fs).fs_exact(),
            old(fs).fs_exact() && objects_open(*old(fs)) && write_allowed(files_of(*old(fs)), segs(head_path(branch_name.0@)))
                && write_allowed(files_of(*old(fs)), segs(local_commits_path(branch_name.0@))) && prior_local_commits(
                old(fs).fs_lookup(segs(local_commits_path(branch_name.0@))),
            ) is Some ==> r is Ok,
            r is Ok ==> (objects_open(*old(fs)) ==> objects_open(*final(fs))),
            r is Ok ==> (traces_open(*old(fs)) ==> traces_open(*final(fs))),
            r is Ok ==> (write_allowed(files_of(*old(fs)), segs(head_path(branch_name.0@))) ==> write_allowed(
                files_of(*final(fs)),
                segs(head_path(branch_name.0@)),
            )),
            r matches Ok(h) ==> is_hex(h.0.0@),
            r matches Ok(h) ==> stored_obj(*final(fs), h.0.0@) == Some(ObjView::Commit(commit@)),
            r matches Ok(h) ==> forall|x: Seq<char>|
                is_hex(x) && x != h.0.0@ ==> #[trigger] stored_obj(*final(fs), x) == stored_obj(*old(fs), x),
    {
        let ghost c0 = *fs;
        let ghost sp = segs(staging_path());
        let ghost lp = segs(local_commits_path(branch_name.0@));
        proof {
            lemma_fams_apart();
            lemma_staging_path();
            lemma_local_commits_path(branch_name.0@);
        }
        let commit_meta = commit.as_meta()?;
        ObjIo::new().write_obj(fs, &commit)?;
        let ghost c1 = *fs;
        let ghost hp = segs(head_path(branch_name.0@));
        let ghost wo = segs(obj_path(hash_of(commit.encoded())));
        proof {
            assert(commit_meta.buf@.len() == commit_meta.buf.len());
            crate::encode::lemma_frame_fits(crate::encode::utf8_fields(crate::object::commit::commit_strs(commit@)));
            assert(crate::object::obj_encoded(ObjView::Commit(commit@)) == commit.encoded());
            crate::io::atomic::object::lemma_obj_read_after_write(c0, c1, ObjView::Commit(commit@));
            lemma_head_path(branch_name.0@);
            lemma_obj_path(hash_of(commit.encoded()));
            crate::io::layout::lemma_obj_path_hex(hash_of(commit.encoded()));
            crate::io::layout::lemma_not_above(wo, hp, fam_objects(), fam_heads());
            crate::io::layout::lemma_not_above(wo, lp, fam_objects(), fam_branches());
            if write_allowed(files_of(c0), hp) {
                lemma_write_keeps_allowed(c0, c1, hp, wo, gz_encoded(commit.encoded()));
            }
            if write_allowed(files_of(c0), lp) {
                lemma_write_keeps_allowed(c0, c1, lp, wo, gz_encoded(commit.encoded()));
            }
            assert(wo.len() == 3);
            crate::io::layout::lemma_open_kept(c0, c1, wo, gz_encoded(commit.encoded()));
        }
        HeadIo::new().write(fs, branch_name, &CommitHash(commit_meta.hash.copy()))?;
        let ghost c2 = *fs;
        proof {
            crate::io::layout::lemma_not_above(hp, lp, fam_heads(), fam_branches());
            if write_allowed(files_of(c1), lp) {
                lemma_write_keeps_allowed(c1, c2, lp, hp, encode_utf8(commit_meta.hash.0@));
            }
            if write_allowed(files_of(c1), hp) {
                lemma_write_keeps_allowed(c1, c2, hp, hp, encode_utf8(commit_meta.hash.0@));
            }
            assert(hp.len() >= 3);
            assert(has_prefix(fam_traces(), fam_traces())) by {
                assert(fam_traces().subrange(0, 2) =~= fam_traces());
            }
            crate::io::layout::lemma_not_above(hp, fam_traces(), fam_heads(), fam_traces());
            crate::io::layout::lemma_open_kept(c1, c2, hp, encode_utf8(commit_meta.hash.0@));
            lemma_kept(c0, c1, fam_objects(), sp, fam_stage());
            lemma_kept(c1, c2, fam_heads(), sp, fam_stage());
            lemma_kept(c0, c1, fam_objects(), lp, fam_branches());
            lemma_kept(c1, c2, fam_heads(), lp, fam_branches());
        }
        LocalCommitsIo::new().append(fs, CommitHash(commit_meta.hash.copy()), branch_name)?;
        proof {
            let prev = prior_local_commits(c2.fs_lookup(lp))->Some_0;
            let lb = local_commits_encoded(prev.push(commit_meta.hash.0@));
            crate::io::layout::lemma_not_above(lp, hp, fam_branches(), fam_heads());
            if write_allowed(files_of(c2), hp) {
                lemma_write_keeps_allowed(c2, *fs, hp, lp, lb);
            }
            assert(has_prefix(fam_traces(), fam_traces())) by {
                assert(fam_traces().subrange(0, 2) =~= fam_traces());
            }
            assert(has_prefix(fam_objects(), fam_objects())) by {
                assert(fam_objects().subrange(0, 2) =~= fam_objects());
            }
            crate::io::layout::lemma_not_above(lp, fam_traces(), fam_branches(), fam_traces());
            crate::io::layout::lemma_not_above(lp, fam_objects(), fam_branches(), fam_objects());
            assert(lp.len() >= 2);
            crate::io::layout::lemma_open_kept(c2, *fs, lp, lb);
            lemma_kept(c2, *fs, fam_branches(), sp, fam_stage());
            assert forall|c: Seq<char>| #[trigger] fs.fs_lookup(segs(trace_path(c))) == c0.fs_lookup(segs(trace_path(c))) by {
                lemma_trace_path(c);
                lemma_kept(c0, c1, fam_objects(), segs(trace_path(c)), fam_traces());
                lemma_kept(c1, c2, fam_heads(), segs(trace_path(c)), fam_traces());
                lemma_kept(c2, *fs, fam_branches(), segs(trace_path(c)), fam_traces());
            }
            assert forall|x: Seq<char>| (#[trigger] stored_obj(*fs, x) matches Some(ObjView::Tree(_))) implies stored_obj(c0, x)
                == stored_obj(*fs, x) by {
                lemma_obj_path(x);
                lemma_kept(c1, c2, fam_heads(), segs(obj_path(x)), fam_objects());
                lemma_kept(c2, *fs, fam_branches(), segs(obj_path(x)), fam_objects());
                lemma_obj_after_write(c0, c1, hash_of(commit.encoded()), gz_encoded(commit.encoded()), x);
                assert(obj_in(Some(FsNode::File(gz_encoded(commit.encoded())))) == crate::object::obj_decoded(commit.encoded()));
                crate::object::lemma_commit_never_tree(commit@);
            }
            lemma_kept(c1, c2, fam_heads(), wo, fam_objects());
            lemma_kept(c2, *fs, fam_branches(), wo, fam_objects());
            assert forall|x: Seq<char>| is_hex(x) && x != hash_of(commit.encoded()) implies #[trigger] stored_obj(*fs, x)
                == stored_obj(c0, x) by {
                lemma_obj_path(x);
                lemma_kept(c1, c2, fam_heads(), segs(obj_path(x)), fam_objects());
                lemma_kept(c2, *fs, fam_branches(), segs(obj_path(x)), fam_objects());
                crate::io::atomic::object::lemma_obj_kept_hex(c0, c1, hash_of(commit.encoded()), gz_encoded(commit.encoded()), x);
            }
        }
        Ok(CommitHash(commit_meta.hash))
    }
}

} // verus!
