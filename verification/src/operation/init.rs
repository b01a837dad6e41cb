//! Initializing a repository.

use vstd::prelude::*;

use crate::branch::BranchName;
use crate::error::{Error, Result, is_data_error};
use crate::file_system::{FileSystem, after_create_dir, after_write, is_file};
use crate::file_system::{files_of, write_allowed};
use crate::io::atomic::head::head_path;
use crate::io::atomic::local_commits::local_commits_path;
use crate::io::layout::{
    fam_branches, fam_objects, fam_stage, fam_traces, fam_working, fam_workspace, lemma_head_path, lemma_local_commits_path, lemma_working_path,
    objects_open, outside, seg_meltos, seg_refs, touches_only2, traces_open,
};
use crate::path::{seg_valid, strs_view};
use crate::io::atomic::head::head_of;
use crate::io::atomic::work_branch::{WorkingIo, json_string_encoded, working_path};
use crate::io::layout::touches_only;
use crate::io::lift;
use crate::object::commit::{CommitHash, commit_encoded};
use crate::object::hash_of;
use crate::operation::commit::{Commit, committed, null_commit_view};
use crate::operation::stage::{Stage, staged_as};
use crate::path::{has_prefix, segs};

verus! {

/// `mid` is `before` with branch `b` recorded as the working branch and the
/// workspace directory made.
pub open spec fn init_entered<Fs: FileSystem>(before: Fs, mid: Fs, b: Seq<char>) -> bool {
    forall|q: Seq<Seq<char>>|
        #[trigger] mid.fs_lookup(q) == after_create_dir(
            after_write(before.fs_lookup(q), q, segs(working_path()), json_string_encoded(b)),
            q,
            segs("workspace"@),
        )
}

/// From `mid`, the workspace was staged and committed as `h` with the text
/// `INIT`, or, where staging failed, the empty first commit `h` was made.
pub open spec fn init_committed<Fs: FileSystem>(mid: Fs, after: Fs, b: Seq<char>, h: Seq<char>) -> bool {
    ||| exists|m2: Fs, names: Seq<String>, ws: Seq<String>, t: Seq<(Seq<char>, Seq<char>)>|
        #[trigger] staged_as(mid, m2, b, "."@, names, ws, t) && committed(m2, after, b, "INIT"@, h)
    ||| h == hash_of(commit_encoded(null_commit_view())) && head_of(after, b) == Some(h)
}

/// Nothing stands below `.meltos`: the repository was never set up here.
pub open spec fn fresh<Fs: FileSystem>(fs: Fs) -> bool {
    forall|q: Seq<Seq<char>>| has_prefix(q, seq![seg_meltos()]) ==> #[trigger] fs.fs_lookup(q) is None
}

/// A path below `.meltos` other than the working branch's file is still
/// empty after entering.
proof fn lemma_fresh_mid<Fs: FileSystem>(s0: Fs, mid: Fs, b: Seq<char>, q: Seq<Seq<char>>)
    requires
        fresh(s0),
        init_entered(s0, mid, b),
        has_prefix(q, seq![seg_meltos()]),
        q.len() >= 2,
        q[1] != fam_working()[1],
    ensures
        mid.fs_lookup(q) is None,
{
    lemma_working_path();
    let w = segs(working_path());
    assert(w[1] == fam_working()[1]) by {
        assert(w.subrange(0, 2)[1] == w[1]);
    }
    assert(q[0] == seg_meltos()) by {
        assert(q.subrange(0, 1)[0] == q[0]);
    }
    assert(!has_prefix(q, w)) by {
        if has_prefix(q, w) {
            assert(q.subrange(0, w.len() as int)[1] == q[1]);
        }
    }
    assert(!has_prefix(w, q)) by {
        if has_prefix(w, q) {
            assert(w.subrange(0, q.len() as int)[1] == w[1]);
        }
    }
    reveal_strlit("workspace");
    assert(seg_valid("workspace"@));
    crate::path::lemma_segs_one("workspace"@);
    assert(s0.fs_lookup(q) is None);
    assert(mid.fs_lookup(q) == after_create_dir(after_write(s0.fs_lookup(q), q, w, json_string_encoded(b)), q, segs("workspace"@)));
}

/// A path below `.meltos` whose second segment is none of `WORKING`,
/// `objects` and `stage` is still empty after entering and staging.
proof fn lemma_fresh_at<Fs: FileSystem>(s0: Fs, mid: Fs, m2: Fs, b: Seq<char>, q: Seq<Seq<char>>)
    requires
        fresh(s0),
        init_entered(s0, mid, b),
        touches_only2(mid, m2, fam_objects(), fam_stage()),
        has_prefix(q, seq![seg_meltos()]),
        q.len() >= 2,
        q[1] != fam_working()[1],
        q[1] != fam_objects()[1],
        q[1] != fam_stage()[1],
    ensures
        m2.fs_lookup(q) is None,
{
    lemma_fresh_mid(s0, mid, b, q);
    assert(outside(q, fam_objects())) by {
        if has_prefix(q, fam_objects()) {
            assert(q.subrange(0, 2)[1] == q[1]);
        }
        if has_prefix(fam_objects(), q) {
            assert(fam_objects().subrange(0, q.len() as int)[1] == fam_objects()[1]);
        }
    }
    assert(outside(q, fam_stage())) by {
        if has_prefix(q, fam_stage()) {
            assert(q.subrange(0, 2)[1] == q[1]);
        }
        if has_prefix(fam_stage(), q) {
            assert(fam_stage().subrange(0, q.len() as int)[1] == fam_stage()[1]);
        }
    }
}

/// After entering and staging, the places of the first commit on `b` are
/// open: no trace directory, head or local commits file, and no file above
/// the head or local commits file.
proof fn lemma_init_open<Fs: FileSystem>(s0: Fs, mid: Fs, m2: Fs, b: Seq<char>)
    requires
        fresh(s0),
        init_entered(s0, mid, b),
        touches_only2(mid, m2, fam_objects(), fam_stage()),
        objects_open(m2),
    ensures
        traces_open(m2),
        m2.fs_lookup(segs(head_path(b))) is None,
        m2.fs_lookup(segs(local_commits_path(b))) is None,
        write_allowed(files_of(m2), segs(head_path(b))),
        write_allowed(files_of(m2), segs(local_commits_path(b))),
{
    assert(has_prefix(fam_traces(), seq![seg_meltos()])) by {
        assert(fam_traces().subrange(0, 1) =~= seq![seg_meltos()]);
    }
    lemma_fresh_at(s0, mid, m2, b, fam_traces());
    lemma_head_path(b);
    lemma_local_commits_path(b);
    let hp = segs(head_path(b));
    let lp = segs(local_commits_path(b));
    assert(hp[0] == seg_meltos() && hp[1] == seg_refs()) by {
        assert(hp.subrange(0, 3)[0] == hp[0]);
        assert(hp.subrange(0, 3)[1] == hp[1]);
    }
    assert(lp[0] == fam_branches()[0] && lp[1] == fam_branches()[1]) by {
        assert(lp.subrange(0, 2)[0] == lp[0]);
        assert(lp.subrange(0, 2)[1] == lp[1]);
    }
    assert forall|k: int| 1 <= k <= hp.len() implies !is_file(#[trigger] m2.fs_lookup(hp.take(k))) by {
        if k == 1 {
            assert(hp.take(1) =~= seq![seg_meltos()]);
        } else {
            assert(hp.take(k).subrange(0, 1) =~= seq![seg_meltos()]);
            assert(hp.take(k)[1] == hp[1]);
            lemma_fresh_at(s0, mid, m2, b, hp.take(k));
        }
    }
    assert forall|k: int| 1 <= k <= lp.len() implies !is_file(#[trigger] m2.fs_lookup(lp.take(k))) by {
        if k == 1 {
            assert(lp.take(1) =~= seq![seg_meltos()]);
        } else {
            assert(lp.take(k).subrange(0, 1) =~= seq![seg_meltos()]);
            assert(lp.take(k)[1] == lp[1]);
            lemma_fresh_at(s0, mid, m2, b, lp.take(k));
        }
    }
    assert(hp.take(hp.len() as int) =~= hp);
    assert(lp.take(lp.len() as int) =~= lp);
    assert(hp.subrange(0, 1) =~= seq![seg_meltos()]);
    assert(lp.subrange(0, 1) =~= seq![seg_meltos()]);
    lemma_fresh_at(s0, mid, m2, b, hp);
    lemma_fresh_at(s0, mid, m2, b, lp);
    assert(!exists|k: int| 0 < k < hp.len() && #[trigger] files_of(m2).contains(hp.take(k)));
    assert(!exists|k: int| 0 < k < lp.len() && #[trigger] files_of(m2).contains(lp.take(k)));
}

/// A file stands below `/workspace`.
pub open spec fn workspace_has_file<Fs: FileSystem>(fs: Fs) -> bool {
    exists|q: Seq<Seq<char>>| has_prefix(q, fam_workspace()) && #[trigger] is_file(fs.fs_lookup(q))
}

/// Initializing a fresh repository whose workspace holds a file always has
/// something to stage: once the working branch is recorded and the
/// workspace directory made, staging the workspace never finds nothing to
/// stage, so the first commit is the `INIT` commit of the workspace.
pub proof fn lemma_fresh_workspace_stages<Fs: FileSystem>(
    s0: Fs,
    mid: Fs,
    b: Seq<char>,
    names: Seq<String>,
    ws: Seq<String>,
)
    requires
        init_owed(s0),
        workspace_has_file(s0),
        init_entered(s0, mid, b),
    ensures
        !crate::operation::stage::nothing_to_stage(mid, b, "."@, names, ws),
{
    if crate::operation::stage::nothing_to_stage(mid, b, "."@, names, ws) {
        let q0 = choose|q: Seq<Seq<char>>| has_prefix(q, fam_workspace()) && #[trigger] is_file(s0.fs_lookup(q));
        let wsd = seq![seq!['w', 'o', 'r', 'k', 's', 'p', 'a', 'c', 'e']];
        assert(fam_workspace() == wsd);
        assert(q0.len() >= 1);
        assert(q0[0] == wsd[0]) by {
            assert(q0.subrange(0, 1)[0] == q0[0]);
        }
        if q0.len() == 1 {
            assert(q0 =~= wsd);
            assert(false);
        }
        // the file is still there after entering
        lemma_working_path();
        let w = segs(working_path());
        assert(w[0] == seg_meltos()) by {
            assert(w.subrange(0, 2)[0] == w[0]);
        }
        assert(!has_prefix(q0, w)) by {
            if has_prefix(q0, w) {
                assert(q0.subrange(0, w.len() as int)[0] == q0[0]);
            }
        }
        assert(!has_prefix(w, q0)) by {
            if has_prefix(w, q0) {
                assert(w.subrange(0, q0.len() as int)[0] == w[0]);
            }
        }
        reveal_strlit("workspace");
        assert("workspace"@ =~= seq!['w', 'o', 'r', 'k', 's', 'p', 'a', 'c', 'e']);
        assert(seg_valid("workspace"@));
        crate::path::lemma_segs_one("workspace"@);
        assert(mid.fs_lookup(q0) == after_create_dir(
            after_write(s0.fs_lookup(q0), q0, w, json_string_encoded(b)),
            q0,
            segs("workspace"@),
        ));
        assert(mid.fs_lookup(q0) == s0.fs_lookup(q0));
        // the staging tree and the trace are empty
        crate::io::layout::lemma_staging_path();
        assert(fam_stage().subrange(0, 1) =~= seq![seg_meltos()]);
        lemma_fresh_mid(s0, mid, b, fam_stage());
        lemma_head_path(b);
        let hp = segs(head_path(b));
        assert(hp[0] == seg_meltos() && hp[1] == seg_refs()) by {
            assert(hp.subrange(0, 3)[0] == hp[0]);
            assert(hp.subrange(0, 3)[1] == hp[1]);
        }
        assert(hp.subrange(0, 1) =~= seq![seg_meltos()]);
        lemma_fresh_mid(s0, mid, b, hp);
        let st = crate::operation::stage::stage_base(mid)->Some_0;
        let tr = crate::operation::stage::head_trace(mid, b)->Some_0;
        assert(st == Seq::<(Seq<char>, Seq<char>)>::empty());
        assert(tr == Seq::<(Seq<char>, Seq<char>)>::empty());
        // the listing names the file
        reveal_strlit(".");
        crate::io::layout::lemma_workspace_dir("."@);
        assert(crate::io::workspace::lists_workspace(mid, "."@, names));
        assert(Set::new(|q: Seq<Seq<char>>| is_file(mid.fs_lookup(q))).contains(q0));
        assert(crate::file_system::names_path(names, q0));
        let i = choose|i: int| 0 <= i < names.len() && segs(#[trigger] names[i]@) == q0;
        let x = names[i]@;
        assert(strs_view(names)[i] == x);
        assert(strs_view(names).contains(x));
        assert(crate::operation::stage::file_hash_at(mid, x) is Some);
        assert(crate::operation::stage::file_differs(mid, tr, x));
        assert(crate::operation::stage::files_change(mid, st, tr, strs_view(names)));
        assert(false);
    }
}

/// Initializing is owed success: the storage answers exactly, nothing
/// stands below `.meltos`, and no file stands where the workspace goes.
pub open spec fn init_owed<Fs: FileSystem>(fs: Fs) -> bool {
    &&& fs.fs_exact()
    &&& fresh(fs)
    &&& !is_file(fs.fs_lookup(seq![seq!['w', 'o', 'r', 'k', 's', 'p', 'a', 'c', 'e']]))
}

/// Initializes repositories.
pub struct Init;

impl Init {
    pub fn new() -> (r: Init) {
        Init
    }

    /// Initializes the repository on a branch: records the branch as the
    /// working branch, creates the workspace, and commits what the workspace
    /// holds (or, where it holds nothing, an empty first commit). Fails where
    /// the repository's data already holds a file.
    pub fn execute<Fs: FileSystem>(&self, fs: &mut Fs, branch_name: &BranchName) -> (r: Result<CommitHash>)
        requires
            old(fs).fs_inv(),
        ensures
            final(fs).fs_inv(),
            r matches Ok(h) ==> head_of(*final(fs), branch_name.0@) == Some(h.0.0@),
            r matches Ok(h) ==> exists|mid: Fs|
                #[trigger] init_entered(*old(fs), mid, branch_name.0@) && init_committed(mid, *final(fs), branch_name.0@, h.0.0@),
            (exists|q: Seq<Seq<char>>| has_prefix(q, segs(".meltos"@)) && #[trigger] is_file(old(fs).fs_lookup(q)))
                ==> r is Err,
            r matches Err(e) ==> is_data_error(e) || (e is RepositoryAlreadyInitialized && exists|q: Seq<Seq<char>>|
                has_prefix(q, segs(".meltos"@)) && #[trigger] is_file(old(fs).fs_lookup(q))),
            old(fs).fs_exact() && (exists|q: Seq<Seq<char>>| has_prefix(q, segs(".meltos"@)) && #[trigger] is_file(
                old(fs).fs_lookup(q),
            )) ==> r == Err::<CommitHash, Error>(Error::RepositoryAlreadyInitialized),
            init_owed(*old(fs)) ==> r is Ok,
            init_owed(*old(fs)) && workspace_has_file(*old(fs)) ==> (r matches Ok(h) && exists|
                mid: Fs,
                m2: Fs,
                names: Seq<String>,
                ws: Seq<String>,
                t: Seq<(Seq<char>, Seq<char>)>,
            |
                #![trigger init_entered(*old(fs), mid, branch_name.0@), staged_as(mid, m2, branch_name.0@, "."@, names, ws, t)]
                init_entered(*old(fs), mid, branch_name.0@) && staged_as(mid, m2, branch_name.0@, "."@, names, ws, t)
                    && committed(m2, *final(fs), branch_name.0@, "INIT"@, h.0.0@)),
    {
        let ghost owed = init_owed(*fs);
        proof {
            reveal_strlit(".meltos");
            assert(".meltos"@ =~= seg_meltos());
            assert(seg_valid(".meltos"@));
            crate::path::lemma_segs_one(".meltos"@);
            if owed {
                assert(!exists|q: Seq<Seq<char>>| has_prefix(q, segs(".meltos"@)) && #[trigger] is_file(fs.fs_lookup(q)));
            }
        }
        self.check_branch_not_initialized(fs)?;
        let ghost s0 = *fs;
        proof {
            if owed {
                lemma_working_path();
                let w = segs(working_path());
                assert(w[0] == seg_meltos()) by {
                    assert(w.subrange(0, 2)[0] == w[0]);
                }
                assert forall|k: int| 0 < k < w.len() implies !#[trigger] files_of(s0).contains(w.take(k)) by {
                    assert(w.take(k).subrange(0, 1) =~= seq![seg_meltos()]);
                    assert(s0.fs_lookup(w.take(k)) is None);
                }
            }
        }
        WorkingIo::new().write(fs, branch_name)?;
        let ghost s1 = *fs;
        proof {
            reveal_strlit("workspace");
            assert(seg_valid("workspace"@));
            crate::path::lemma_segs_one("workspace"@);
            if owed {
                let ws = seq![seq!['w', 'o', 'r', 'k', 's', 'p', 'a', 'c', 'e']];
                assert("workspace"@ =~= seq!['w', 'o', 'r', 'k', 's', 'p', 'a', 'c', 'e']);
                assert(segs("workspace"@) =~= ws);
                lemma_working_path();
                let w = segs(working_path());
                assert(w[0] == seg_meltos()) by {
                    assert(w.subrange(0, 2)[0] == w[0]);
                }
                assert(!has_prefix(ws, w)) by {
                    if has_prefix(ws, w) {
                        assert(ws.subrange(0, w.len() as int)[0] == ws[0]);
                    }
                }
                assert(!has_prefix(w, ws)) by {
                    if has_prefix(w, ws) {
                        assert(w.subrange(0, ws.len() as int)[0] == w[0]);
                    }
                }
                assert(s1.fs_lookup(ws) == s0.fs_lookup(ws));
                assert(crate::file_system::dir_allowed(files_of(s1), segs("workspace"@)));
            }
        }
        lift(fs.create_dir("workspace"))?;
        let ghost mid = *fs;
        proof {
            assert(init_entered(s0, mid, branch_name.0@));
            if owed {
                lemma_head_path(branch_name.0@);
                let hp = segs(head_path(branch_name.0@));
                assert(hp[0] == seg_meltos() && hp[1] == seg_refs()) by {
                    assert(hp.subrange(0, 3)[0] == hp[0]);
                    assert(hp.subrange(0, 3)[1] == hp[1]);
                }
                assert(hp.subrange(0, 1) =~= seq![seg_meltos()]);
                lemma_fresh_mid(s0, mid, branch_name.0@, hp);
                crate::io::layout::lemma_staging_path();
                assert(fam_stage().subrange(0, 1) =~= seq![seg_meltos()]);
                lemma_fresh_mid(s0, mid, branch_name.0@, fam_stage());
                assert(fam_objects().subrange(0, 1) =~= seq![seg_meltos()]);
                lemma_fresh_mid(s0, mid, branch_name.0@, fam_objects());
                lemma_working_path();
                assert(mid.fs_lookup(seq![seg_meltos()]) == after_create_dir(
                    after_write(s0.fs_lookup(seq![seg_meltos()]), seq![seg_meltos()], segs(working_path()), json_string_encoded(branch_name.0@)),
                    seq![seg_meltos()],
                    segs("workspace"@),
                ));
                assert(crate::file_system::is_proper_prefix(seq![seg_meltos()], segs(working_path()))) by {
                    let w = segs(working_path());
                    assert(w.subrange(0, 2)[0] == w[0]);
                    assert(w.subrange(0, 1) =~= seq![seg_meltos()]);
                }
                assert(crate::operation::stage::stage_owed(mid, branch_name.0@));
            }
        }
        let staged = Stage::new().execute(fs, branch_name, ".");
        let ghost m2 = *fs;
        proof {
            if owed {
                assert(touches_only2(mid, m2, fam_objects(), fam_stage())) by {
                    if staged is Err {
                        assert forall|q: Seq<Seq<char>>| outside(q, fam_objects()) && outside(q, fam_stage()) implies #[trigger] m2.fs_lookup(q)
                            == mid.fs_lookup(q) by {}
                    }
                }
                lemma_init_open(s0, mid, m2, branch_name.0@);
                if workspace_has_file(s0) && staged is Err {
                    let (names, ws) = choose|names: Seq<String>, ws: Seq<String>|
                        #[trigger] crate::operation::stage::nothing_to_stage(mid, branch_name.0@, "."@, names, ws);
                    lemma_fresh_workspace_stages(s0, mid, branch_name.0@, names, ws);
                }
                if staged is Ok {
                    assert(crate::operation::commit::commit_owed(m2, branch_name.0@));
                } else {
                    assert(crate::operation::commit::null_commit_owed(m2, branch_name.0@));
                }
            }
        }
        let r = match staged {
            Ok(()) => Commit::new().execute(fs, branch_name, "INIT"),
            Err(_) => Commit::new().execute_null_commit(fs, branch_name),
        };
        proof {
            if r is Ok {
                if staged is Ok {
                    let (names, ws, t) = choose|names: Seq<String>, ws: Seq<String>, t: Seq<(Seq<char>, Seq<char>)>|
                        #[trigger] staged_as(mid, m2, branch_name.0@, "."@, names, ws, t);
                    assert(staged_as(mid, m2, branch_name.0@, "."@, names, ws, t));
                }
                assert(init_committed(mid, *fs, branch_name.0@, r->Ok_0.0.0@));
            }
            if owed && workspace_has_file(s0) {
                let (names, ws, t) = choose|names: Seq<String>, ws: Seq<String>, t: Seq<(Seq<char>, Seq<char>)>|
                    #[trigger] staged_as(mid, m2, branch_name.0@, "."@, names, ws, t);
                assert(staged_as(mid, m2, branch_name.0@, "."@, names, ws, t));
                assert(init_entered(s0, mid, branch_name.0@));
            }
        }
        r
    }

    fn check_branch_not_initialized<Fs: FileSystem>(&self, fs: &Fs) -> (r: Result<()>)
        requires
            fs.fs_inv(),
        ensures
            r is Ok ==> !exists|q: Seq<Seq<char>>| has_prefix(q, segs(".meltos"@)) && #[trigger] is_file(fs.fs_lookup(q)),
            (exists|q: Seq<Seq<char>>| has_prefix(q, segs(".meltos"@)) && #[trigger] is_file(fs.fs_lookup(q))) ==> r is Err,
            r matches Err(e) ==> e is Io || (e is RepositoryAlreadyInitialized && exists|q: Seq<Seq<char>>|
                has_prefix(q, segs(".meltos"@)) && #[trigger] is_file(fs.fs_lookup(q))),
            fs.fs_exact() && (exists|q: Seq<Seq<char>>| has_prefix(q, segs(".meltos"@)) && #[trigger] is_file(fs.fs_lookup(q)))
                ==> r == Err::<(), Error>(Error::RepositoryAlreadyInitialized),
            fs.fs_exact() && !(exists|q: Seq<Seq<char>>| has_prefix(q, segs(".meltos"@)) && #[trigger] is_file(fs.fs_lookup(q)))
                ==> r is Ok,
    {
        if lift(fs.project_already_initialized())? {
            Err(Error::RepositoryAlreadyInitialized)
        } else {
            Ok(())
        }
    }
}

} // verus!
