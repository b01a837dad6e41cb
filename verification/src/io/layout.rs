//! Where the repository keeps each kind of data: every path it writes lies
//! below one of a few directories, and no two of them overlap.

use vstd::prelude::*;

use crate::file_system::{
    FileSystem, FsNode, after_create_dir, after_delete, after_write, files_of, is_file, write_allowed,
};
use crate::io::atomic::head::{head_path, remote_head_path};
use crate::io::atomic::local_commits::local_commits_path;
use crate::io::atomic::object::obj_path;
use crate::io::atomic::staging::staging_path;
use crate::io::atomic::trace::trace_path;
use crate::io::atomic::work_branch::working_path;
use crate::io::workspace::workspace_dir;
use crate::path::{
    dir_chars, has_prefix, lemma_apart, lemma_scan_dir_chars, lemma_segs_concat, scan, seg_valid,
    segs, segs_valid,
};

verus! {

pub open spec fn seg_meltos() -> Seq<char> {
    seq!['.', 'm', 'e', 'l', 't', 'o', 's']
}

pub open spec fn seg_refs() -> Seq<char> {
    seq!['r', 'e', 'f', 's']
}

/// The directories the repository's data lies in.
pub open spec fn fam_objects() -> Seq<Seq<char>> {
    seq![seg_meltos(), seq!['o', 'b', 'j', 'e', 'c', 't', 's']]
}

pub open spec fn fam_heads() -> Seq<Seq<char>> {
    seq![seg_meltos(), seg_refs(), seq!['h', 'e', 'a', 'd', 's']]
}

pub open spec fn fam_remotes() -> Seq<Seq<char>> {
    seq![seg_meltos(), seg_refs(), seq!['r', 'e', 'm', 'o', 't', 'e', 's']]
}

pub open spec fn fam_traces() -> Seq<Seq<char>> {
    seq![seg_meltos(), seq!['t', 'r', 'a', 'c', 'e', 's']]
}

pub open spec fn fam_branches() -> Seq<Seq<char>> {
    seq![seg_meltos(), seq!['b', 'r', 'a', 'n', 'c', 'h', 'e', 's']]
}

pub open spec fn fam_working() -> Seq<Seq<char>> {
    seq![seg_meltos(), seq!['W', 'O', 'R', 'K', 'I', 'N', 'G']]
}

pub open spec fn fam_stage() -> Seq<Seq<char>> {
    seq![seg_meltos(), seq!['s', 't', 'a', 'g', 'e']]
}

/// Two directories of the layout part at some segment.
pub open spec fn fams_apart(f1: Seq<Seq<char>>, f2: Seq<Seq<char>>) -> bool {
    exists|k: int| 0 <= k < f1.len() && k < f2.len() && #[trigger] f1[k] != f2[k]
}

/// The directories of the layout part from each other.
pub proof fn lemma_fams_apart()
    ensures
        fams_apart(fam_objects(), fam_heads()),
        fams_apart(fam_heads(), fam_objects()),
        fams_apart(fam_objects(), fam_remotes()),
        fams_apart(fam_remotes(), fam_objects()),
        fams_apart(fam_objects(), fam_traces()),
        fams_apart(fam_traces(), fam_objects()),
        fams_apart(fam_objects(), fam_branches()),
        fams_apart(fam_branches(), fam_objects()),
        fams_apart(fam_objects(), fam_working()),
        fams_apart(fam_working(), fam_objects()),
        fams_apart(fam_objects(), fam_stage()),
        fams_apart(fam_stage(), fam_objects()),
        fams_apart(fam_heads(), fam_remotes()),
        fams_apart(fam_remotes(), fam_heads()),
        fams_apart(fam_heads(), fam_traces()),
        fams_apart(fam_traces(), fam_heads()),
        fams_apart(fam_heads(), fam_branches()),
        fams_apart(fam_branches(), fam_heads()),
        fams_apart(fam_heads(), fam_working()),
        fams_apart(fam_working(), fam_heads()),
        fams_apart(fam_heads(), fam_stage()),
        fams_apart(fam_stage(), fam_heads()),
        fams_apart(fam_traces(), fam_branches()),
        fams_apart(fam_branches(), fam_traces()),
        fams_apart(fam_traces(), fam_working()),
        fams_apart(fam_working(), fam_traces()),
        fams_apart(fam_traces(), fam_stage()),
        fams_apart(fam_stage(), fam_traces()),
        fams_apart(fam_branches(), fam_working()),
        fams_apart(fam_working(), fam_branches()),
        fams_apart(fam_branches(), fam_stage()),
        fams_apart(fam_stage(), fam_branches()),
        fams_apart(fam_working(), fam_stage()),
        fams_apart(fam_stage(), fam_working()),
        fams_apart(fam_remotes(), fam_traces()),
        fams_apart(fam_traces(), fam_remotes()),
        fams_apart(fam_remotes(), fam_branches()),
        fams_apart(fam_branches(), fam_remotes()),
        fams_apart(fam_remotes(), fam_working()),
        fams_apart(fam_working(), fam_remotes()),
        fams_apart(fam_remotes(), fam_stage()),
        fams_apart(fam_stage(), fam_remotes()),
{
    let o = fam_objects()[1];
    let r = fam_heads()[1];
    let t = fam_traces()[1];
    let b = fam_branches()[1];
    let w = fam_working()[1];
    let s = fam_stage()[1];
    assert(o[0] != r[0] && o[0] != t[0] && o[0] != b[0] && o[0] != w[0] && o[0] != s[0]);
    assert(r[0] != t[0] && r[0] != b[0] && r[0] != w[0]);
    assert(r[1] != s[1]);
    assert(t[0] != b[0] && t[0] != w[0] && t[1] != s[1]);
    assert(b[0] != w[0] && b[0] != s[0]);
    assert(w[0] != s[0]);
    assert(fam_heads()[2][0] != fam_remotes()[2][0]);
    assert(fam_remotes()[1] == r);
}

/// A path that holds a literal directory prefix and then `x`.
proof fn lemma_prefixed(lit: Seq<char>, fam: Seq<Seq<char>>, x: Seq<char>)
    requires
        lit == dir_chars(fam),
        segs_valid(fam),
    ensures
        segs(lit + x) == fam + segs(x),
        has_prefix(segs(lit + x), fam),
{
    lemma_scan_dir_chars(fam);
    lemma_segs_concat(lit, x);
    assert((fam + segs(x)).subrange(0, fam.len() as int) =~= fam);
}

proof fn lemma_fams_valid()
    ensures
        segs_valid(fam_objects()),
        segs_valid(fam_heads()),
        segs_valid(fam_remotes()),
        segs_valid(fam_traces()),
        segs_valid(fam_branches()),
        segs_valid(fam_working()),
        segs_valid(fam_stage()),
{
    assert forall|i: int| 0 <= i < fam_objects().len() implies seg_valid(#[trigger] fam_objects()[i]) by {}
    assert forall|i: int| 0 <= i < fam_heads().len() implies seg_valid(#[trigger] fam_heads()[i]) by {}
    assert forall|i: int| 0 <= i < fam_remotes().len() implies seg_valid(#[trigger] fam_remotes()[i]) by {}
    assert forall|i: int| 0 <= i < fam_traces().len() implies seg_valid(#[trigger] fam_traces()[i]) by {}
    assert forall|i: int| 0 <= i < fam_branches().len() implies seg_valid(#[trigger] fam_branches()[i]) by {}
    assert forall|i: int| 0 <= i < fam_working().len() implies seg_valid(#[trigger] fam_working()[i]) by {}
    assert forall|i: int| 0 <= i < fam_stage().len() implies seg_valid(#[trigger] fam_stage()[i]) by {}
}

/// The head files lie below `.meltos/refs/heads`.
pub proof fn lemma_head_path(b: Seq<char>)
    ensures
        has_prefix(segs(head_path(b)), fam_heads()),
{
    reveal_strlit(".meltos/refs/heads/");
    reveal_with_fuel(dir_chars, 4);
    lemma_fams_valid();
    assert(".meltos/refs/heads/"@ =~= dir_chars(fam_heads()));
    lemma_prefixed(".meltos/refs/heads/"@, fam_heads(), b);
}

/// The remote head files lie below `.meltos/refs/remotes`.
pub proof fn lemma_remote_head_path(b: Seq<char>)
    ensures
        has_prefix(segs(remote_head_path(b)), fam_remotes()),
{
    reveal_strlit(".meltos/refs/remotes/");
    reveal_with_fuel(dir_chars, 4);
    lemma_fams_valid();
    assert(".meltos/refs/remotes/"@ =~= dir_chars(fam_remotes()));
    lemma_prefixed(".meltos/refs/remotes/"@, fam_remotes(), b);
}

/// The object files lie below `.meltos/objects`.
/// The file of an object named by a hexadecimal hash lies directly in the
/// objects directory.
pub proof fn lemma_obj_path_hex(h: Seq<char>)
    requires
        crate::object::is_hex(h),
    ensures
        segs(obj_path(h)) == fam_objects().push(h),
{
    reveal_strlit(".meltos/objects/");
    reveal_with_fuel(dir_chars, 3);
    lemma_fams_valid();
    assert(".meltos/objects/"@ =~= dir_chars(fam_objects()));
    lemma_prefixed(".meltos/objects/"@, fam_objects(), h);
    assert forall|i: int| 0 <= i < h.len() implies h[i] != '/' by {
        assert(crate::object::hex_digits().contains(h[i]));
    }
    if h == seq!['.'] {
        assert(crate::object::hex_digits().contains(h[0]));
    }
    crate::path::lemma_segs_one(h);
    assert(fam_objects() + seq![h] =~= fam_objects().push(h));
}

pub proof fn lemma_obj_path(h: Seq<char>)
    ensures
        has_prefix(segs(obj_path(h)), fam_objects()),
{
    reveal_strlit(".meltos/objects/");
    reveal_with_fuel(dir_chars, 3);
    lemma_fams_valid();
    assert(".meltos/objects/"@ =~= dir_chars(fam_objects()));
    lemma_prefixed(".meltos/objects/"@, fam_objects(), h);
}

/// The trace files lie below `.meltos/traces`.
pub proof fn lemma_trace_path(c: Seq<char>)
    ensures
        has_prefix(segs(trace_path(c)), fam_traces()),
        segs(trace_path(c)) == fam_traces() + segs(c),
{
    reveal_strlit("/.meltos/traces/");
    reveal_with_fuel(dir_chars, 3);
    lemma_fams_valid();
    let rest = dir_chars(fam_traces()) + c;
    assert("/.meltos/traces/"@ + c =~= seq!['/'] + rest);
    assert(scan(seq!['/']) == (Seq::<Seq<char>>::empty(), Seq::<char>::empty())) by {
        assert(seq!['/'].drop_last() =~= Seq::<char>::empty());
        assert(seq!['/'].last() == '/');
        assert(seq!['/'].len() == 1);
        assert(scan(Seq::<char>::empty()) == (Seq::<Seq<char>>::empty(), Seq::<char>::empty()));
        assert(crate::path::push_seg(Seq::empty(), Seq::empty()) =~= Seq::<Seq<char>>::empty());
    }
    lemma_segs_concat(seq!['/'], rest);
    assert(Seq::<Seq<char>>::empty() + segs(rest) =~= segs(rest));
    lemma_prefixed(dir_chars(fam_traces()), fam_traces(), c);
}

/// The local commit files lie below `.meltos/branches`.
pub proof fn lemma_local_commits_path(b: Seq<char>)
    ensures
        has_prefix(segs(local_commits_path(b)), fam_branches()),
{
    reveal_strlit(".meltos/branches/");
    reveal_with_fuel(dir_chars, 3);
    lemma_fams_valid();
    assert(".meltos/branches/"@ =~= dir_chars(fam_branches()));
    assert(local_commits_path(b) =~= ".meltos/branches/"@ + (b + "/LOCAL"@));
    lemma_prefixed(".meltos/branches/"@, fam_branches(), b + "/LOCAL"@);
}

/// The working branch file is `.meltos/WORKING`.
pub proof fn lemma_working_path()
    ensures
        has_prefix(segs(working_path()), fam_working()),
{
    reveal_strlit(".meltos/WORKING");
    reveal_with_fuel(dir_chars, 2);
    lemma_fams_valid();
    let pre = dir_chars(seq![seg_meltos()]);
    assert(".meltos/WORKING"@ =~= pre + fam_working()[1]);
    lemma_prefixed(pre, seq![seg_meltos()], fam_working()[1]);
    crate::path::lemma_segs_join(seq![fam_working()[1]]);
    assert(crate::path::join(seq![fam_working()[1]]) == fam_working()[1]);
    assert(seq![seg_meltos()] + seq![fam_working()[1]] =~= fam_working());
    assert(fam_working().subrange(0, 2) =~= fam_working());
}

/// The heads directory is `.meltos/refs/heads`, with or without a closing slash.
pub proof fn lemma_heads_dir()
    ensures
        segs(".meltos/refs/heads"@) == fam_heads(),
        segs(".meltos/refs/heads/"@) == fam_heads(),
{
    reveal_strlit(".meltos/refs/heads");
    reveal_strlit(".meltos/refs/heads/");
    reveal_with_fuel(dir_chars, 4);
    lemma_fams_valid();
    assert(".meltos/refs/heads/"@ =~= dir_chars(fam_heads()));
    lemma_scan_dir_chars(fam_heads());
    let pre = dir_chars(fam_heads().take(2));
    assert(segs_valid(fam_heads().take(2))) by {
        assert forall|i: int| 0 <= i < 2 implies seg_valid(#[trigger] fam_heads().take(2)[i]) by {
            assert(fam_heads().take(2)[i] == fam_heads()[i]);
        }
    }
    assert(".meltos/refs/heads"@ =~= pre + fam_heads()[2]);
    lemma_prefixed(pre, fam_heads().take(2), fam_heads()[2]);
    crate::path::lemma_segs_join(seq![fam_heads()[2]]);
    assert(crate::path::join(seq![fam_heads()[2]]) == fam_heads()[2]);
    assert(fam_heads().take(2) + seq![fam_heads()[2]] =~= fam_heads());
}

/// The objects directory is `.meltos/objects`.
pub proof fn lemma_objects_dir()
    ensures
        segs(".meltos/objects"@) == fam_objects(),
{
    reveal_strlit(".meltos/objects");
    reveal_with_fuel(dir_chars, 2);
    lemma_fams_valid();
    let pre = dir_chars(seq![seg_meltos()]);
    assert(".meltos/objects"@ =~= pre + fam_objects()[1]);
    lemma_prefixed(pre, seq![seg_meltos()], fam_objects()[1]);
    crate::path::lemma_segs_join(seq![fam_objects()[1]]);
    assert(crate::path::join(seq![fam_objects()[1]]) == fam_objects()[1]);
    assert(seq![seg_meltos()] + seq![fam_objects()[1]] =~= fam_objects());
}

/// The staging file is `.meltos/stage`.
pub proof fn lemma_staging_path()
    ensures
        has_prefix(segs(staging_path()), fam_stage()),
        segs(staging_path()) == fam_stage(),
{
    reveal_strlit("./.meltos/stage");
    reveal_with_fuel(dir_chars, 2);
    lemma_fams_valid();
    let pre = dir_chars(seq![seg_meltos()]);
    let tail = pre + fam_stage()[1];
    assert("./.meltos/stage"@ =~= seq!['.', '/'] + tail);
    crate::path::lemma_segs_dot_prefix(tail);
    lemma_prefixed(pre, seq![seg_meltos()], fam_stage()[1]);
    crate::path::lemma_segs_join(seq![fam_stage()[1]]);
    assert(crate::path::join(seq![fam_stage()[1]]) == fam_stage()[1]);
    assert(seq![seg_meltos()] + seq![fam_stage()[1]] =~= fam_stage());
    assert(fam_stage().subrange(0, 2) =~= fam_stage());
}

/// No file stands where the repository keeps its objects: at `.meltos` or
/// at `.meltos/objects`.
pub open spec fn objects_open<Fs: FileSystem>(fs: Fs) -> bool {
    &&& !is_file(fs.fs_lookup(seq![seg_meltos()]))
    &&& !is_file(fs.fs_lookup(fam_objects()))
}

/// Where the objects directory is open, an object named by a hexadecimal
/// hash can be written, and so can the staging tree.
pub proof fn lemma_objects_open_writes<Fs: FileSystem>(fs: Fs, h: Seq<char>)
    requires
        objects_open(fs),
        crate::object::is_hex(h),
    ensures
        write_allowed(Set::new(|q: Seq<Seq<char>>| is_file(fs.fs_lookup(q))), segs(obj_path(h))),
        write_allowed(Set::new(|q: Seq<Seq<char>>| is_file(fs.fs_lookup(q))), segs(staging_path())),
{
    lemma_obj_path_hex(h);
    lemma_staging_path();
    let p = segs(obj_path(h));
    assert(p.take(1) =~= seq![seg_meltos()]);
    assert(p.take(2) =~= fam_objects());
    let sp = segs(staging_path());
    assert(sp.take(1) =~= seq![seg_meltos()]);
}

/// A path in one directory of the layout lies above no path in another.
pub proof fn lemma_not_above(w: Seq<Seq<char>>, p: Seq<Seq<char>>, f1: Seq<Seq<char>>, f2: Seq<Seq<char>>)
    requires
        has_prefix(w, f1),
        has_prefix(p, f2),
        fams_apart(f1, f2),
    ensures
        !crate::file_system::is_proper_prefix(w, p),
        !has_prefix(p, w),
{
    let k = choose|k: int| 0 <= k < f1.len() && k < f2.len() && #[trigger] f1[k] != f2[k];
    crate::path::lemma_apart(w, p, f1, f2, k);
}

/// No file stands where the repository keeps its traces.
pub open spec fn traces_open<Fs: FileSystem>(fs: Fs) -> bool {
    !is_file(fs.fs_lookup(fam_traces()))
}

/// Where the repository's directories are open, the trace of a commit named
/// by a hexadecimal hash can be written.
pub proof fn lemma_trace_write_allowed<Fs: FileSystem>(fs: Fs, c: Seq<char>)
    requires
        objects_open(fs),
        traces_open(fs),
        crate::object::is_hex(c),
    ensures
        write_allowed(files_of(fs), segs(trace_path(c))),
{
    lemma_trace_path(c);
    assert forall|i: int| 0 <= i < c.len() implies c[i] != '/' by {
        assert(crate::object::hex_digits().contains(c[i]));
    }
    if c == seq!['.'] {
        assert(crate::object::hex_digits().contains(c[0]));
    }
    crate::path::lemma_segs_one(c);
    let p = segs(trace_path(c));
    assert(p =~= fam_traces().push(c));
    assert(p.take(1) =~= seq![seg_meltos()]);
    assert(p.take(2) =~= fam_traces());
}

/// A write of a file at `w` leaves the repository's directories open, where
/// `w` is none of them.
pub proof fn lemma_open_kept<Fs: FileSystem>(before: Fs, after: Fs, w: Seq<Seq<char>>, b: Seq<u8>)
    requires
        w != seq![seg_meltos()],
        w != fam_objects(),
        w != fam_traces(),
        forall|q: Seq<Seq<char>>| #[trigger] after.fs_lookup(q) == after_write(before.fs_lookup(q), q, w, b),
    ensures
        objects_open(before) ==> objects_open(after),
        traces_open(before) ==> traces_open(after),
{
    assert(after.fs_lookup(seq![seg_meltos()]) == after_write(before.fs_lookup(seq![seg_meltos()]), seq![seg_meltos()], w, b));
    assert(after.fs_lookup(fam_objects()) == after_write(before.fs_lookup(fam_objects()), fam_objects(), w, b));
    assert(after.fs_lookup(fam_traces()) == after_write(before.fs_lookup(fam_traces()), fam_traces(), w, b));
}

/// A write below the objects directory leaves it open.
pub proof fn lemma_objects_open_kept<Fs: FileSystem>(before: Fs, after: Fs, p: Seq<Seq<char>>, b: Seq<u8>)
    requires
        has_prefix(p, fam_objects()),
        p.len() > fam_objects().len(),
        forall|q: Seq<Seq<char>>| #[trigger] after.fs_lookup(q) == after_write(before.fs_lookup(q), q, p, b),
    ensures
        objects_open(after),
{
    assert(after.fs_lookup(seq![seg_meltos()]) == after_write(before.fs_lookup(seq![seg_meltos()]), seq![seg_meltos()], p, b));
    assert(has_prefix(p, seq![seg_meltos()])) by {
        assert(p.subrange(0, 1) =~= fam_objects().subrange(0, 1));
        assert(fam_objects().subrange(0, 1) =~= seq![seg_meltos()]);
    }
    assert(after.fs_lookup(fam_objects()) == after_write(before.fs_lookup(fam_objects()), fam_objects(), p, b));
}

/// `q` lies neither at or below `fam` nor above it.
pub open spec fn outside(q: Seq<Seq<char>>, fam: Seq<Seq<char>>) -> bool {
    !has_prefix(q, fam) && !has_prefix(fam, q)
}

/// Between `before` and `after` nothing changed but at, above or below `fam`.
pub open spec fn touches_only<Fs: FileSystem>(before: Fs, after: Fs, fam: Seq<Seq<char>>) -> bool {
    forall|q: Seq<Seq<char>>| outside(q, fam) ==> #[trigger] after.fs_lookup(q) == before.fs_lookup(q)
}

/// Between `before` and `after` nothing changed but at, above or below `f1` or `f2`.
pub open spec fn touches_only2<Fs: FileSystem>(before: Fs, after: Fs, f1: Seq<Seq<char>>, f2: Seq<Seq<char>>) -> bool {
    forall|q: Seq<Seq<char>>| outside(q, f1) && outside(q, f2) ==> #[trigger] after.fs_lookup(q) == before.fs_lookup(q)
}

/// A change at a path below `fam` leaves every path outside `fam` as it was.
pub proof fn lemma_outside(old: Option<FsNode>, q: Seq<Seq<char>>, p: Seq<Seq<char>>, buf: Seq<u8>, fam: Seq<Seq<char>>)
    requires
        has_prefix(p, fam),
        outside(q, fam),
    ensures
        after_write(old, q, p, buf) == old,
        after_delete(old, q, p) == old,
        after_create_dir(old, q, p) == old,
{
    assert forall|i: int| 0 <= i < fam.len() implies #[trigger] p[i] == fam[i] by {
        assert(p.subrange(0, fam.len() as int)[i] == p[i]);
    }
    if has_prefix(q, p) {
        assert forall|i: int| 0 <= i < p.len() implies #[trigger] q[i] == p[i] by {
            assert(q.subrange(0, p.len() as int)[i] == q[i]);
        }
        assert(q.subrange(0, fam.len() as int) =~= fam);
        assert(false);
    }
    if has_prefix(p, q) {
        assert forall|i: int| 0 <= i < q.len() implies #[trigger] p[i] == q[i] by {
            assert(p.subrange(0, q.len() as int)[i] == p[i]);
        }
        if q.len() <= fam.len() {
            assert(fam.subrange(0, q.len() as int) =~= q);
        } else {
            assert(q.subrange(0, fam.len() as int) =~= fam);
        }
        assert(false);
    }
}

/// A path below a directory of the layout lies outside every other one.
pub proof fn lemma_outside_fam(q: Seq<Seq<char>>, f1: Seq<Seq<char>>, f2: Seq<Seq<char>>)
    requires
        has_prefix(q, f1),
        fams_apart(f1, f2),
    ensures
        outside(q, f2),
{
    let k = choose|k: int| 0 <= k < f1.len() && k < f2.len() && #[trigger] f1[k] != f2[k];
    assert(f2.subrange(0, f2.len() as int) =~= f2);
    lemma_apart(q, f2, f1, f2, k);
}

/// A file written below `fam` changes nothing outside it.
pub proof fn lemma_write_frame<Fs: FileSystem>(before: Fs, after: Fs, p: Seq<Seq<char>>, buf: Seq<u8>, fam: Seq<Seq<char>>)
    requires
        has_prefix(p, fam),
        forall|q: Seq<Seq<char>>| #[trigger] after.fs_lookup(q) == after_write(before.fs_lookup(q), q, p, buf),
    ensures
        touches_only(before, after, fam),
{
    assert forall|q: Seq<Seq<char>>| outside(q, fam) implies #[trigger] after.fs_lookup(q) == before.fs_lookup(q) by {
        lemma_outside(before.fs_lookup(q), q, p, buf, fam);
    }
}

/// A path deleted below `fam` changes nothing outside it.
pub proof fn lemma_delete_frame<Fs: FileSystem>(before: Fs, after: Fs, p: Seq<Seq<char>>, fam: Seq<Seq<char>>)
    requires
        has_prefix(p, fam),
        forall|q: Seq<Seq<char>>| #[trigger] after.fs_lookup(q) == after_delete(before.fs_lookup(q), q, p),
    ensures
        touches_only(before, after, fam),
{
    assert forall|q: Seq<Seq<char>>| outside(q, fam) implies #[trigger] after.fs_lookup(q) == before.fs_lookup(q) by {
        lemma_outside(before.fs_lookup(q), q, p, Seq::empty(), fam);
    }
}

/// A path below `f` keeps what it holds across a change confined to a
/// directory that parts from `f`.
pub proof fn lemma_kept<Fs: FileSystem>(before: Fs, after: Fs, fam: Seq<Seq<char>>, q: Seq<Seq<char>>, f: Seq<Seq<char>>)
    requires
        touches_only(before, after, fam),
        has_prefix(q, f),
        fams_apart(f, fam),
    ensures
        after.fs_lookup(q) == before.fs_lookup(q),
{
    lemma_outside_fam(q, f, fam);
}

/// The directory that holds the workspace files.
pub open spec fn fam_workspace() -> Seq<Seq<char>> {
    seq![seq!['w', 'o', 'r', 'k', 's', 'p', 'a', 'c', 'e']]
}

/// The workspace parts from every directory of the repository's data.
pub proof fn lemma_workspace_apart()
    ensures
        fams_apart(fam_workspace(), fam_objects()),
        fams_apart(fam_workspace(), fam_heads()),
        fams_apart(fam_workspace(), fam_remotes()),
        fams_apart(fam_workspace(), fam_traces()),
        fams_apart(fam_workspace(), fam_branches()),
        fams_apart(fam_workspace(), fam_working()),
        fams_apart(fam_workspace(), fam_stage()),
        fams_apart(fam_objects(), fam_workspace()),
        fams_apart(fam_heads(), fam_workspace()),
        fams_apart(fam_traces(), fam_workspace()),
        fams_apart(fam_branches(), fam_workspace()),
        fams_apart(fam_stage(), fam_workspace()),
        fams_apart(fam_working(), fam_workspace()),
        fams_apart(fam_remotes(), fam_workspace()),
{
    let w = fam_workspace()[0];
    assert(w[0] != seg_meltos()[0]);
}

/// The directories that workspace listings walk lie below `/workspace`.
pub proof fn lemma_workspace_dir(p: Seq<char>)
    ensures
        has_prefix(segs(workspace_dir(p)), fam_workspace()),
        (p == "."@ || p == "./"@) ==> segs(workspace_dir(p)) == fam_workspace(),
{
    reveal_strlit("/workspace");
    reveal_strlit("/workspace/");
    let w = fam_workspace()[0];
    assert(segs_valid(fam_workspace())) by {
        assert forall|i: int| 0 <= i < fam_workspace().len() implies seg_valid(#[trigger] fam_workspace()[i]) by {}
    }
    assert(scan(seq!['/']) == (Seq::<Seq<char>>::empty(), Seq::<char>::empty())) by {
        assert(seq!['/'].drop_last() =~= Seq::<char>::empty());
        assert(scan(Seq::<char>::empty()) == (Seq::<Seq<char>>::empty(), Seq::<char>::empty()));
        assert(crate::path::push_seg(Seq::empty(), Seq::empty()) =~= Seq::<Seq<char>>::empty());
    }
    let d = workspace_dir(p);
    if p == "."@ || p == "./"@ {
        assert(d =~= crate::path::join_absolute(fam_workspace()));
        crate::path::lemma_segs_join_absolute(fam_workspace());
        assert(fam_workspace().subrange(0, 1) =~= fam_workspace());
    } else {
        reveal_with_fuel(dir_chars, 2);
        let x = crate::file_system::clip::trim_start(p, "/workspace/"@);
        let rest = dir_chars(fam_workspace()) + x;
        assert(d =~= seq!['/'] + rest);
        lemma_segs_concat(seq!['/'], rest);
        assert(Seq::<Seq<char>>::empty() + segs(rest) =~= segs(rest));
        lemma_prefixed(dir_chars(fam_workspace()), fam_workspace(), x);
    }
}

} // verus!
