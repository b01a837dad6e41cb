//! Saving a bundle received from another repository.

use vstd::prelude::*;

use vstd::utf8::encode_utf8;

use crate::error::{Result, is_data_error};
use crate::file_system::{FileSystem, lemma_writes_applied_push, writes_allowed, writes_applied};
use crate::io::atomic::head::{HeadIo, head_path};
use crate::io::atomic::object::{ObjIo, obj_bufs, obj_paths};
use crate::io::atomic::trace::{TraceIo, trace_bufs, trace_paths};
use crate::io::bundle::{Bundle, BundleBranch};
use crate::path::segs;

verus! {

/// The head files of the bundled branches.
pub open spec fn head_paths(bs: Seq<BundleBranch>) -> Seq<Seq<Seq<char>>> {
    bs.map_values(|b: BundleBranch| segs(head_path(b.branch_name.0@)))
}

/// What the head files of the bundled branches get: the last commit of each.
pub open spec fn head_bufs(bs: Seq<BundleBranch>) -> Seq<Seq<u8>> {
    bs.map_values(|b: BundleBranch| encode_utf8(b.commits@.last().0.0@))
}

/// Every file that saving `bundle` writes, in order: its objects, the head
/// files of its branches, its traces.
pub open spec fn save_paths(bundle: Bundle) -> Seq<Seq<Seq<char>>> {
    obj_paths(bundle.objs@) + head_paths(bundle.branches@) + trace_paths(bundle.traces@)
}

/// Saving `bundle` took `before` through `m1` and `m2` to `after`: its
/// objects were stored in turn, then each branch's head set in turn to its
/// last commit, then its traces recorded in turn.
pub open spec fn saved_as<Fs: FileSystem>(before: Fs, m1: Fs, m2: Fs, after: Fs, bundle: Bundle) -> bool {
    &&& forall|q: Seq<Seq<char>>|
        #[trigger] m1.fs_lookup(q) == writes_applied(before.fs_lookup(q), q, obj_paths(bundle.objs@), obj_bufs(bundle.objs@))
    &&& forall|q: Seq<Seq<char>>|
        #[trigger] m2.fs_lookup(q) == writes_applied(m1.fs_lookup(q), q, head_paths(bundle.branches@), head_bufs(bundle.branches@))
    &&& forall|q: Seq<Seq<char>>|
        #[trigger] after.fs_lookup(q) == writes_applied(m2.fs_lookup(q), q, trace_paths(bundle.traces@), trace_bufs(bundle.traces@))
}

/// Saves bundles.
pub struct Save;

impl Save {
    pub fn new() -> (r: Save) {
        Save
    }

    /// Stores the bundle's objects, sets each bundled branch's head to its
    /// last commit, and records the bundle's traces.
    pub fn execute<Fs: FileSystem>(&self, fs: &mut Fs, bundle: Bundle) -> (r: Result<()>)
        requires
            old(fs).fs_inv(),
            forall|i: int| 0 <= i < bundle.branches@.len() ==> #[trigger] bundle.branches@[i].commits@.len() > 0,
        ensures
            r matches Err(e) ==> is_data_error(e),
            final(fs).fs_inv(),
            r is Ok ==> exists|m1: Fs, m2: Fs| #[trigger] saved_as(*old(fs), m1, m2, *final(fs), bundle),
            old(fs).fs_exact() && writes_allowed(*old(fs), save_paths(bundle)) ==> r is Ok,
    {
        let ghost s0 = *fs;
        let ghost w = save_paths(bundle);
        let ghost owed = fs.fs_exact() && writes_allowed(*fs, w);
        proof {
            let po = obj_paths(bundle.objs@);
            let ph = head_paths(bundle.branches@);
            assert forall|k: int| 0 <= k < po.len() implies w.contains(#[trigger] po[k]) by {
                assert(w[k] == po[k]);
            }
            assert forall|k: int| 0 <= k < ph.len() implies w.contains(#[trigger] ph[k]) by {
                assert(w[po.len() + k] == ph[k]);
            }
            let pt = trace_paths(bundle.traces@);
            assert forall|k: int| 0 <= k < pt.len() implies w.contains(#[trigger] pt[k]) by {
                assert(w[po.len() + ph.len() + k] == pt[k]);
            }
        }
        ObjIo::new().write_all(fs, &bundle.objs)?;
        let ghost m1 = *fs;
        let ghost ps = head_paths(bundle.branches@);
        let ghost bs = head_bufs(bundle.branches@);
        let head = HeadIo::new();
        let mut i: usize = 0;
        proof {
            assert forall|q: Seq<Seq<char>>| #[trigger] fs.fs_lookup(q) == writes_applied(m1.fs_lookup(q), q, ps.take(0), bs.take(0)) by {}
        }
        while i < bundle.branches.len()
            invariant
                fs.fs_inv(),
                i <= bundle.branches@.len(),
                forall|j: int| 0 <= j < bundle.branches@.len() ==> #[trigger] bundle.branches@[j].commits@.len() > 0,
                ps == head_paths(bundle.branches@),
                bs == head_bufs(bundle.branches@),
                forall|q: Seq<Seq<char>>| #[trigger] fs.fs_lookup(q) == writes_applied(m1.fs_lookup(q), q, ps.take(i as int), bs.take(i as int)),
                owed ==> fs.fs_exact() && writes_allowed(*fs, w),
                owed == (s0.fs_exact() && writes_allowed(s0, w)),
                w == save_paths(bundle),
                *old(fs) == s0,
                forall|k: int| 0 <= k < ps.len() ==> w.contains(#[trigger] ps[k]),
            decreases bundle.branches@.len() - i,
        {
            let ghost prev = *fs;
            let branch = &bundle.branches[i];
            assert(branch.commits@.len() > 0);
            let last = branch.commits.len() - 1;
            proof {
                if owed {
                    assert(w.contains(ps[i as int]));
                    let j = choose|j: int| 0 <= j < w.len() && w[j] == ps[i as int];
                    assert(crate::file_system::write_allowed(crate::file_system::files_of(*fs), w[j]));
                }
            }
            head.write(fs, &branch.branch_name, &branch.commits[last])?;
            proof {
                if owed {
                    crate::file_system::lemma_writes_allowed_kept(prev, *fs, w, ps[i as int], bs[i as int]);
                }
                assert(branch.commits@.last() == branch.commits@[last as int]);
                assert(ps.take(i + 1) =~= ps.take(i as int).push(ps[i as int]));
                assert(bs.take(i + 1) =~= bs.take(i as int).push(bs[i as int]));
                assert forall|q: Seq<Seq<char>>| #[trigger] fs.fs_lookup(q) == writes_applied(m1.fs_lookup(q), q, ps.take(i + 1), bs.take(i + 1)) by {
                    lemma_writes_applied_push(m1.fs_lookup(q), q, ps.take(i as int), bs.take(i as int), ps[i as int], bs[i as int]);
                    assert(prev.fs_lookup(q) == writes_applied(m1.fs_lookup(q), q, ps.take(i as int), bs.take(i as int)));
                }
            }
            i = i + 1;
        }
        proof {
            assert(ps.take(i as int) =~= ps);
            assert(bs.take(i as int) =~= bs);
        }
        let ghost m2 = *fs;
        let r = TraceIo::new().write_all(fs, &bundle.traces);
        proof {
            if r is Ok {
                assert(saved_as(s0, m1, m2, *fs, bundle));
            }
        }
        r
    }
}

} // verus!
