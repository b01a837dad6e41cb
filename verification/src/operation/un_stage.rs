//! Taking files out of the staging tree.

use vstd::prelude::*;

use crate::error::{Result, is_data_error};
use crate::file_system::{FilePath, FileSystem, after_write};
use crate::io::atomic::staging::{StagingIo, staged_tree, staging_path};
use crate::io::layout::objects_open;
use crate::io::file_bytes;
use crate::object::tree::{TreeObj, tree_decoded, tree_encoded};
use crate::path::segs;

verus! {

/// Takes files out of the staging tree.
pub struct UnStage;

impl UnStage {
    pub fn new() -> (r: UnStage) {
        UnStage
    }

    /// Removes a path from the staging tree, where there is one.
    pub fn execute<Fs: FileSystem>(&self, fs: &mut Fs, file_path: &str) -> (r: Result<()>)
        requires
            old(fs).fs_inv(),
        ensures
            r matches Err(e) ==> is_data_error(e),
            final(fs).fs_inv(),
            r is Ok && old(fs).fs_lookup(segs(staging_path())) is None ==> *final(fs) == *old(fs),
            r is Ok && old(fs).fs_lookup(segs(staging_path())) is Some ==> exists|t: TreeObj|
                #![trigger tree_encoded(t@)]
                {
                    &&& file_bytes(old(fs).fs_lookup(segs(staging_path()))) matches Some(b)
                    &&& tree_decoded(b) matches Some(es)
                    &&& t.wf()
                    &&& forall|q: Seq<char>| #[trigger] t.lookup(q) == if q == file_path@ {
                        None
                    } else {
                        crate::assoc::seq_lookup(es, q)
                    }
                    &&& forall|q: Seq<Seq<char>>|
                        #[trigger] final(fs).fs_lookup(q) == after_write(old(fs).fs_lookup(q), q, segs(staging_path()), tree_encoded(t@))
                },
            old(fs).fs_exact() && objects_open(*old(fs)) && (old(fs).fs_lookup(segs(staging_path())) is None || staged_tree(
                *old(fs),
            ) is Some) ==> r is Ok,
    {
        let staging = StagingIo::new();
        match staging.read(fs)? {
            Some(mut tree) => {
                tree.remove(&FilePath::from_path(file_path));
                staging.write_tree(fs, &tree)
            },
            None => Ok(()),
        }
    }

    /// Empties the staging tree.
    pub fn execute_all<Fs: FileSystem>(&self, fs: &mut Fs) -> (r: Result<()>)
        requires
            old(fs).fs_inv(),
        ensures
            r matches Err(e) ==> is_data_error(e),
            final(fs).fs_inv(),
            r is Ok ==> forall|q: Seq<Seq<char>>|
                #[trigger] final(fs).fs_lookup(q) == after_write(
                    old(fs).fs_lookup(q),
                    q,
                    segs(staging_path()),
                    tree_encoded(Seq::empty()),
                ),
            old(fs).fs_exact() && objects_open(*old(fs)) ==> r is Ok,
    {
        let t = TreeObj::new();
        assert(t@ =~= Seq::<(Seq<char>, Seq<char>)>::empty());
        StagingIo::new().write_tree(fs, &t)
    }
}

} // verus!
