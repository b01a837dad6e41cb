//! The staging tree: what the next commit will hold, kept in `.meltos/stage`.

use vstd::prelude::*;

use crate::error::{Error, Result, is_data_error};
use crate::file_system::{FileSystem, FsNode, after_write, is_file};
use crate::io::{file_bytes, lift};
use crate::object::Encodable;
use crate::object::tree::{TreeObj, tree_decoded, tree_encoded};
use crate::io::layout::{fam_stage, lemma_staging_path, lemma_write_frame, objects_open, touches_only};
use crate::path::{has_prefix, segs};

verus! {

/// The file that holds the staging tree.
pub open spec fn staging_path() -> Seq<char> {
    "./.meltos/stage"@
}

/// The tree recorded in the staging file, where it holds one.
pub open spec fn staged_tree<Fs: FileSystem>(fs: Fs) -> Option<Seq<(Seq<char>, Seq<char>)>> {
    match file_bytes(fs.fs_lookup(segs(staging_path()))) {
        Some(b) => tree_decoded(b),
        None => None,
    }
}

/// Reads and writes the staging tree.
pub struct StagingIo;

impl StagingIo {
    pub fn new() -> (r: StagingIo) {
        StagingIo
    }

    /// Replaces the staging tree.
    pub fn write_tree<Fs: FileSystem>(&self, fs: &mut Fs, tree: &TreeObj) -> (r: Result<()>)
        requires
            old(fs).fs_inv(),
        ensures
            r matches Err(e) ==> is_data_error(e),
            final(fs).fs_inv(),
            r is Ok ==> segs(staging_path()).len() > 0 && forall|q: Seq<Seq<char>>|
                #[trigger] final(fs).fs_lookup(q) == after_write(
                    old(fs).fs_lookup(q),
                    q,
                    segs(staging_path()),
                    tree_encoded(tree@),
                ),
            r is Ok ==> touches_only(*old(fs), *final(fs), fam_stage()),
            r is Ok && tree.wf() ==> staged_tree(*final(fs)) == Some(tree@),
            old(fs).fs_exact() ==> final(fs).fs_exact(),
            old(fs).fs_exact() && objects_open(*old(fs)) ==> r is Ok && objects_open(*final(fs)),
    {
        let ghost before = *fs;
        proof {
            if fs.fs_exact() && objects_open(*fs) {
                lemma_staging_path();
                let sp = segs(staging_path());
                assert(sp.take(1) =~= seq![crate::io::layout::seg_meltos()]);
                let fset = Set::new(|q: Seq<Seq<char>>| is_file(before.fs_lookup(q)));
                assert forall|k: int| 0 < k < sp.len() implies !#[trigger] fset.contains(sp.take(k)) by {
                    assert(k == 1);
                }
            }
        }
        let buf = tree.encode();
        let r = lift(fs.write_file("./.meltos/stage", buf.as_slice()));
        proof {
            if r is Ok {
                lemma_staging_path();
                lemma_write_frame(before, *fs, segs(staging_path()), tree_encoded(tree@), fam_stage());
                crate::io::lemma_written(before.fs_lookup(segs(staging_path())), segs(staging_path()), tree_encoded(tree@));
                if tree.wf() {
                    assert(buf@.len() == buf.len());
                    let fields = crate::encode::utf8_fields(crate::object::tree::flat(tree@));
                    assert(tree_encoded(tree@) == crate::object::tree::tree_tag() + crate::encode::frame(fields));
                    crate::encode::lemma_frame_fits(fields);
                    crate::object::tree::lemma_tree_roundtrip(tree@);
                }
            }
        }
        proof {
            if r is Ok && before.fs_exact() && objects_open(before) {
                lemma_staging_path();
                let sp = segs(staging_path());
                assert(sp.take(1) =~= seq![crate::io::layout::seg_meltos()]);
                assert(has_prefix(sp, seq![crate::io::layout::seg_meltos()]));
                assert(fs.fs_lookup(seq![crate::io::layout::seg_meltos()]) == after_write(
                    before.fs_lookup(seq![crate::io::layout::seg_meltos()]),
                    seq![crate::io::layout::seg_meltos()],
                    sp,
                    tree_encoded(tree@),
                ));
                assert(fs.fs_lookup(crate::io::layout::fam_objects()) == after_write(
                    before.fs_lookup(crate::io::layout::fam_objects()),
                    crate::io::layout::fam_objects(),
                    sp,
                    tree_encoded(tree@),
                ));
                assert(!has_prefix(crate::io::layout::fam_objects(), sp));
                assert(!has_prefix(sp, crate::io::layout::fam_objects()));
            }
        }
        r
    }

    /// The staging tree, where there is one.
    pub fn read<Fs: FileSystem>(&self, fs: &Fs) -> (r: Result<Option<TreeObj>>)
        requires
            fs.fs_inv(),
        ensures
            r matches Err(e) ==> is_data_error(e),
            r matches Ok(Some(t)) ==> t.wf() && (file_bytes(fs.fs_lookup(segs(staging_path()))) matches Some(b)
                && tree_decoded(b) == Some(t@)),
            r matches Ok(None) ==> fs.fs_lookup(segs(staging_path())) is None,
            (file_bytes(fs.fs_lookup(segs(staging_path()))) matches Some(b) && tree_decoded(b) is None) ==> r is Err,
            r matches Err(e) ==> (e is Io && (!fs.fs_exact() || fs.fs_lookup(segs(staging_path())) == Some(FsNode::Dir)))
                || (e == Error::InvalidObjBuffer && (file_bytes(fs.fs_lookup(segs(staging_path()))) matches Some(b)
                && tree_decoded(b) is None)),
            fs.fs_exact() && fs.fs_lookup(segs(staging_path())) is None ==> r == Ok::<Option<TreeObj>, Error>(None),
            fs.fs_exact() && staged_tree(*fs) is Some ==> r is Ok,
    {
        let buf = match lift(fs.read_file("./.meltos/stage"))? {
            Some(b) => b,
            None => return Ok(None),
        };
        let t = TreeObj::decode(buf.as_slice())?;
        Ok(Some(t))
    }

    /// Empties the staging tree.
    pub fn reset<Fs: FileSystem>(&self, fs: &mut Fs) -> (r: Result<()>)
        requires
            old(fs).fs_inv(),
        ensures
            r matches Err(e) ==> is_data_error(e),
            final(fs).fs_inv(),
            r is Ok ==> segs(staging_path()).len() > 0 && forall|q: Seq<Seq<char>>|
                #[trigger] final(fs).fs_lookup(q) == after_write(
                    old(fs).fs_lookup(q),
                    q,
                    segs(staging_path()),
                    tree_encoded(Seq::empty()),
                ),
            r is Ok ==> touches_only(*old(fs), *final(fs), fam_stage()),
            r is Ok ==> staged_tree(*final(fs)) == Some(Seq::<(Seq<char>, Seq<char>)>::empty()),
            old(fs).fs_exact() ==> final(fs).fs_exact(),
            old(fs).fs_exact() && objects_open(*old(fs)) ==> r is Ok,
    {
        let empty = TreeObj::new();
        assert(empty@ =~= Seq::<(Seq<char>, Seq<char>)>::empty());
        self.write_tree(fs, &empty)
    }
}

} // verus!
