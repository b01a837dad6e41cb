//! Objects, kept compressed in `.meltos/objects/{hash}`.

use vstd::prelude::*;

use crate::compression::{gz_decoded, gz_encoded};
use crate::error::{Error, Result, is_data_error};
use crate::file_system::{
    FileSystem, FsNode, after_write, is_file, lemma_writes_applied_push, lists_files, write_allowed,
    writes_applied,
};
use crate::io::bundle::{BundleObject, objs_size};
use crate::io::{concat, file_bytes, file_name, lift};
use crate::object::commit::{CommitHash, CommitObj};
use crate::object::file::FileObj;
use crate::object::tree::TreeObj;
use crate::object::{CompressedBuf, Encodable, Obj, ObjHash, ObjView, hash_of, obj_decoded};
use crate::io::layout::{
    fam_objects, lemma_obj_path, lemma_obj_path_hex, lemma_objects_open_kept, lemma_objects_open_writes, lemma_write_frame,
    objects_open, outside, touches_only,
};
use crate::path::{has_prefix, segs};

verus! {

/// The files that a list of bundled objects is stored at.
pub open spec fn obj_paths(objs: Seq<BundleObject>) -> Seq<Seq<Seq<char>>> {
    objs.map_values(|o: BundleObject| segs(obj_path(o.hash.0@)))
}

/// The compressed buffers of a list of bundled objects.
pub open spec fn obj_bufs(objs: Seq<BundleObject>) -> Seq<Seq<u8>> {
    objs.map_values(|o: BundleObject| o.compressed_buf.0@)
}

/// The file that holds the object with a given hash.
pub open spec fn obj_path(h: Seq<char>) -> Seq<char> {
    ".meltos/objects/"@ + h
}

/// The object that a file entry holds, read through gzip.
pub open spec fn obj_in(n: Option<FsNode>) -> Option<ObjView> {
    match file_bytes(n) {
        Some(z) => match gz_decoded(z) {
            Some(b) => obj_decoded(b),
            None => None,
        },
        None => None,
    }
}

/// The object that the file at `obj_path(h)` holds, read through gzip.
pub open spec fn stored_obj<Fs: FileSystem>(fs: Fs, h: Seq<char>) -> Option<ObjView> {
    obj_in(fs.fs_lookup(segs(obj_path(h))))
}

/// What writing the compressed buffer `z` under the hash `h` does.
pub open spec fn obj_written<Fs: FileSystem>(before: Fs, after: Fs, h: Seq<char>, z: Seq<u8>) -> bool {
    &&& segs(obj_path(h)).len() > 0
    &&& forall|q: Seq<Seq<char>>|
        #[trigger] after.fs_lookup(q) == after_write(before.fs_lookup(q), q, segs(obj_path(h)), z)
}

/// The compressed object sits in a file below `.meltos/objects` named by its hash.
pub open spec fn stored_under<Fs: FileSystem>(fs: Fs, o: BundleObject) -> bool {
    exists|q: Seq<Seq<char>>|
        #![trigger fs.fs_lookup(q)]
        has_prefix(q, segs(".meltos/objects"@)) && q.len() > 0 && q.last() == o.hash.0@
            && file_bytes(fs.fs_lookup(q)) == Some(o.compressed_buf.0@)
}

/// `o` is the object file named by the path string `f`: its hash is the
/// file's name and its buffer what the file holds.
pub open spec fn listed_obj<Fs: FileSystem>(fs: Fs, f: String, o: BundleObject) -> bool {
    &&& segs(f@).len() > 0
    &&& o.hash.0@ == segs(f@).last()
    &&& fs.fs_lookup(segs(f@)) == Some(FsNode::File(o.compressed_buf.0@))
}

/// `files` names, once each, every file below `.meltos/objects`.
pub open spec fn lists_objects<Fs: FileSystem>(fs: Fs, files: Seq<String>) -> bool {
    lists_files(Set::new(|q: Seq<Seq<char>>| is_file(fs.fs_lookup(q))), segs(".meltos/objects"@), files)
}

/// `v` holds, once each, every file below `.meltos/objects`.
pub open spec fn all_objs<Fs: FileSystem>(fs: Fs, v: Seq<BundleObject>) -> bool {
    exists|files: Seq<String>|
        #[trigger] lists_objects(fs, files)
            && v.len() == files.len() && forall|i: int| 0 <= i < v.len() ==> #[trigger] listed_obj(fs, files[i], v[i])
}

/// Reads and writes objects.
pub struct ObjIo;

impl ObjIo {
    pub fn new() -> (r: ObjIo) {
        ObjIo
    }

    fn path(&self, hash: &ObjHash) -> (r: String)
        ensures
            r@ == obj_path(hash.0@),
    {
        concat(".meltos/objects/", hash.0.as_str())
    }

    /// The commit object with a given hash; an error where there is none.
    pub fn read_to_commit<Fs: FileSystem>(&self, fs: &Fs, object_hash: &CommitHash) -> (r: Result<CommitObj>)
        requires
            fs.fs_inv(),
        ensures
            r matches Err(e) ==> is_data_error(e),
            r matches Ok(c) ==> stored_obj(*fs, object_hash.0.0@) == Some(ObjView::Commit(c@)),
            stored_obj(*fs, object_hash.0.0@) is None ==> r is Err,
            fs.fs_exact() ==> (stored_obj(*fs, object_hash.0.0@) matches Some(ObjView::Commit(_)) ==> r is Ok),
            fs.fs_exact() && fs.fs_lookup(segs(obj_path(object_hash.0.0@))) is None ==> (r matches Err(Error::NotfoundObj(h))
                && h.0@ == object_hash.0.0@),
    {
        let obj = self.try_read_obj(fs, &object_hash.0)?;
        obj.commit()
    }

    /// The file object with a given hash; an error where there is none.
    pub fn read_to_file<Fs: FileSystem>(&self, fs: &Fs, object_hash: &ObjHash) -> (r: Result<FileObj>)
        requires
            fs.fs_inv(),
        ensures
            r matches Err(e) ==> is_data_error(e),
            r matches Ok(f) ==> stored_obj(*fs, object_hash.0@) == Some(ObjView::File(f@)),
            stored_obj(*fs, object_hash.0@) is None ==> r is Err,
    {
        let obj = self.try_read_obj(fs, object_hash)?;
        obj.file()
    }

    /// The file object with a given hash, where there is one.
    pub fn try_read_to_file<Fs: FileSystem>(&self, fs: &Fs, object_hash: &ObjHash) -> (r: Result<Option<FileObj>>)
        requires
            fs.fs_inv(),
        ensures
            r matches Err(e) ==> is_data_error(e),
            r matches Ok(Some(f)) ==> stored_obj(*fs, object_hash.0@) == Some(ObjView::File(f@)),
            r matches Ok(None) ==> fs.fs_lookup(segs(obj_path(object_hash.0@))) is None,
    {
        match self.read_obj(fs, object_hash)? {
            Some(obj) => {
                let f = obj.file()?;
                Ok(Some(f))
            },
            None => Ok(None),
        }
    }

    /// The tree object with a given hash; an error where there is none.
    pub fn read_to_tree<Fs: FileSystem>(&self, fs: &Fs, object_hash: &ObjHash) -> (r: Result<TreeObj>)
        requires
            fs.fs_inv(),
        ensures
            r matches Err(e) ==> is_data_error(e),
            r matches Ok(t) ==> t.wf() && stored_obj(*fs, object_hash.0@) == Some(ObjView::Tree(t@)),
            stored_obj(*fs, object_hash.0@) is None ==> r is Err,
            fs.fs_exact() ==> (stored_obj(*fs, object_hash.0@) matches Some(ObjView::Tree(_)) ==> r is Ok),
    {
        let obj = self.try_read_obj(fs, object_hash)?;
        obj.tree()
    }

    /// The object with a given hash; an error where there is none.
    pub fn try_read_obj<Fs: FileSystem>(&self, fs: &Fs, object_hash: &ObjHash) -> (r: Result<Obj>)
        requires
            fs.fs_inv(),
        ensures
            r matches Err(e) ==> is_data_error(e),
            r matches Ok(o) ==> o.wf() && stored_obj(*fs, object_hash.0@) == Some(o@),
            stored_obj(*fs, object_hash.0@) is None ==> r is Err,
            fs.fs_exact() && stored_obj(*fs, object_hash.0@) is Some ==> r is Ok,
            fs.fs_exact() && fs.fs_lookup(segs(obj_path(object_hash.0@))) is None ==> (r matches Err(Error::NotfoundObj(h))
                && h.0@ == object_hash.0@),
    {
        match self.read_obj(fs, object_hash)? {
            Some(obj) => Ok(obj),
            None => Err(Error::NotfoundObj(object_hash.copy())),
        }
    }

    /// The object with a given hash, where there is one.
    pub fn read_obj<Fs: FileSystem>(&self, fs: &Fs, object_hash: &ObjHash) -> (r: Result<Option<Obj>>)
        requires
            fs.fs_inv(),
        ensures
            r matches Err(e) ==> is_data_error(e),
            r matches Ok(Some(o)) ==> o.wf() && stored_obj(*fs, object_hash.0@) == Some(o@),
            r matches Ok(None) ==> fs.fs_lookup(segs(obj_path(object_hash.0@))) is None,
            (file_bytes(fs.fs_lookup(segs(obj_path(object_hash.0@)))) is Some && stored_obj(*fs, object_hash.0@) is None) ==> r is Err,
            fs.fs_exact() && (fs.fs_lookup(segs(obj_path(object_hash.0@))) is None || stored_obj(*fs, object_hash.0@) is Some)
                ==> r is Ok,
    {
        let buf = match self.read(fs, object_hash)? {
            Some(b) => b,
            None => return Ok(None),
        };
        let obj = Obj::expand(&buf)?;
        Ok(Some(obj))
    }

    /// The total size of the compressed objects (the sum stops growing at `usize::MAX`).
    pub fn total_objs_size<Fs: FileSystem>(&self, fs: &Fs) -> (r: Result<usize>)
        requires
            fs.fs_inv(),
        ensures
            r matches Err(e) ==> is_data_error(e),
            r matches Ok(n) ==> exists|v: Seq<BundleObject>|
                #[trigger] all_objs(*fs, v) && n == if objs_size(v) < usize::MAX {
                    objs_size(v)
                } else {
                    usize::MAX as int
                },
            fs.fs_exact() ==> r is Ok,
    {
        let objs = self.read_all(fs)?;
        let mut total: usize = 0;
        let mut i: usize = 0;
        while i < objs.len()
            invariant
                i <= objs@.len(),
                total == if objs_size(objs@.take(i as int)) < usize::MAX {
                    objs_size(objs@.take(i as int))
                } else {
                    usize::MAX as int
                },
            decreases objs@.len() - i,
        {
            proof {
                assert(objs@.take(i + 1).drop_last() =~= objs@.take(i as int));
                crate::io::bundle::lemma_objs_size_nonneg(objs@.take(i as int));
            }
            total = total.saturating_add(objs[i].compressed_buf.0.len());
            i = i + 1;
        }
        proof {
            assert(objs@.take(i as int) =~= objs@);
        }
        Ok(total)
    }

    /// Every stored object, compressed, with its hash taken from its file's name.
    pub fn read_all<Fs: FileSystem>(&self, fs: &Fs) -> (r: Result<Vec<BundleObject>>)
        requires
            fs.fs_inv(),
        ensures
            r matches Err(e) ==> is_data_error(e),
            r matches Ok(v) ==> forall|i: int| 0 <= i < v@.len() ==> #[trigger] stored_under(*fs, v@[i]),
            r matches Ok(v) ==> all_objs(*fs, v@),
            fs.fs_exact() ==> r is Ok,
    {
        proof {
            crate::io::layout::lemma_objects_dir();
        }
        let files = lift(fs.all_files_in(".meltos/objects"))?;
        let ghost old_exact = fs.fs_exact();
        let mut objs: Vec<BundleObject> = Vec::new();
        let mut i: usize = 0;
        while i < files.len()
            invariant
                fs.fs_inv(),
                i <= files@.len(),
                lists_files(
                    Set::new(|q: Seq<Seq<char>>| is_file(fs.fs_lookup(q))),
                    segs(".meltos/objects"@),
                    files@,
                ),
                forall|j: int| 0 <= j < objs@.len() ==> #[trigger] stored_under(*fs, objs@[j]),
                segs(".meltos/objects"@).len() > 0,
                objs@.len() == i,
                forall|j: int| 0 <= j < i ==> #[trigger] listed_obj(*fs, files@[j], objs@[j]),
                fs.fs_exact() == old_exact,
            decreases files@.len() - i,
        {
            proof {
                assert(has_prefix(segs(files@[i as int]@), segs(".meltos/objects"@)));
            }
            let buf = lift(fs.try_read_file(files[i].as_str()))?;
            match file_name(files[i].as_str()) {
                Some(name) => {
                    let o = BundleObject { hash: ObjHash(name), compressed_buf: CompressedBuf(buf) };
                    proof {
                        let q = segs(files@[i as int]@);
                        assert(has_prefix(q, segs(".meltos/objects"@)));
                        assert(stored_under(*fs, o));
                    }
                    objs.push(o);
                },
                None => {},
            }
            i = i + 1;
        }
        proof {
            assert(lists_objects(*fs, files@));
            assert(all_objs(*fs, objs@));
        }
        Ok(objs)
    }

    /// The compressed object with a given hash, where there is one.
    pub fn read<Fs: FileSystem>(&self, fs: &Fs, object_hash: &ObjHash) -> (r: Result<Option<CompressedBuf>>)
        requires
            fs.fs_inv(),
        ensures
            r matches Err(e) ==> is_data_error(e),
            r matches Ok(Some(z)) ==> file_bytes(fs.fs_lookup(segs(obj_path(object_hash.0@)))) == Some(z.0@),
            r matches Ok(None) ==> fs.fs_lookup(segs(obj_path(object_hash.0@))) is None,
            fs.fs_exact() && fs.fs_lookup(segs(obj_path(object_hash.0@))) != Some(FsNode::Dir) ==> r is Ok,
    {
        let path = self.path(object_hash);
        match lift(fs.read_file(path.as_str()))? {
            Some(b) => Ok(Some(CompressedBuf(b))),
            None => Ok(None),
        }
    }

    /// Stores an object under the hash of its encoding.
    pub fn write_obj<Fs: FileSystem, T: Encodable>(&self, fs: &mut Fs, obj: &T) -> (r: Result<()>)
        requires
            old(fs).fs_inv(),
        ensures
            r matches Err(e) ==> is_data_error(e),
            final(fs).fs_inv(),
            r is Ok ==> obj_written(*old(fs), *final(fs), hash_of(obj.encoded()), gz_encoded(obj.encoded())),
            r is Ok ==> gz_decoded(gz_encoded(obj.encoded())) == Some(obj.encoded()),
            r is Ok ==> touches_only(*old(fs), *final(fs), fam_objects()),
            old(fs).fs_exact() ==> final(fs).fs_exact(),
            old(fs).fs_exact() && objects_open(*old(fs)) ==> r is Ok && objects_open(*final(fs)),
            r is Ok ==> crate::object::is_hex(hash_of(obj.encoded())),
    {
        let meta = obj.as_meta()?;
        let ghost before = *fs;
        proof {
            if fs.fs_exact() && objects_open(*fs) {
                lemma_objects_open_writes(*fs, meta.hash.0@);
            }
        }
        let r = self.write(fs, &meta.hash, &meta.compressed_buf);
        proof {
            if r is Ok {
                lemma_obj_path(meta.hash.0@);
                if before.fs_exact() && objects_open(before) {
                    lemma_obj_path_hex(meta.hash.0@);
                    lemma_objects_open_kept(before, *fs, segs(obj_path(meta.hash.0@)), meta.compressed_buf.0@);
                }
            }
        }
        r
    }

    /// Stores compressed objects under their hashes, in turn.
    pub fn write_all<Fs: FileSystem>(&self, fs: &mut Fs, objs: &Vec<BundleObject>) -> (r: Result<()>)
        requires
            old(fs).fs_inv(),
        ensures
            r matches Err(e) ==> is_data_error(e),
            final(fs).fs_inv(),
            r is Ok ==> forall|q: Seq<Seq<char>>|
                #[trigger] final(fs).fs_lookup(q) == writes_applied(old(fs).fs_lookup(q), q, obj_paths(objs@), obj_bufs(objs@)),
            r is Ok ==> touches_only(*old(fs), *final(fs), fam_objects()),
            forall|ws: Seq<Seq<Seq<char>>>|
                old(fs).fs_exact() && #[trigger] crate::file_system::writes_allowed(*old(fs), ws) && (forall|k: int|
                    0 <= k < objs@.len() ==> ws.contains(#[trigger] obj_paths(objs@)[k])) ==> r is Ok && final(fs).fs_exact()
                    && crate::file_system::writes_allowed(*final(fs), ws),
    {
        let ghost s0 = *fs;
        let ghost ps = obj_paths(objs@);
        let ghost bs = obj_bufs(objs@);
        let mut i: usize = 0;
        proof {
            assert forall|q: Seq<Seq<char>>| #[trigger] fs.fs_lookup(q) == writes_applied(s0.fs_lookup(q), q, ps.take(0), bs.take(0)) by {}
            assert forall|q: Seq<Seq<char>>| outside(q, fam_objects()) implies #[trigger] fs.fs_lookup(q) == s0.fs_lookup(q) by {}
        }
        while i < objs.len()
            invariant
                fs.fs_inv(),
                i <= objs@.len(),
                ps == obj_paths(objs@),
                bs == obj_bufs(objs@),
                forall|q: Seq<Seq<char>>| #[trigger] fs.fs_lookup(q) == writes_applied(s0.fs_lookup(q), q, ps.take(i as int), bs.take(i as int)),
                touches_only(s0, *fs, fam_objects()),
                s0.fs_exact() ==> fs.fs_exact(),
                *old(fs) == s0,
                forall|ws: Seq<Seq<Seq<char>>>|
                    s0.fs_exact() && #[trigger] crate::file_system::writes_allowed(s0, ws) && (forall|k: int|
                        0 <= k < objs@.len() ==> ws.contains(#[trigger] obj_paths(objs@)[k])) ==> crate::file_system::writes_allowed(*fs, ws),
            decreases objs@.len() - i,
        {
            let ghost prev = *fs;
            proof {
                assert forall|ws: Seq<Seq<Seq<char>>>|
                    s0.fs_exact() && #[trigger] crate::file_system::writes_allowed(s0, ws) && (forall|k: int|
                        0 <= k < objs@.len() ==> ws.contains(#[trigger] obj_paths(objs@)[k])) implies crate::file_system::write_allowed(
                        crate::file_system::files_of(*fs),
                        ps[i as int],
                    ) by {
                    assert(ws.contains(ps[i as int]));
                    let j = choose|j: int| 0 <= j < ws.len() && ws[j] == ps[i as int];
                    assert(crate::file_system::write_allowed(crate::file_system::files_of(*fs), ws[j]));
                }
            }
            self.write(fs, &objs[i].hash, &objs[i].compressed_buf)?;
            proof {
                assert(ps.take(i + 1) =~= ps.take(i as int).push(ps[i as int]));
                assert(bs.take(i + 1) =~= bs.take(i as int).push(bs[i as int]));
                assert forall|q: Seq<Seq<char>>| #[trigger] fs.fs_lookup(q) == writes_applied(s0.fs_lookup(q), q, ps.take(i + 1), bs.take(i + 1)) by {
                    lemma_writes_applied_push(s0.fs_lookup(q), q, ps.take(i as int), bs.take(i as int), ps[i as int], bs[i as int]);
                    assert(prev.fs_lookup(q) == writes_applied(s0.fs_lookup(q), q, ps.take(i as int), bs.take(i as int)));
                }
                assert forall|q: Seq<Seq<char>>| outside(q, fam_objects()) implies #[trigger] fs.fs_lookup(q) == s0.fs_lookup(q) by {
                    assert(prev.fs_lookup(q) == s0.fs_lookup(q));
                }
                assert forall|ws: Seq<Seq<Seq<char>>>|
                    s0.fs_exact() && #[trigger] crate::file_system::writes_allowed(s0, ws) && (forall|k: int|
                        0 <= k < objs@.len() ==> ws.contains(#[trigger] obj_paths(objs@)[k])) implies crate::file_system::writes_allowed(*fs, ws) by {
                    assert(ws.contains(ps[i as int]));
                    crate::file_system::lemma_writes_allowed_kept(prev, *fs, ws, ps[i as int], bs[i as int]);
                }
            }
            i = i + 1;
        }
        proof {
            assert(ps.take(i as int) =~= ps);
            assert(bs.take(i as int) =~= bs);
        }
        Ok(())
    }

    /// Stores a compressed object under a hash.
    pub fn write<Fs: FileSystem>(&self, fs: &mut Fs, hash: &ObjHash, compressed_buf: &CompressedBuf) -> (r: Result<()>)
        requires
            old(fs).fs_inv(),
        ensures
            r matches Err(e) ==> is_data_error(e),
            final(fs).fs_inv(),
            r is Ok ==> obj_written(*old(fs), *final(fs), hash.0@, compressed_buf.0@),
            r is Ok ==> touches_only(*old(fs), *final(fs), fam_objects()),
            old(fs).fs_exact() ==> final(fs).fs_exact(),
            old(fs).fs_exact() && write_allowed(Set::new(|q: Seq<Seq<char>>| is_file(old(fs).fs_lookup(q))), segs(obj_path(hash.0@)))
                ==> r is Ok,
    {
        let ghost before = *fs;
        let path = self.path(hash);
        let r = lift(fs.write_file(path.as_str(), compressed_buf.0.as_slice()));
        proof {
            if r is Ok {
                lemma_obj_path(hash.0@);
                lemma_write_frame(before, *fs, segs(obj_path(hash.0@)), compressed_buf.0@, fam_objects());
            }
        }
        r
    }
}

/// Writing an object under one hexadecimal hash leaves what is stored under
/// every other hexadecimal hash.
pub proof fn lemma_obj_kept_hex<Fs: FileSystem>(before: Fs, after: Fs, h: Seq<char>, z: Seq<u8>, x: Seq<char>)
    requires
        obj_written(before, after, h, z),
        crate::object::is_hex(h),
        crate::object::is_hex(x),
        x != h,
    ensures
        stored_obj(after, x) == stored_obj(before, x),
        after.fs_lookup(segs(obj_path(x))) == before.fs_lookup(segs(obj_path(x))),
{
    crate::io::layout::lemma_obj_path_hex(x);
    crate::io::layout::lemma_obj_path_hex(h);
    let qx = segs(obj_path(x));
    let wo = segs(obj_path(h));
    assert(qx.len() == wo.len());
    assert(qx[qx.len() - 1] == x && wo[wo.len() - 1] == h);
    assert(!has_prefix(qx, wo)) by {
        if has_prefix(qx, wo) {
            assert(qx.subrange(0, wo.len() as int)[wo.len() - 1] == wo[wo.len() - 1]);
        }
    }
    assert(after.fs_lookup(qx) == after_write(before.fs_lookup(qx), qx, wo, z));
}

/// The hexadecimal hash `h` names a stored object whose encoding hashes to `h`.
pub open spec fn names_stored<Fs: FileSystem>(fs: Fs, h: Seq<char>) -> bool {
    &&& crate::object::is_hex(h)
    &&& stored_obj(fs, h) matches Some(o)
    &&& hash_of(crate::object::obj_encoded(o)) == h
}

/// Writing an object keeps every hash naming a stored object, and the
/// written object's hash names one from then on.
pub proof fn lemma_names_stored_after_write<Fs: FileSystem>(before: Fs, after: Fs, v: ObjView, h: Seq<char>)
    requires
        crate::object::obj_fits(v),
        crate::object::is_hex(hash_of(crate::object::obj_encoded(v))),
        obj_written(before, after, hash_of(crate::object::obj_encoded(v)), gz_encoded(crate::object::obj_encoded(v))),
        gz_decoded(gz_encoded(crate::object::obj_encoded(v))) == Some(crate::object::obj_encoded(v)),
    ensures
        names_stored(after, hash_of(crate::object::obj_encoded(v))),
        names_stored(before, h) ==> names_stored(after, h),
{
    let hv = hash_of(crate::object::obj_encoded(v));
    lemma_obj_read_after_write(before, after, v);
    if names_stored(before, h) && h != hv {
        lemma_obj_kept_hex(before, after, hv, gz_encoded(crate::object::obj_encoded(v)), h);
    }
}

/// An object read after it was written is the written object.
pub proof fn lemma_obj_read_after_write<Fs: FileSystem>(before: Fs, after: Fs, v: ObjView)
    requires
        crate::object::obj_fits(v),
        obj_written(before, after, hash_of(crate::object::obj_encoded(v)), gz_encoded(crate::object::obj_encoded(v))),
        gz_decoded(gz_encoded(crate::object::obj_encoded(v))) == Some(crate::object::obj_encoded(v)),
    ensures
        stored_obj(after, hash_of(crate::object::obj_encoded(v))) == Some(v),
{
    let h = hash_of(crate::object::obj_encoded(v));
    crate::object::lemma_obj_roundtrip(v);
    assert(after.fs_lookup(segs(obj_path(h))) == after_write(
        before.fs_lookup(segs(obj_path(h))),
        segs(obj_path(h)),
        segs(obj_path(h)),
        gz_encoded(crate::object::obj_encoded(v)),
    ));
}

/// After an object is written, what is stored under any hash is what was
/// stored before, what was written, or nothing.
pub proof fn lemma_obj_after_write<Fs: FileSystem>(before: Fs, after: Fs, h: Seq<char>, z: Seq<u8>, h0: Seq<char>)
    requires
        obj_written(before, after, h, z),
    ensures
        stored_obj(after, h0) == stored_obj(before, h0) || stored_obj(after, h0) == obj_in(Some(FsNode::File(z)))
            || stored_obj(after, h0) is None,
{
    let q = segs(obj_path(h0));
    assert(after.fs_lookup(q) == after_write(before.fs_lookup(q), q, segs(obj_path(h)), z));
}

} // verus!
