//! Content-addressed objects. An object is stored under the hash of its
//! encoding, compressed with gzip.

use sha1::Digest;
use vstd::prelude::*;
use vstd::utf8::{decode_utf8, encode_utf8, valid_utf8};

use crate::compression::{gz_decoded, gz_encoded, gz_zip};
use crate::encode::{str_to_bytes, string_from_utf8};
use crate::error::{Error, Result};
use crate::assoc::keys_distinct;
use crate::encode::{fields_fit, utf8_fields};
use crate::object::commit::{CommitObj, CommitView, commit_decoded, commit_encoded, commit_strs, commit_tag};
use crate::object::delete::{DeleteObj, delete_decoded, delete_encoded, delete_tag};
use crate::object::file::{FileObj, file_decoded, file_encoded, file_tag};
use crate::object::tree::{TreeObj, flat, tree_decoded, tree_encoded, tree_tag};
use crate::util::{copy_bytes, str_eq};

pub mod commit;
pub mod delete;
pub mod file;
pub mod local_commits;
pub mod tree;

verus! {

/// The SHA-1 digest of a buffer, as the `sha1` crate computes it.
pub uninterp spec fn sha1_of(b: Seq<u8>) -> Seq<u8>;

/// Hashes a buffer with `sha1::Sha1::digest`.
///
/// The contract claims that the digest is the one named `sha1_of`, and that
/// it is twenty bytes long (the output size of SHA-1).
#[verifier::external_body]
fn sha1_digest(buf: &[u8]) -> (r: Vec<u8>)
    ensures
        r@ == sha1_of(buf@),
        r@.len() == 20,
{
    sha1::Sha1::digest(buf).to_vec()
}

/// The lowercase hexadecimal digits.
pub open spec fn hex_digits() -> Seq<char> {
    seq!['0', '1', '2', '3', '4', '5', '6', '7', '8', '9', 'a', 'b', 'c', 'd', 'e', 'f']
}

/// Bytes written as two lowercase hexadecimal digits each.
pub open spec fn hex_of(b: Seq<u8>) -> Seq<char>
    decreases b.len(),
{
    if b.len() == 0 {
        Seq::empty()
    } else {
        hex_of(b.drop_last()) + seq![hex_digits()[(b.last() / 16) as int], hex_digits()[(b.last() % 16) as int]]
    }
}

/// A nonempty string of lowercase hexadecimal digits.
pub open spec fn is_hex(h: Seq<char>) -> bool {
    h.len() > 0 && forall|i: int| 0 <= i < h.len() ==> #[trigger] hex_digits().contains(h[i])
}

/// Hexadecimal of nonempty bytes is a nonempty string of hexadecimal digits.
pub proof fn lemma_hex_of_is_hex(b: Seq<u8>)
    ensures
        hex_of(b).len() == 2 * b.len(),
        forall|i: int| 0 <= i < hex_of(b).len() ==> #[trigger] hex_digits().contains(hex_of(b)[i]),
    decreases b.len(),
{
    if b.len() > 0 {
        lemma_hex_of_is_hex(b.drop_last());
        let pre = hex_of(b.drop_last());
        let d = seq![hex_digits()[(b.last() / 16) as int], hex_digits()[(b.last() % 16) as int]];
        assert(hex_of(b) == pre + d);
        assert forall|i: int| 0 <= i < hex_of(b).len() implies #[trigger] hex_digits().contains(hex_of(b)[i]) by {
            if i < pre.len() {
                assert(hex_of(b)[i] == pre[i]);
            } else if i == pre.len() {
                assert(hex_of(b)[i] == hex_digits()[(b.last() / 16) as int]);
            } else {
                assert(hex_of(b)[i] == hex_digits()[(b.last() % 16) as int]);
            }
        }
    }
}

/// The hash of a buffer: its SHA-1 digest in hexadecimal.
pub open spec fn hash_of(b: Seq<u8>) -> Seq<char> {
    hex_of(sha1_of(b))
}

/// Writes bytes in lowercase hexadecimal.
fn to_hex(b: &Vec<u8>) -> (r: String)
    ensures
        r@ == hex_of(b@),
{
    let digits = "0123456789abcdef";
    proof {
        reveal_strlit("0123456789abcdef");
        assert(digits@ =~= hex_digits());
    }
    let mut r = String::new();
    let mut i: usize = 0;
    assert(b@.take(0) =~= Seq::<u8>::empty());
    while i < b.len()
        invariant
            i <= b@.len(),
            digits@ == hex_digits(),
            r@ == hex_of(b@.take(i as int)),
        decreases b@.len() - i,
    {
        let x = b[i];
        let hi = (x / 16) as usize;
        let lo = (x % 16) as usize;
        r.append(digits.substring_char(hi, hi + 1));
        r.append(digits.substring_char(lo, lo + 1));
        proof {
            let t = b@.take(i + 1);
            assert(t.drop_last() =~= b@.take(i as int));
            assert(t.last() == x);
            assert(r@ =~= hex_of(b@.take(i as int)) + seq![hex_digits()[(x / 16) as int], hex_digits()[(x % 16) as int]]);
        }
        i = i + 1;
    }
    assert(b@.take(b@.len() as int) =~= b@);
    r
}

/// The hash of an object: the hexadecimal SHA-1 digest of its encoding.
#[derive(Debug, Clone, PartialEq, Eq, Hash, PartialOrd, Ord)]
pub struct ObjHash(pub String);

impl ObjHash {
    /// The hash of a buffer.
    pub fn new(buf: &[u8]) -> (r: ObjHash)
        ensures
            r.0@ == hash_of(buf@),
            is_hex(r.0@),
    {
        let digest = sha1_digest(buf);
        proof {
            lemma_hex_of_is_hex(digest@);
        }
        ObjHash(to_hex(&digest))
    }

    pub fn as_str(&self) -> (r: &str)
        ensures
            r@ == self.0@,
    {
        self.0.as_str()
    }

    /// A copy of the hash.
    pub fn copy(&self) -> (r: ObjHash)
        ensures
            r.0@ == self.0@,
    {
        ObjHash(self.0.clone())
    }

    /// Whether two hashes are the same.
    pub fn same(&self, other: &ObjHash) -> (r: bool)
        ensures
            r == (self.0@ == other.0@),
    {
        str_eq(self.0.as_str(), other.0.as_str())
    }

    /// The hash as stored in a file: its UTF-8 bytes.
    pub fn encode(&self) -> (r: Vec<u8>)
        ensures
            r@ == encode_utf8(self.0@),
    {
        str_to_bytes(self.0.as_str())
    }

    /// A hash read from a file; an error where the bytes are not UTF-8.
    pub fn decode(buf: &[u8]) -> (r: Result<ObjHash>)
        ensures
            r is Ok <==> valid_utf8(buf@),
            r matches Ok(h) ==> h.0@ == decode_utf8(buf@),
            r is Err ==> r == Err::<ObjHash, Error>(Error::InvalidUtf8),
    {
        match string_from_utf8(copy_bytes(buf)) {
            Some(s) => Ok(ObjHash(s)),
            None => Err(Error::InvalidUtf8),
        }
    }
}

/// A buffer compressed with gzip.
#[derive(Debug, Clone, PartialEq, Eq, Hash, PartialOrd, Ord)]
pub struct CompressedBuf(pub Vec<u8>);

/// An object's encoding, its hash and its compressed form.
#[derive(Debug, Clone, PartialEq, Eq)]
pub struct ObjMeta {
    pub hash: ObjHash,
    pub compressed_buf: CompressedBuf,
    pub buf: Vec<u8>,
}

impl ObjMeta {
    /// The meta data of the encoding `b`.
    pub open spec fn is_meta_of(self, b: Seq<u8>) -> bool {
        &&& self.buf@ == b
        &&& self.hash.0@ == hash_of(b)
        &&& self.compressed_buf.0@ == gz_encoded(b)
        &&& gz_decoded(self.compressed_buf.0@) == Some(b)
    }

    /// Hashes and compresses an encoding. Fails where the compression fails.
    pub fn compress(buf: Vec<u8>) -> (r: Result<ObjMeta>)
        ensures
            r matches Ok(m) ==> m.is_meta_of(buf@) && is_hex(m.hash.0@),
            r is Ok,
    {
        let hash = ObjHash::new(buf.as_slice());
        match gz_zip(buf.as_slice()) {
            Some(z) => Ok(ObjMeta { hash, compressed_buf: CompressedBuf(z), buf }),
            None => Err(Error::Compression),
        }
    }
}

/// The bytes an encoding starts with.
pub open spec fn has_tag(b: Seq<u8>, tag: Seq<u8>) -> bool {
    tag.len() <= b.len() && b.take(tag.len() as int) == tag
}

/// Whether `b` starts with `tag`.
pub fn starts_with_tag(b: &[u8], tag: &Vec<u8>) -> (r: bool)
    ensures
        r == has_tag(b@, tag@),
{
    if tag.len() > b.len() {
        return false;
    }
    let mut i: usize = 0;
    while i < tag.len()
        invariant
            tag@.len() <= b@.len(),
            i <= tag@.len(),
            forall|j: int| 0 <= j < i ==> b@[j] == tag@[j],
        decreases tag@.len() - i,
    {
        if b[i] != tag[i] {
            assert(b@.take(tag@.len() as int)[i as int] != tag@[i as int]);
            return false;
        }
        i = i + 1;
    }
    assert(b@.take(tag@.len() as int) =~= tag@);
    true
}

/// A value with a byte encoding.
pub trait Encodable {
    /// The encoding.
    spec fn encoded(&self) -> Seq<u8>;

    fn encode(&self) -> (r: Vec<u8>)
        ensures
            r@ == self.encoded(),
    ;

    /// The meta data of the encoding: its hash and compressed form.
    fn as_meta(&self) -> (r: Result<ObjMeta>)
        ensures
            r matches Ok(m) ==> m.is_meta_of(self.encoded()) && is_hex(m.hash.0@),
            r is Ok,
    {
        ObjMeta::compress(self.encode())
    }
}

/// What an object holds.
pub enum ObjView {
    File(Seq<u8>),
    Delete(Seq<char>),
    Tree(Seq<(Seq<char>, Seq<char>)>),
    Commit(CommitView),
}

/// The encoding of an object.
pub open spec fn obj_encoded(v: ObjView) -> Seq<u8> {
    match v {
        ObjView::File(b) => file_encoded(b),
        ObjView::Delete(h) => delete_encoded(h),
        ObjView::Tree(es) => tree_encoded(es),
        ObjView::Commit(c) => commit_encoded(c),
    }
}

/// The object that an encoding holds; the kind is told by the leading tag.
pub open spec fn obj_decoded(b: Seq<u8>) -> Option<ObjView> {
    if has_tag(b, file_tag()) {
        match file_decoded(b) {
            Some(f) => Some(ObjView::File(f)),
            None => None,
        }
    } else if has_tag(b, delete_tag()) {
        match delete_decoded(b) {
            Some(h) => Some(ObjView::Delete(h)),
            None => None,
        }
    } else if has_tag(b, tree_tag()) {
        match tree_decoded(b) {
            Some(es) => Some(ObjView::Tree(es)),
            None => None,
        }
    } else if has_tag(b, commit_tag()) {
        match commit_decoded(b) {
            Some(c) => Some(ObjView::Commit(c)),
            None => None,
        }
    } else {
        None
    }
}

/// An object whose strings are short enough to be written, and whose tree
/// (if it is one) has one hash per path.
pub open spec fn obj_fits(v: ObjView) -> bool {
    match v {
        ObjView::File(_) => true,
        ObjView::Delete(_) => true,
        ObjView::Tree(es) => keys_distinct(es) && fields_fit(utf8_fields(flat(es))),
        ObjView::Commit(c) => fields_fit(utf8_fields(commit_strs(c))),
    }
}

/// A commit's encoding is never read as a tree.
pub proof fn lemma_commit_never_tree(c: CommitView)
    ensures
        !(obj_decoded(commit_encoded(c)) matches Some(ObjView::Tree(_))),
{
    let b = commit_encoded(c);
    assert(b[0] == 67u8);
    if has_tag(b, tree_tag()) {
        assert(b.take(5)[0] == b[0]);
    }
}

/// An object's encoding is read back as the same object.
pub proof fn lemma_obj_roundtrip(v: ObjView)
    requires
        obj_fits(v),
    ensures
        obj_decoded(obj_encoded(v)) == Some(v),
{
    let b = obj_encoded(v);
    match v {
        ObjView::File(f) => {
            file::lemma_file_roundtrip(f);
            assert(has_tag(b, file_tag()));
        },
        ObjView::Delete(h) => {
            delete::lemma_delete_roundtrip(h);
            assert(b[0] == 68u8);
            assert(!has_tag(b, file_tag())) by {
                if has_tag(b, file_tag()) {
                    assert(b.take(5)[0] == b[0]);
                }
            }
            assert(has_tag(b, delete_tag()));
        },
        ObjView::Tree(es) => {
            tree::lemma_tree_roundtrip(es);
            assert(b[0] == 84u8);
            assert(!has_tag(b, file_tag())) by {
                if has_tag(b, file_tag()) {
                    assert(b.take(5)[0] == b[0]);
                }
            }
            assert(!has_tag(b, delete_tag())) by {
                if has_tag(b, delete_tag()) {
                    assert(b.take(7)[0] == b[0]);
                }
            }
            assert(has_tag(b, tree_tag()));
        },
        ObjView::Commit(c) => {
            commit::lemma_commit_roundtrip(c);
            assert(b[0] == 67u8);
            assert(!has_tag(b, file_tag())) by {
                if has_tag(b, file_tag()) {
                    assert(b.take(5)[0] == b[0]);
                }
            }
            assert(!has_tag(b, delete_tag())) by {
                if has_tag(b, delete_tag()) {
                    assert(b.take(7)[0] == b[0]);
                }
            }
            assert(!has_tag(b, tree_tag())) by {
                if has_tag(b, tree_tag()) {
                    assert(b.take(5)[0] == b[0]);
                }
            }
            assert(has_tag(b, commit_tag()));
        },
    }
}

/// An object of any kind.
#[derive(Debug, Clone, PartialEq, Eq)]
pub enum Obj {
    File(FileObj),
    Delete(DeleteObj),
    Tree(TreeObj),
    Commit(CommitObj),
}

impl View for Obj {
    type V = ObjView;

    open spec fn view(&self) -> ObjView {
        match self {
            Obj::File(f) => ObjView::File(f@),
            Obj::Delete(d) => ObjView::Delete(d@),
            Obj::Tree(t) => ObjView::Tree(t@),
            Obj::Commit(c) => ObjView::Commit(c@),
        }
    }
}

impl Encodable for Obj {
    open spec fn encoded(&self) -> Seq<u8> {
        obj_encoded(self@)
    }

    fn encode(&self) -> (r: Vec<u8>) {
        match self {
            Obj::File(f) => f.encode(),
            Obj::Delete(d) => d.encode(),
            Obj::Tree(t) => t.encode(),
            Obj::Commit(c) => c.encode(),
        }
    }
}

impl Obj {
    pub open spec fn wf(self) -> bool {
        match self {
            Obj::Tree(t) => t.wf(),
            _ => true,
        }
    }

    /// Reads an object from its encoding.
    pub fn decode(buf: &[u8]) -> (r: Result<Obj>)
        ensures
            match r {
                Ok(o) => o.wf() && obj_decoded(buf@) == Some(o@),
                Err(e) => obj_decoded(buf@) is None && e == Error::InvalidObjBuffer,
            },
    {
        if starts_with_tag(buf, &file::file_tag_bytes()) {
            let f = FileObj::decode(buf)?;
            return Ok(Obj::File(f));
        }
        if starts_with_tag(buf, &delete::delete_tag_bytes()) {
            let d = DeleteObj::decode(buf)?;
            return Ok(Obj::Delete(d));
        }
        if starts_with_tag(buf, &tree::tree_tag_bytes()) {
            let t = TreeObj::decode(buf)?;
            return Ok(Obj::Tree(t));
        }
        if starts_with_tag(buf, &commit::commit_tag_bytes()) {
            let c = CommitObj::decode(buf)?;
            return Ok(Obj::Commit(c));
        }
        Err(Error::InvalidObjBuffer)
    }

    /// Reads an object from its compressed encoding.
    pub fn expand(compressed: &CompressedBuf) -> (r: Result<Obj>)
        ensures
            match gz_decoded(compressed.0@) {
                Some(b) => match r {
                    Ok(o) => o.wf() && obj_decoded(b) == Some(o@),
                    Err(e) => obj_decoded(b) is None && e == Error::InvalidObjBuffer,
                },
                None => r == Err::<Obj, Error>(Error::Compression),
            },
    {
        match crate::compression::gz_unzip(compressed.0.as_slice()) {
            Some(b) => Obj::decode(b.as_slice()),
            None => Err(Error::Compression),
        }
    }

    pub fn file(self) -> (r: Result<FileObj>)
        ensures
            match self {
                Obj::File(f) => r == Ok::<FileObj, Error>(f),
                _ => r == Err::<FileObj, Error>(Error::InvalidObjBuffer),
            },
    {
        match self {
            Obj::File(f) => Ok(f),
            _ => Err(Error::InvalidObjBuffer),
        }
    }

    pub fn tree(self) -> (r: Result<TreeObj>)
        ensures
            match self {
                Obj::Tree(t) => r == Ok::<TreeObj, Error>(t),
                _ => r == Err::<TreeObj, Error>(Error::InvalidObjBuffer),
            },
    {
        match self {
            Obj::Tree(t) => Ok(t),
            _ => Err(Error::InvalidObjBuffer),
        }
    }

    pub fn commit(self) -> (r: Result<CommitObj>)
        ensures
            match self {
                Obj::Commit(c) => r == Ok::<CommitObj, Error>(c),
                _ => r == Err::<CommitObj, Error>(Error::InvalidObjBuffer),
            },
    {
        match self {
            Obj::Commit(c) => Ok(c),
            _ => Err(Error::InvalidObjBuffer),
        }
    }
}

} // verus!
