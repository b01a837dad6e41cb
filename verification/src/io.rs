//! Reading and writing the repository's data through a file system.

use vstd::prelude::*;
use vstd::utf8::{decode_utf8, encode_utf8, valid_utf8};

use crate::error::{Error, FsError, Result};
use crate::file_system::{FsNode, after_write};
use crate::path::{segs, strs_view};

pub mod atomic;
pub mod bundle;
pub mod commit_hashes;
pub mod commit_obj;
pub mod layout;
pub mod trace_tree;
pub mod workspace;

verus! {

/// The content of a file entry.
pub open spec fn file_bytes(n: Option<FsNode>) -> Option<Seq<u8>> {
    match n {
        Some(FsNode::File(b)) => Some(b),
        _ => None,
    }
}

/// The text that UTF-8 bytes spell.
pub open spec fn text_decoded(b: Seq<u8>) -> Option<Seq<char>> {
    if valid_utf8(b) {
        Some(decode_utf8(b))
    } else {
        None
    }
}

/// The text that a file entry holds.
pub open spec fn text_at(n: Option<FsNode>) -> Option<Seq<char>> {
    match file_bytes(n) {
        Some(b) => text_decoded(b),
        None => None,
    }
}

/// The entry is a file whose bytes are not UTF-8.
pub open spec fn not_text(n: Option<FsNode>) -> bool {
    match file_bytes(n) {
        Some(b) => !valid_utf8(b),
        None => false,
    }
}

/// Text written as UTF-8 is read back.
pub proof fn lemma_text_roundtrip(s: Seq<char>)
    ensures
        text_decoded(encode_utf8(s)) == Some(s),
{
    broadcast use vstd::utf8::encode_utf8_valid_utf8, vstd::utf8::encode_utf8_decode_utf8;

}

/// After a file is written at a non-root path, the path holds exactly what was written.
pub proof fn lemma_written(old: Option<FsNode>, p: Seq<Seq<char>>, buf: Seq<u8>)
    ensures
        after_write(old, p, p, buf) == Some(FsNode::File(buf)),
{
}

/// A file system error, as an error of the repository.
pub fn lift<T>(r: core::result::Result<T, FsError>) -> (out: Result<T>)
    ensures
        match r {
            Ok(v) => out == Ok::<T, Error>(v),
            Err(e) => out == Err::<T, Error>(Error::Io(e)),
        },
{
    match r {
        Ok(v) => Ok(v),
        Err(e) => Err(Error::Io(e)),
    }
}

/// `a` followed by `b`.
pub fn concat(a: &str, b: &str) -> (r: String)
    ensures
        r@ == a@ + b@,
{
    let mut r = a.to_owned();
    r.append(b);
    r
}

/// The last segment of a path: the name of the entry it names.
pub fn file_name(path: &str) -> (r: Option<String>)
    ensures
        match r {
            Some(n) => segs(path@).len() > 0 && n@ == segs(path@).last(),
            None => segs(path@).len() == 0,
        },
{
    let ss = crate::path::as_schemes(path);
    if ss.len() == 0 {
        None
    } else {
        proof {
            assert(strs_view(ss@).last() == ss@[ss@.len() - 1]@);
        }
        Some(ss[ss.len() - 1].clone())
    }
}

} // verus!
