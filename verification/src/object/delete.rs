//! Delete objects: the mark that a file was removed, holding the hash of its
//! last content.

use vstd::prelude::*;
use vstd::utf8::{decode_utf8, encode_utf8, valid_utf8};

use crate::encode::{slice_range, string_from_utf8, str_to_bytes};
use crate::error::{Error, Result};
use crate::object::{Encodable, ObjHash, has_tag, starts_with_tag};

verus! {

/// The bytes a delete object's encoding starts with: `DELETE` and a zero byte.
pub open spec fn delete_tag() -> Seq<u8> {
    seq![68u8, 69u8, 76u8, 69u8, 84u8, 69u8, 0u8]
}

pub fn delete_tag_bytes() -> (r: Vec<u8>)
    ensures
        r@ == delete_tag(),
{
    let r = vec![68u8, 69u8, 76u8, 69u8, 84u8, 69u8, 0u8];
    assert(r@ =~= delete_tag());
    r
}

/// The encoding of a delete object holding the hash `h`.
pub open spec fn delete_encoded(h: Seq<char>) -> Seq<u8> {
    delete_tag() + encode_utf8(h)
}

/// The hash that a delete object's encoding holds.
pub open spec fn delete_decoded(b: Seq<u8>) -> Option<Seq<char>> {
    if has_tag(b, delete_tag()) && valid_utf8(b.skip(7)) {
        Some(decode_utf8(b.skip(7)))
    } else {
        None
    }
}

/// A delete object.
#[derive(Debug, Clone, PartialEq, Eq)]
pub struct DeleteObj(pub ObjHash);

impl View for DeleteObj {
    type V = Seq<char>;

    open spec fn view(&self) -> Seq<char> {
        self.0.0@
    }
}

impl Encodable for DeleteObj {
    open spec fn encoded(&self) -> Seq<u8> {
        delete_encoded(self@)
    }

    fn encode(&self) -> (r: Vec<u8>) {
        let mut r = delete_tag_bytes();
        let mut body = str_to_bytes(self.0.0.as_str());
        r.append(&mut body);
        r
    }
}

impl DeleteObj {
    /// Reads a delete object from its encoding.
    pub fn decode(buf: &[u8]) -> (r: Result<DeleteObj>)
        ensures
            match r {
                Ok(d) => delete_decoded(buf@) == Some(d@),
                Err(e) => delete_decoded(buf@) is None && e == Error::InvalidObjBuffer,
            },
    {
        if !starts_with_tag(buf, &delete_tag_bytes()) {
            return Err(Error::InvalidObjBuffer);
        }
        let body = slice_range(buf, 7, buf.len());
        assert(body@ =~= buf@.skip(7));
        match string_from_utf8(body) {
            Some(s) => Ok(DeleteObj(ObjHash(s))),
            None => Err(Error::InvalidObjBuffer),
        }
    }
}

/// A delete object's encoding is read back.
pub proof fn lemma_delete_roundtrip(h: Seq<char>)
    ensures
        delete_decoded(delete_encoded(h)) == Some(h),
{
    broadcast use vstd::utf8::encode_utf8_valid_utf8, vstd::utf8::encode_utf8_decode_utf8;

    assert(delete_encoded(h).take(7) =~= delete_tag());
    assert(delete_encoded(h).skip(7) =~= encode_utf8(h));
}

} // verus!
