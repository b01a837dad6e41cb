//! File objects: the content of a file of the workspace.

use vstd::prelude::*;

use crate::error::{Error, Result};
use crate::object::{Encodable, has_tag, starts_with_tag};
use crate::util::copy_bytes;

verus! {

/// The bytes a file object's encoding starts with: `FILE` and a zero byte.
pub open spec fn file_tag() -> Seq<u8> {
    seq![70u8, 73u8, 76u8, 69u8, 0u8]
}

pub fn file_tag_bytes() -> (r: Vec<u8>)
    ensures
        r@ == file_tag(),
{
    let r = vec![70u8, 73u8, 76u8, 69u8, 0u8];
    assert(r@ =~= file_tag());
    r
}

/// The encoding of a file object holding `b`.
pub open spec fn file_encoded(b: Seq<u8>) -> Seq<u8> {
    file_tag() + b
}

/// The content that a file object's encoding holds.
pub open spec fn file_decoded(b: Seq<u8>) -> Option<Seq<u8>> {
    if has_tag(b, file_tag()) {
        Some(b.skip(5))
    } else {
        None
    }
}

/// A file object.
#[derive(Debug, Clone, PartialEq, Eq)]
pub struct FileObj(pub Vec<u8>);

impl View for FileObj {
    type V = Seq<u8>;

    open spec fn view(&self) -> Seq<u8> {
        self.0@
    }
}

impl Encodable for FileObj {
    open spec fn encoded(&self) -> Seq<u8> {
        file_encoded(self@)
    }

    fn encode(&self) -> (r: Vec<u8>) {
        let mut r = file_tag_bytes();
        let mut body = copy_bytes(self.0.as_slice());
        r.append(&mut body);
        r
    }
}

impl FileObj {
    /// Reads a file object from its encoding.
    pub fn decode(buf: &[u8]) -> (r: Result<FileObj>)
        ensures
            match r {
                Ok(f) => file_decoded(buf@) == Some(f@),
                Err(e) => file_decoded(buf@) is None && e == Error::InvalidObjBuffer,
            },
    {
        if !starts_with_tag(buf, &file_tag_bytes()) {
            return Err(Error::InvalidObjBuffer);
        }
        let body = crate::encode::slice_range(buf, 5, buf.len());
        assert(body@ =~= buf@.skip(5));
        Ok(FileObj(body))
    }
}

/// A file object's encoding is read back.
pub proof fn lemma_file_roundtrip(b: Seq<u8>)
    ensures
        file_decoded(file_encoded(b)) == Some(b),
{
    assert(file_encoded(b).take(5) =~= file_tag());
    assert(file_encoded(b).skip(5) =~= b);
}

} // verus!
