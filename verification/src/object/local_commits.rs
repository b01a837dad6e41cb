//! The commits of a branch that have not been pushed yet.

use vstd::prelude::*;

use crate::encode::{
    all_utf8, decode_all, fields_fit, frame, frame_fields, lemma_unframe_frame,
    lemma_utf8_fields, strings_from_fields, strings_to_fields, unframe, unframe_bytes,
    utf8_fields,
};
use crate::error::{Error, Result};
use crate::object::ObjHash;
use crate::object::commit::CommitHash;
use crate::path::strs_view;

verus! {

pub open spec fn local_commits_encoded(hs: Seq<Seq<char>>) -> Seq<u8> {
    frame(utf8_fields(hs))
}

pub open spec fn local_commits_decoded(b: Seq<u8>) -> Option<Seq<Seq<char>>> {
    match unframe(b) {
        Some(fs) => if all_utf8(fs) {
            Some(decode_all(fs))
        } else {
            None
        },
        None => None,
    }
}

/// The hashes of local commits, oldest first.
#[derive(Debug, Clone, PartialEq, Eq, Default)]
pub struct LocalCommitsObj(pub Vec<CommitHash>);

impl View for LocalCommitsObj {
    type V = Seq<Seq<char>>;

    open spec fn view(&self) -> Seq<Seq<char>> {
        self.0@.map_values(|h: CommitHash| h.0.0@)
    }
}

impl LocalCommitsObj {
    pub fn new() -> (r: LocalCommitsObj)
        ensures
            r@.len() == 0,
    {
        let r = LocalCommitsObj(Vec::new());
        assert(r@ =~= Seq::<Seq<char>>::empty());
        r
    }

    pub fn len(&self) -> (r: usize)
        ensures
            r == self@.len(),
    {
        self.0.len()
    }

    pub fn is_empty(&self) -> (r: bool)
        ensures
            r == (self@.len() == 0),
    {
        self.0.len() == 0
    }

    /// Adds a commit as the newest.
    pub fn push(&mut self, hash: CommitHash)
        ensures
            final(self)@ == old(self)@.push(hash.0.0@),
    {
        let ghost before = self@;
        let ghost hv = hash.0.0@;
        self.0.push(hash);
        assert(self@ =~= before.push(hv));
    }

    pub fn encode(&self) -> (r: Vec<u8>)
        ensures
            r@ == local_commits_encoded(self@),
    {
        let mut strs: Vec<String> = Vec::new();
        let mut i: usize = 0;
        while i < self.0.len()
            invariant
                i <= self.0@.len(),
                strs@.len() == i,
                forall|j: int| 0 <= j < i ==> #[trigger] strs@[j]@ == self@[j],
            decreases self.0@.len() - i,
        {
            strs.push(self.0[i].0.0.clone());
            i = i + 1;
        }
        assert(strs_view(strs@) =~= self@);
        let fields = strings_to_fields(&strs);
        frame_fields(&fields)
    }

    pub fn decode(buf: &[u8]) -> (r: Result<LocalCommitsObj>)
        ensures
            match r {
                Ok(l) => local_commits_decoded(buf@) == Some(l@),
                Err(e) => local_commits_decoded(buf@) is None && e == Error::InvalidObjBuffer,
            },
    {
        let fields = match unframe_bytes(buf) {
            Some(f) => f,
            None => return Err(Error::InvalidObjBuffer),
        };
        let strs = match strings_from_fields(fields) {
            Some(s) => s,
            None => return Err(Error::InvalidObjBuffer),
        };
        let ghost sv = strs_view(strs@);
        let mut hashes: Vec<CommitHash> = Vec::new();
        let mut i: usize = 0;
        while i < strs.len()
            invariant
                i <= strs@.len(),
                sv == strs_view(strs@),
                hashes@.len() == i,
                forall|j: int| 0 <= j < i ==> #[trigger] hashes@[j].0.0@ == sv[j],
            decreases strs@.len() - i,
        {
            hashes.push(CommitHash(ObjHash(strs[i].clone())));
            i = i + 1;
        }
        let l = LocalCommitsObj(hashes);
        assert(l@ =~= sv);
        Ok(l)
    }
}

/// Local commits written out are read back, where each hash fits a field.
pub proof fn lemma_local_commits_roundtrip(hs: Seq<Seq<char>>)
    requires
        fields_fit(utf8_fields(hs)),
    ensures
        local_commits_decoded(local_commits_encoded(hs)) == Some(hs),
{
    lemma_unframe_frame(utf8_fields(hs));
    lemma_utf8_fields(hs);
}

} // verus!
