//! Commit objects: a message, the tree of what was committed, and the
//! commits it follows.

use vstd::prelude::*;

use crate::encode::{
    all_utf8, decode_all, fields_fit, frame, frame_fields, lemma_unframe_frame,
    lemma_utf8_fields, strings_from_fields, strings_to_fields, unframe, unframe_bytes,
    utf8_fields,
};
use crate::error::{Error, Result};
use crate::io::atomic::head::CommitText;
use crate::object::{Encodable, ObjHash, has_tag, starts_with_tag};
use crate::path::strs_view;

verus! {

/// The hash of a commit object.
#[derive(Debug, Clone, PartialEq, Eq, Hash, PartialOrd, Ord)]
pub struct CommitHash(pub ObjHash);

impl CommitHash {
    /// A copy of the hash.
    pub fn copy(&self) -> (r: CommitHash)
        ensures
            r.0.0@ == self.0.0@,
    {
        CommitHash(self.0.copy())
    }

    /// Whether two hashes are the same.
    pub fn same(&self, other: &CommitHash) -> (r: bool)
        ensures
            r == (self.0.0@ == other.0.0@),
    {
        self.0.same(&other.0)
    }
}

/// The bytes a commit object's encoding starts with: `COMMIT` and a zero byte.
pub open spec fn commit_tag() -> Seq<u8> {
    seq![67u8, 79u8, 77u8, 77u8, 73u8, 84u8, 0u8]
}

pub fn commit_tag_bytes() -> (r: Vec<u8>)
    ensures
        r@ == commit_tag(),
{
    let r = vec![67u8, 79u8, 77u8, 77u8, 73u8, 84u8, 0u8];
    assert(r@ =~= commit_tag());
    r
}

/// What a commit object holds.
pub struct CommitView {
    pub parents: Seq<Seq<char>>,
    pub text: Seq<char>,
    pub tree: Seq<char>,
}

/// The strings a commit is written as: its text, its tree, then its parents.
pub open spec fn commit_strs(c: CommitView) -> Seq<Seq<char>> {
    seq![c.text, c.tree] + c.parents
}

pub open spec fn commit_encoded(c: CommitView) -> Seq<u8> {
    commit_tag() + frame(utf8_fields(commit_strs(c)))
}

pub open spec fn commit_of_strs(s: Seq<Seq<char>>) -> CommitView {
    CommitView { parents: s.skip(2), text: s[0], tree: s[1] }
}

/// The commit that a commit object's encoding holds.
pub open spec fn commit_decoded(b: Seq<u8>) -> Option<CommitView> {
    if has_tag(b, commit_tag()) {
        match unframe(b.skip(7)) {
            Some(fs) => if fs.len() >= 2 && all_utf8(fs) {
                Some(commit_of_strs(decode_all(fs)))
            } else {
                None
            },
            None => None,
        }
    } else {
        None
    }
}

/// A commit object.
#[derive(Debug, Clone, PartialEq, Eq)]
pub struct CommitObj {
    pub parents: Vec<CommitHash>,
    pub text: CommitText,
    pub committed_objs_tree: ObjHash,
}

impl View for CommitObj {
    type V = CommitView;

    open spec fn view(&self) -> CommitView {
        CommitView {
            parents: self.parents@.map_values(|h: CommitHash| h.0.0@),
            text: self.text.0@,
            tree: self.committed_objs_tree.0@,
        }
    }
}

impl Encodable for CommitObj {
    open spec fn encoded(&self) -> Seq<u8> {
        commit_encoded(self@)
    }

    fn encode(&self) -> (r: Vec<u8>) {
        let mut strs: Vec<String> = Vec::new();
        strs.push(self.text.0.clone());
        strs.push(self.committed_objs_tree.0.clone());
        let mut i: usize = 0;
        while i < self.parents.len()
            invariant
                i <= self.parents@.len(),
                strs@.len() == 2 + i,
                strs@[0]@ == self.text.0@,
                strs@[1]@ == self.committed_objs_tree.0@,
                forall|k: int| 2 <= k < 2 + i ==> #[trigger] strs@[k]@ == self.parents@[k - 2].0.0@,
            decreases self.parents@.len() - i,
        {
            strs.push(self.parents[i].0.0.clone());
            i = i + 1;
        }
        assert(strs_view(strs@) =~= commit_strs(self@));
        let fields = strings_to_fields(&strs);
        let mut r = commit_tag_bytes();
        let mut body = frame_fields(&fields);
        r.append(&mut body);
        r
    }
}

impl CommitObj {
    /// Reads a commit object from its encoding.
    pub fn decode(buf: &[u8]) -> (r: Result<CommitObj>)
        ensures
            match r {
                Ok(c) => commit_decoded(buf@) == Some(c@),
                Err(e) => commit_decoded(buf@) is None && e == Error::InvalidObjBuffer,
            },
    {
        if !starts_with_tag(buf, &commit_tag_bytes()) {
            return Err(Error::InvalidObjBuffer);
        }
        let body = crate::encode::slice_range(buf, 7, buf.len());
        assert(body@ =~= buf@.skip(7));
        let fields = match unframe_bytes(body.as_slice()) {
            Some(f) => f,
            None => return Err(Error::InvalidObjBuffer),
        };
        if fields.len() < 2 {
            return Err(Error::InvalidObjBuffer);
        }
        let strs = match strings_from_fields(fields) {
            Some(s) => s,
            None => return Err(Error::InvalidObjBuffer),
        };
        let ghost sv = strs_view(strs@);
        let text = CommitText(strs[0].clone());
        let tree = ObjHash(strs[1].clone());
        let mut parents: Vec<CommitHash> = Vec::new();
        let mut i: usize = 2;
        while i < strs.len()
            invariant
                2 <= i <= strs@.len(),
                sv == strs_view(strs@),
                parents@.len() == i - 2,
                forall|j: int| 0 <= j < i - 2 ==> #[trigger] parents@[j].0.0@ == sv[j + 2],
            decreases strs@.len() - i,
        {
            parents.push(CommitHash(ObjHash(strs[i].clone())));
            i = i + 1;
        }
        let c = CommitObj { parents, text, committed_objs_tree: tree };
        assert(c@.parents =~= sv.skip(2));
        Ok(c)
    }

    /// A copy of the commit.
    pub fn copy(&self) -> (r: CommitObj)
        ensures
            r@ == self@,
    {
        let mut parents: Vec<CommitHash> = Vec::new();
        let mut i: usize = 0;
        while i < self.parents.len()
            invariant
                i <= self.parents@.len(),
                parents@.len() == i,
                forall|j: int| 0 <= j < i ==> #[trigger] parents@[j].0.0@ == self.parents@[j].0.0@,
            decreases self.parents@.len() - i,
        {
            parents.push(self.parents[i].copy());
            i = i + 1;
        }
        let r = CommitObj {
            parents,
            text: CommitText(self.text.0.clone()),
            committed_objs_tree: self.committed_objs_tree.copy(),
        };
        assert(r@.parents =~= self@.parents);
        r
    }
}

/// A commit object's encoding is read back, where each string fits a field.
pub proof fn lemma_commit_roundtrip(c: CommitView)
    requires
        fields_fit(utf8_fields(commit_strs(c))),
    ensures
        commit_decoded(commit_encoded(c)) == Some(c),
{
    let fs = utf8_fields(commit_strs(c));
    lemma_unframe_frame(fs);
    lemma_utf8_fields(commit_strs(c));
    let b = commit_encoded(c);
    assert(b.take(7) =~= commit_tag());
    assert(b.skip(7) =~= frame(fs));
    let s = commit_strs(c);
    assert(s.skip(2) =~= c.parents);
}

} // verus!
