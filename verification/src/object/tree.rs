//! Tree objects: a table from file paths to object hashes, one hash per path.

use vstd::prelude::*;

use crate::assoc::{
    keys_distinct, lemma_lookup_index, lemma_lookup_push, lemma_lookup_remove,
    lemma_lookup_some, lemma_lookup_update, seq_has, seq_lookup,
};
use crate::encode::{
    all_utf8, decode_all, fields_fit, frame, frame_fields, lemma_unframe_frame,
    lemma_utf8_fields, strings_from_fields, strings_to_fields, unframe, unframe_bytes,
    utf8_fields,
};
use crate::error::{Error, Result};
use crate::file_system::FilePath;
use crate::object::{Encodable, ObjHash, has_tag, starts_with_tag};
use crate::path::strs_view;
use crate::util::str_eq;

verus! {

/// The bytes a tree object's encoding starts with: `TREE` and a zero byte.
pub open spec fn tree_tag() -> Seq<u8> {
    seq![84u8, 82u8, 69u8, 69u8, 0u8]
}

pub fn tree_tag_bytes() -> (r: Vec<u8>)
    ensures
        r@ == tree_tag(),
{
    let r = vec![84u8, 82u8, 69u8, 69u8, 0u8];
    assert(r@ =~= tree_tag());
    r
}

/// The entries laid out as path, hash, path, hash, ...
pub open spec fn flat(es: Seq<(Seq<char>, Seq<char>)>) -> Seq<Seq<char>> {
    Seq::new(2 * es.len(), |i: int| if i % 2 == 0 { es[i / 2].0 } else { es[i / 2].1 })
}

/// Strings read two by two as path and hash.
pub open spec fn pairs(strs: Seq<Seq<char>>) -> Seq<(Seq<char>, Seq<char>)> {
    Seq::new(strs.len() / 2, |i: int| (strs[2 * i], strs[2 * i + 1]))
}

/// The encoding of a tree with the given entries.
pub open spec fn tree_encoded(es: Seq<(Seq<char>, Seq<char>)>) -> Seq<u8> {
    tree_tag() + frame(utf8_fields(flat(es)))
}

/// The entries that a tree object's encoding holds.
pub open spec fn tree_decoded(b: Seq<u8>) -> Option<Seq<(Seq<char>, Seq<char>)>> {
    if has_tag(b, tree_tag()) {
        match unframe(b.skip(5)) {
            Some(fs) => if fs.len() % 2 == 0 && all_utf8(fs) && keys_distinct(pairs(decode_all(fs))) {
                Some(pairs(decode_all(fs)))
            } else {
                None
            },
            None => None,
        }
    } else {
        None
    }
}

/// A tree object: entries in the order they were first inserted.
#[derive(Debug, Clone, PartialEq, Eq, Default)]
pub struct TreeObj(pub Vec<(FilePath, ObjHash)>);

pub open spec fn entry_view(e: (FilePath, ObjHash)) -> (Seq<char>, Seq<char>) {
    (e.0.0@, e.1.0@)
}

impl View for TreeObj {
    type V = Seq<(Seq<char>, Seq<char>)>;

    open spec fn view(&self) -> Seq<(Seq<char>, Seq<char>)> {
        self.0@.map_values(|e: (FilePath, ObjHash)| entry_view(e))
    }
}

impl Encodable for TreeObj {
    open spec fn encoded(&self) -> Seq<u8> {
        tree_encoded(self@)
    }

    fn encode(&self) -> (r: Vec<u8>) {
        let mut strs: Vec<String> = Vec::new();
        let mut i: usize = 0;
        while i < self.0.len()
            invariant
                i <= self.0@.len(),
                strs@.len() == 2 * i,
                forall|j: int| 0 <= j < 2 * i ==> #[trigger] strs@[j]@ == flat(self@)[j],
            decreases self.0@.len() - i,
        {
            strs.push(self.0[i].0.0.clone());
            strs.push(self.0[i].1.0.clone());
            i = i + 1;
        }
        assert(strs_view(strs@) =~= flat(self@));
        let fields = strings_to_fields(&strs);
        let mut r = tree_tag_bytes();
        let mut body = frame_fields(&fields);
        r.append(&mut body);
        r
    }
}

impl TreeObj {
    /// One hash per path.
    pub open spec fn wf(self) -> bool {
        keys_distinct(self@)
    }

    /// The hash stored under a path.
    pub open spec fn lookup(self, p: Seq<char>) -> Option<Seq<char>> {
        seq_lookup(self@, p)
    }

    /// An empty tree.
    pub fn new() -> (r: TreeObj)
        ensures
            r.wf(),
            r@.len() == 0,
    {
        let r = TreeObj(Vec::new());
        assert(r@ =~= Seq::<(Seq<char>, Seq<char>)>::empty());
        r
    }

    pub fn len(&self) -> (r: usize)
        ensures
            r == self@.len(),
    {
        self.0.len()
    }

    pub fn is_empty(&self) -> (r: bool)
        ensures
            r == (self@.len() == 0),
    {
        self.0.len() == 0
    }

    /// A copy of the tree.
    pub fn copy(&self) -> (r: TreeObj)
        ensures
            r@ == self@,
    {
        let mut v: Vec<(FilePath, ObjHash)> = Vec::new();
        let mut i: usize = 0;
        while i < self.0.len()
            invariant
                i <= self.0@.len(),
                v@.len() == i,
                forall|j: int| 0 <= j < i ==> #[trigger] entry_view(v@[j]) == entry_view(self.0@[j]),
            decreases self.0@.len() - i,
        {
            v.push((FilePath(self.0[i].0.0.clone()), ObjHash(self.0[i].1.0.clone())));
            i = i + 1;
        }
        let r = TreeObj(v);
        assert(r@ =~= self@);
        r
    }

    /// The index of the entry of a path.
    fn index_of(&self, path: &str) -> (r: Option<usize>)
        requires
            self.wf(),
        ensures
            match r {
                Some(i) => i < self@.len() && self@[i as int].0 == path@,
                None => !seq_has(self@, path@),
            },
    {
        let mut i: usize = 0;
        while i < self.0.len()
            invariant
                i <= self.0@.len(),
                forall|j: int| 0 <= j < i ==> #[trigger] self@[j].0 != path@,
            decreases self.0@.len() - i,
        {
            if str_eq(self.0[i].0.0.as_str(), path) {
                return Some(i);
            }
            i = i + 1;
        }
        None
    }

    /// The hash stored under a path.
    pub fn get(&self, path: &FilePath) -> (r: Option<ObjHash>)
        requires
            self.wf(),
        ensures
            match r {
                Some(h) => self.lookup(path.0@) == Some(h.0@),
                None => self.lookup(path.0@) is None,
            },
    {
        match self.index_of(path.0.as_str()) {
            Some(i) => {
                proof {
                    lemma_lookup_index(self@, i as int);
                }
                Some(self.0[i].1.copy())
            },
            None => None,
        }
    }

    /// Whether a path has an entry.
    pub fn contains_key(&self, path: &FilePath) -> (r: bool)
        requires
            self.wf(),
        ensures
            r == (self.lookup(path.0@) is Some),
    {
        match self.index_of(path.0.as_str()) {
            Some(i) => {
                proof {
                    lemma_lookup_index(self@, i as int);
                }
                true
            },
            None => false,
        }
    }

    /// Whether `hash` differs from what is stored under `path` (or nothing is).
    pub fn changed_hash(&self, path: &FilePath, hash: &ObjHash) -> (r: bool)
        requires
            self.wf(),
        ensures
            r == (self.lookup(path.0@) != Some(hash.0@)),
    {
        match self.get(path) {
            Some(h) => !h.same(hash),
            None => true,
        }
    }

    /// Stores `hash` under `path`: an existing entry keeps its place, a new
    /// one goes last.
    pub fn insert(&mut self, path: FilePath, hash: ObjHash)
        requires
            old(self).wf(),
        ensures
            final(self).wf(),
            forall|q: Seq<char>|
                #[trigger] final(self).lookup(q) == if q == path.0@ {
                    Some(hash.0@)
                } else {
                    old(self).lookup(q)
                },
    {
        match self.index_of(path.0.as_str()) {
            Some(i) => {
                proof {
                    lemma_lookup_update(self@, i as int, hash.0@);
                }
                let ghost before = self@;
                self.0.set(i, (path, hash));
                assert(self@ =~= before.update(i as int, (before[i as int].0, hash.0@)));
            },
            None => {
                proof {
                    lemma_lookup_push(self@, path.0@, hash.0@);
                }
                let ghost before = self@;
                let ghost pv = path.0@;
                let ghost hv = hash.0@;
                self.0.push((path, hash));
                assert(self@ =~= before.push((pv, hv)));
            },
        }
    }

    /// Removes the entry of `path`, giving back its hash.
    pub fn remove(&mut self, path: &FilePath) -> (r: Option<ObjHash>)
        requires
            old(self).wf(),
        ensures
            final(self).wf(),
            match r {
                Some(h) => old(self).lookup(path.0@) == Some(h.0@),
                None => old(self).lookup(path.0@) is None,
            },
            forall|q: Seq<char>|
                #[trigger] final(self).lookup(q) == if q == path.0@ {
                    None
                } else {
                    old(self).lookup(q)
                },
    {
        match self.index_of(path.0.as_str()) {
            Some(i) => {
                proof {
                    lemma_lookup_index(self@, i as int);
                    lemma_lookup_remove(self@, i as int);
                }
                let ghost before = self@;
                let (_, h) = self.0.remove(i);
                assert(self@ =~= before.remove(i as int));
                Some(h)
            },
            None => {
                proof {
                    assert forall|q: Seq<char>| #[trigger] self.lookup(q) == if q == path.0@ {
                        None
                    } else {
                        self.lookup(q)
                    } by {}
                }
                None
            },
        }
    }

    /// Stores every entry of `other`, which wins where both have a path.
    pub fn replace_by(&mut self, other: TreeObj)
        requires
            old(self).wf(),
            other.wf(),
        ensures
            final(self).wf(),
            forall|q: Seq<char>|
                #[trigger] final(self).lookup(q) == match other.lookup(q) {
                    Some(h) => Some(h),
                    None => old(self).lookup(q),
                },
    {
        let ghost start = *self;
        let mut i: usize = 0;
        let n = other.0.len();
        while i < n
            invariant
                n == other@.len(),
                i <= n,
                other.wf(),
                self.wf(),
                forall|q: Seq<char>|
                    #[trigger] self.lookup(q) == match seq_lookup(other@.take(i as int), q) {
                        Some(h) => Some(h),
                        None => start.lookup(q),
                    },
            decreases n - i,
        {
            let ghost t = other@.take(i as int);
            let ghost t2 = other@.take(i + 1);
            let ghost k = other@[i as int].0;
            let ghost v = other@[i as int].1;
            proof {
                assert(t2 =~= t.push((k, v)));
                assert(keys_distinct(t)) by {
                    assert forall|a: int, b: int|
                        0 <= a < t.len() && 0 <= b < t.len() && a != b implies #[trigger] t[a].0 != #[trigger] t[b].0 by {
                        assert(t[a] == other@[a]);
                        assert(t[b] == other@[b]);
                    }
                }
                assert(!seq_has(t, k)) by {
                    if seq_has(t, k) {
                        let j = choose|j: int| 0 <= j < t.len() && #[trigger] t[j].0 == k;
                        assert(t[j] == other@[j]);
                    }
                }
                lemma_lookup_push(t, k, v);
            }
            let path = FilePath(other.0[i].0.0.clone());
            let hash = other.0[i].1.copy();
            self.insert(path, hash);
            i = i + 1;
        }
        assert(other@.take(n as int) =~= other@);
    }

    /// Reads a tree object from its encoding.
    pub fn decode(buf: &[u8]) -> (r: Result<TreeObj>)
        ensures
            match r {
                Ok(t) => t.wf() && tree_decoded(buf@) == Some(t@),
                Err(e) => tree_decoded(buf@) is None && e == Error::InvalidObjBuffer,
            },
    {
        if !starts_with_tag(buf, &tree_tag_bytes()) {
            return Err(Error::InvalidObjBuffer);
        }
        let body = crate::encode::slice_range(buf, 5, buf.len());
        assert(body@ =~= buf@.skip(5));
        let fields = match unframe_bytes(body.as_slice()) {
            Some(f) => f,
            None => return Err(Error::InvalidObjBuffer),
        };
        if fields.len() % 2 != 0 {
            return Err(Error::InvalidObjBuffer);
        }
        let ghost fv = fields@.map_values(|f: Vec<u8>| f@);
        let strs = match strings_from_fields(fields) {
            Some(s) => s,
            None => return Err(Error::InvalidObjBuffer),
        };
        let ghost sv = strs_view(strs@);
        let ghost ps = pairs(sv);
        assert(sv.len() == fv.len());
        assert(tree_decoded(buf@) == if keys_distinct(ps) {
            Some(ps)
        } else {
            None::<Seq<(Seq<char>, Seq<char>)>>
        });
        let mut t = TreeObj::new();
        let mut i: usize = 0;
        let n = strs.len();
        let half = n / 2;
        while i < half
            invariant
                half == ps.len(),
                strs@.len() == 2 * half,
                n == strs@.len(),
                sv == strs_view(strs@),
                ps == pairs(sv),
                i <= half,
                tree_decoded(buf@) == if keys_distinct(ps) {
                    Some(ps)
                } else {
                    None::<Seq<(Seq<char>, Seq<char>)>>
                },
                t.wf(),
                t@ == ps.take(i as int),
            decreases half - i,
        {
            let path = FilePath(strs[2 * i].clone());
            let hash = ObjHash(strs[2 * i + 1].clone());
            if t.contains_key(&path) {
                proof {
                    let j = lemma_lookup_some(t@, path.0@);
                    assert(ps[j].0 == ps[i as int].0);
                }
                return Err(Error::InvalidObjBuffer);
            }
            let ghost before = t@;
            proof {
                lemma_lookup_push(before, path.0@, hash.0@);
            }
            t.0.push((path, hash));
            assert(t@ =~= before.push(ps[i as int]));
            assert(ps.take(i + 1) =~= ps.take(i as int).push(ps[i as int]));
            i = i + 1;
        }
        assert(ps.take(half as int) =~= ps);
        Ok(t)
    }
}

/// A tree object's encoding is read back, where each string fits a field.
pub proof fn lemma_tree_roundtrip(es: Seq<(Seq<char>, Seq<char>)>)
    requires
        keys_distinct(es),
        fields_fit(utf8_fields(flat(es))),
    ensures
        tree_decoded(tree_encoded(es)) == Some(es),
{
    let fs = utf8_fields(flat(es));
    lemma_unframe_frame(fs);
    lemma_utf8_fields(flat(es));
    let b = tree_encoded(es);
    assert(b.take(5) =~= tree_tag());
    assert(b.skip(5) =~= frame(fs));
    assert(pairs(flat(es)) =~= es);
}

} // verus!
