//! The byte formats the repository stores: text as UTF-8, and records as a
//! list of fields, each field written as its length (eight bytes, little
//! endian) followed by its bytes.

use vstd::bytes::{
    lemma_auto_spec_u64_to_from_le_bytes, spec_u64_from_le_bytes, spec_u64_to_le_bytes,
    u64_from_le_bytes, u64_to_le_bytes,
};
use vstd::prelude::*;
use vstd::utf8::{decode_utf8, encode_utf8, valid_utf8};

use crate::util::copy_bytes;

verus! {

/// One field: its length, then its bytes.
pub open spec fn chunk(f: Seq<u8>) -> Seq<u8> {
    spec_u64_to_le_bytes(f.len() as u64) + f
}

/// The fields written one after another.
pub open spec fn frame(fields: Seq<Seq<u8>>) -> Seq<u8>
    decreases fields.len(),
{
    if fields.len() == 0 {
        Seq::empty()
    } else {
        frame(fields.drop_last()) + chunk(fields.last())
    }
}

/// The fields read back from bytes; `None` where the bytes are not a list of fields.
pub open spec fn unframe(b: Seq<u8>) -> Option<Seq<Seq<u8>>>
    decreases b.len(),
{
    if b.len() == 0 {
        Some(Seq::empty())
    } else if b.len() < 8 {
        None
    } else {
        let n = spec_u64_from_le_bytes(b.take(8));
        if b.len() < 8 + n {
            None
        } else {
            match unframe(b.skip(8 + n)) {
                Some(rest) => Some(seq![b.subrange(8, 8 + n)] + rest),
                None => None,
            }
        }
    }
}

/// Every field is short enough for its length to be written.
pub open spec fn fields_fit(fields: Seq<Seq<u8>>) -> bool {
    forall|i: int| 0 <= i < fields.len() ==> #[trigger] fields[i].len() <= u64::MAX
}

/// Each field of a frame is no longer than the frame.
pub proof fn lemma_frame_holds_fields(fields: Seq<Seq<u8>>)
    ensures
        forall|i: int| 0 <= i < fields.len() ==> #[trigger] fields[i].len() <= frame(fields).len(),
    decreases fields.len(),
{
    if fields.len() > 0 {
        lemma_frame_holds_fields(fields.drop_last());
        assert forall|i: int| 0 <= i < fields.len() implies #[trigger] fields[i].len() <= frame(fields).len() by {
            if i < fields.len() - 1 {
                assert(fields.drop_last()[i] == fields[i]);
            }
        }
    }
}

/// The fields of a frame that fits in a `u64` length each fit a field.
pub proof fn lemma_frame_fits(fields: Seq<Seq<u8>>)
    requires
        frame(fields).len() <= u64::MAX,
    ensures
        fields_fit(fields),
{
    lemma_frame_holds_fields(fields);
}

proof fn lemma_frame_front(fields: Seq<Seq<u8>>)
    requires
        fields.len() > 0,
    ensures
        frame(fields) == chunk(fields[0]) + frame(fields.drop_first()),
    decreases fields.len(),
{
    if fields.len() == 1 {
        assert(fields.drop_last() =~= Seq::<Seq<u8>>::empty());
        assert(fields.drop_first() =~= Seq::<Seq<u8>>::empty());
        assert(frame(fields.drop_first()) =~= Seq::<u8>::empty());
        assert(frame(fields) =~= chunk(fields[0]));
    } else {
        let init = fields.drop_last();
        lemma_frame_front(init);
        assert(init.drop_first() =~= fields.drop_first().drop_last());
        assert(fields.drop_first().last() == fields.last());
        assert(frame(fields) =~= chunk(fields[0]) + frame(fields.drop_first()));
    }
}

/// Fields written with `frame` are read back by `unframe`.
pub proof fn lemma_unframe_frame(fields: Seq<Seq<u8>>)
    requires
        fields_fit(fields),
    ensures
        unframe(frame(fields)) == Some(fields),
    decreases fields.len(),
{
    lemma_auto_spec_u64_to_from_le_bytes();
    if fields.len() == 0 {
        assert(frame(fields) =~= Seq::<u8>::empty());
        assert(fields =~= Seq::<Seq<u8>>::empty());
    } else {
        lemma_frame_front(fields);
        let rest = fields.drop_first();
        assert(fields_fit(rest)) by {
            assert forall|i: int| 0 <= i < rest.len() implies #[trigger] rest[i].len() <= u64::MAX by {
                assert(rest[i] == fields[i + 1]);
            }
        }
        lemma_unframe_frame(rest);
        let f0 = fields[0];
        assert(f0.len() <= u64::MAX);
        let b = frame(fields);
        let head = spec_u64_to_le_bytes(f0.len() as u64);
        assert(head.len() == 8);
        assert(b.take(8) =~= head);
        let n = spec_u64_from_le_bytes(b.take(8));
        assert(n == f0.len());
        assert(b.subrange(8, 8 + n) =~= f0);
        assert(b.skip(8 + n) =~= frame(rest));
        assert(seq![f0] + rest =~= fields);
    }
}

/// Writes the fields one after another.
pub fn frame_fields(fields: &Vec<Vec<u8>>) -> (r: Vec<u8>)
    ensures
        r@ == frame(fields@.map_values(|f: Vec<u8>| f@)),
{
    let ghost fv = fields@.map_values(|f: Vec<u8>| f@);
    let mut r: Vec<u8> = Vec::new();
    let mut i: usize = 0;
    assert(fv.take(0) =~= Seq::<Seq<u8>>::empty());
    while i < fields.len()
        invariant
            i <= fields@.len(),
            fv == fields@.map_values(|f: Vec<u8>| f@),
            r@ == frame(fv.take(i as int)),
        decreases fields@.len() - i,
    {
        let f = &fields[i];
        let n = f.len() as u64;
        let mut len_bytes = u64_to_le_bytes(n);
        r.append(&mut len_bytes);
        let mut body = copy_bytes(f.as_slice());
        r.append(&mut body);
        proof {
            let t = fv.take(i + 1);
            assert(t.drop_last() =~= fv.take(i as int));
            assert(t.last() == f@);
            assert(r@ =~= frame(fv.take(i as int)) + chunk(f@));
        }
        i = i + 1;
    }
    assert(fv.take(fields@.len() as int) =~= fv);
    r
}

/// The view of an optional list of byte vectors.
pub open spec fn opt_fields_view(o: Option<Vec<Vec<u8>>>) -> Option<Seq<Seq<u8>>> {
    match o {
        Some(v) => Some(v@.map_values(|f: Vec<u8>| f@)),
        None => None,
    }
}

/// Reads fields back; `None` where the bytes are not a list of fields.
pub fn unframe_bytes(b: &[u8]) -> (r: Option<Vec<Vec<u8>>>)
    ensures
        opt_fields_view(r) == unframe(b@),
{
    let mut out: Vec<Vec<u8>> = Vec::new();
    let mut pos: usize = 0;
    let n = b.len();
    assert(b@.skip(0) =~= b@);
    while pos < n
        invariant
            n == b@.len(),
            pos <= n,
            unframe(b@) == match unframe(b@.skip(pos as int)) {
                Some(rest) => Some(out@.map_values(|f: Vec<u8>| f@) + rest),
                None => None,
            },
        decreases n - pos,
    {
        let ghost s = b@.skip(pos as int);
        if n - pos < 8 {
            assert(unframe(s) is None);
            return None;
        }
        let len_bytes = slice_range(b, pos, pos + 8);
        let len = u64_from_le_bytes(len_bytes.as_slice());
        assert(len_bytes@ =~= s.take(8));
        if ((n - pos - 8) as u64) < len {
            assert(unframe(s) is None);
            return None;
        }
        let start = pos + 8;
        let end = start + len as usize;
        let field = slice_range(b, start, end);
        proof {
            assert(field@ =~= s.subrange(8, 8 + len));
            assert(b@.skip(end as int) =~= s.skip(8 + len));
            let ov = out@.map_values(|f: Vec<u8>| f@);
            match unframe(s.skip(8 + len)) {
                Some(rest) => {
                    assert(ov.push(field@) + rest =~= ov + (seq![field@] + rest));
                },
                None => {},
            }
        }
        let ghost before = out@;
        out.push(field);
        proof {
            assert(out@.map_values(|f: Vec<u8>| f@) =~= before.map_values(|f: Vec<u8>| f@).push(field@));
        }
        pos = end;
    }
    proof {
        assert(b@.skip(pos as int) =~= Seq::<u8>::empty());
        assert(out@.map_values(|f: Vec<u8>| f@) + Seq::<Seq<u8>>::empty() =~= out@.map_values(|f: Vec<u8>| f@));
    }
    Some(out)
}

/// The bytes `b[from..to]`, copied.
pub fn slice_range(b: &[u8], from: usize, to: usize) -> (r: Vec<u8>)
    requires
        from <= to <= b@.len(),
    ensures
        r@ == b@.subrange(from as int, to as int),
{
    let mut r: Vec<u8> = Vec::new();
    let mut i: usize = from;
    while i < to
        invariant
            from <= i <= to <= b@.len(),
            r@ == b@.subrange(from as int, i as int),
        decreases to - i,
    {
        r.push(b[i]);
        assert(b@.subrange(from as int, i + 1) =~= b@.subrange(from as int, i as int).push(b@[i as int]));
        i = i + 1;
    }
    r
}

/// The UTF-8 bytes of a string.
pub fn str_to_bytes(s: &str) -> (r: Vec<u8>)
    ensures
        r@ == encode_utf8(s@),
{
    copy_bytes(s.as_bytes())
}

/// The string that UTF-8 bytes spell.
///
/// Calls `String::from_utf8`, which std documents to succeed exactly when
/// the bytes are valid UTF-8, and then to hold the characters they encode.
#[verifier::external_body]
pub(crate) fn string_from_utf8(b: Vec<u8>) -> (r: Option<String>)
    ensures
        r is Some <==> valid_utf8(b@),
        r matches Some(s) ==> s@ == decode_utf8(b@),
{
    match String::from_utf8(b) {
        Ok(s) => Some(s),
        Err(_) => None,
    }
}

/// The UTF-8 encodings of strings, as fields.
pub open spec fn utf8_fields(strs: Seq<Seq<char>>) -> Seq<Seq<u8>> {
    strs.map_values(|s: Seq<char>| encode_utf8(s))
}

/// Every field is valid UTF-8.
pub open spec fn all_utf8(fs: Seq<Seq<u8>>) -> bool {
    forall|i: int| 0 <= i < fs.len() ==> valid_utf8(#[trigger] fs[i])
}

/// The strings that fields of UTF-8 spell.
pub open spec fn decode_all(fs: Seq<Seq<u8>>) -> Seq<Seq<char>> {
    fs.map_values(|f: Seq<u8>| decode_utf8(f))
}

/// Strings written as UTF-8 fields are read back.
pub proof fn lemma_utf8_fields(strs: Seq<Seq<char>>)
    ensures
        all_utf8(utf8_fields(strs)),
        decode_all(utf8_fields(strs)) == strs,
{
    broadcast use vstd::utf8::encode_utf8_valid_utf8, vstd::utf8::encode_utf8_decode_utf8;

    let fs = utf8_fields(strs);
    assert forall|i: int| 0 <= i < fs.len() implies valid_utf8(#[trigger] fs[i]) by {
        assert(fs[i] == encode_utf8(strs[i]));
    }
    assert(decode_all(fs) =~= strs);
}

/// The UTF-8 encodings of strings.
pub fn strings_to_fields(v: &Vec<String>) -> (r: Vec<Vec<u8>>)
    ensures
        r@.map_values(|f: Vec<u8>| f@) == utf8_fields(crate::path::strs_view(v@)),
{
    let ghost sv = crate::path::strs_view(v@);
    let mut r: Vec<Vec<u8>> = Vec::new();
    let mut i: usize = 0;
    while i < v.len()
        invariant
            i <= v@.len(),
            sv == crate::path::strs_view(v@),
            r@.len() == i,
            forall|j: int| 0 <= j < i ==> #[trigger] r@[j]@ == encode_utf8(sv[j]),
        decreases v@.len() - i,
    {
        r.push(str_to_bytes(v[i].as_str()));
        i = i + 1;
    }
    assert(r@.map_values(|f: Vec<u8>| f@) =~= utf8_fields(sv));
    r
}

/// The strings that UTF-8 fields spell; `None` where one of them is not UTF-8.
pub fn strings_from_fields(fs: Vec<Vec<u8>>) -> (r: Option<Vec<String>>)
    ensures
        r is Some <==> all_utf8(fs@.map_values(|f: Vec<u8>| f@)),
        r matches Some(v) ==> crate::path::strs_view(v@) == decode_all(fs@.map_values(|f: Vec<u8>| f@)),
{
    let ghost fv = fs@.map_values(|f: Vec<u8>| f@);
    let mut out: Vec<String> = Vec::new();
    let mut i: usize = 0;
    while i < fs.len()
        invariant
            i <= fs@.len(),
            fv == fs@.map_values(|f: Vec<u8>| f@),
            out@.len() == i,
            forall|j: int| 0 <= j < i ==> valid_utf8(#[trigger] fv[j]),
            forall|j: int| 0 <= j < i ==> #[trigger] out@[j]@ == decode_utf8(fv[j]),
        decreases fs@.len() - i,
    {
        match string_from_utf8(copy_bytes(fs[i].as_slice())) {
            Some(s) => out.push(s),
            None => {
                assert(!valid_utf8(fv[i as int]));
                return None;
            },
        }
        i = i + 1;
    }
    assert(crate::path::strs_view(out@) =~= decode_all(fv));
    Some(out)
}

} // verus!
