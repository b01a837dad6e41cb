//! Path handling. A path string is read as a list of segments: it is split on
//! `/`, and empty segments and `.` segments are dropped, so `./a//b`, `/a/b`
//! and `a/b` all name the same entry.

use vstd::prelude::*;

verus! {

/// The character views of a list of strings.
pub open spec fn strs_view(v: Seq<String>) -> Seq<Seq<char>> {
    v.map_values(|s: String| s@)
}

/// A segment that a normalized path can hold.
pub open spec fn seg_valid(s: Seq<char>) -> bool {
    &&& s.len() > 0
    &&& s != seq!['.']
    &&& forall|i: int| 0 <= i < s.len() ==> s[i] != '/'
}

pub open spec fn segs_valid(q: Seq<Seq<char>>) -> bool {
    forall|i: int| 0 <= i < q.len() ==> seg_valid(#[trigger] q[i])
}

/// Adds a finished raw segment to the list, unless it is empty or `.`.
pub open spec fn push_seg(acc: Seq<Seq<char>>, cur: Seq<char>) -> Seq<Seq<char>> {
    if cur.len() == 0 || cur == seq!['.'] {
        acc
    } else {
        acc.push(cur)
    }
}

/// Scans a path from the left: the finished segments and the segment in progress.
pub open spec fn scan(s: Seq<char>) -> (Seq<Seq<char>>, Seq<char>)
    decreases s.len(),
{
    if s.len() == 0 {
        (Seq::empty(), Seq::empty())
    } else {
        let prev = scan(s.drop_last());
        if s.last() == '/' {
            (push_seg(prev.0, prev.1), Seq::empty())
        } else {
            (prev.0, prev.1.push(s.last()))
        }
    }
}

/// The segments that a path string names.
pub open spec fn segs(s: Seq<char>) -> Seq<Seq<char>> {
    let r = scan(s);
    push_seg(r.0, r.1)
}

/// Segments joined by `/`.
pub open spec fn join(q: Seq<Seq<char>>) -> Seq<char>
    decreases q.len(),
{
    if q.len() == 0 {
        Seq::empty()
    } else if q.len() == 1 {
        q[0]
    } else {
        join(q.drop_last()) + seq!['/'] + q.last()
    }
}

/// Segments joined by `/`, with a leading `/`.
pub open spec fn join_absolute(q: Seq<Seq<char>>) -> Seq<char> {
    seq!['/'] + join(q)
}

pub open spec fn no_slash(x: Seq<char>) -> bool {
    forall|i: int| 0 <= i < x.len() ==> x[i] != '/'
}

/// `p` starts with the segments `prefix`.
pub open spec fn has_prefix(p: Seq<Seq<char>>, prefix: Seq<Seq<char>>) -> bool {
    prefix.len() <= p.len() && p.subrange(0, prefix.len() as int) == prefix
}

/// A valid segment written alone names just itself.
pub proof fn lemma_segs_one(x: Seq<char>)
    requires
        seg_valid(x),
    ensures
        segs(x) == seq![x],
{
    lemma_scan_no_slash(Seq::empty(), x);
    assert(Seq::<char>::empty() + x =~= x);
    assert(Seq::<Seq<char>>::empty().push(x) =~= seq![x]);
}

proof fn lemma_scan_no_slash(a: Seq<char>, x: Seq<char>)
    requires
        no_slash(x),
    ensures
        scan(a + x) == (scan(a).0, scan(a).1 + x),
    decreases x.len(),
{
    if x.len() == 0 {
        assert(a + x =~= a);
        assert(scan(a).1 + x =~= scan(a).1);
    } else {
        let x0 = x.drop_last();
        lemma_scan_no_slash(a, x0);
        assert((a + x).drop_last() =~= a + x0);
        assert((a + x).last() == x.last());
        assert(scan(a).1 + x0.push(x.last()) =~= scan(a).1 + x);
        assert(x0.push(x.last()) =~= x);
    }
}

proof fn lemma_scan_slash(a: Seq<char>)
    ensures
        scan(a.push('/')) == (push_seg(scan(a).0, scan(a).1), Seq::<char>::empty()),
{
    assert(a.push('/').drop_last() =~= a);
}

/// Joining valid segments and reading the result back gives the segments.
pub proof fn lemma_segs_join(q: Seq<Seq<char>>)
    requires
        segs_valid(q),
    ensures
        scan(join(q)) == (if q.len() == 0 {
            (Seq::<Seq<char>>::empty(), Seq::<char>::empty())
        } else {
            (q.drop_last(), q.last())
        }),
        segs(join(q)) == q,
    decreases q.len(),
{
    if q.len() == 0 {
        assert(segs(join(q)) =~= q);
    } else if q.len() == 1 {
        assert(seg_valid(q[0]));
        lemma_scan_no_slash(Seq::empty(), q[0]);
        assert(Seq::<char>::empty() + q[0] =~= q[0]);
        assert(Seq::<char>::empty() + q[0] =~= q[0]);
        assert(q.drop_last() =~= Seq::<Seq<char>>::empty());
        assert(Seq::<Seq<char>>::empty().push(q[0]) =~= q);
    } else {
        let q0 = q.drop_last();
        assert(segs_valid(q0)) by {
            assert forall|i: int| 0 <= i < q0.len() implies seg_valid(#[trigger] q0[i]) by {
                assert(q0[i] == q[i]);
            }
        }
        lemma_segs_join(q0);
        let a = join(q0);
        assert(seg_valid(q[q.len() - 1]));
        lemma_scan_slash(a);
        lemma_scan_no_slash(a.push('/'), q.last());
        assert(a + seq!['/'] + q.last() =~= a.push('/') + q.last());
        assert(Seq::<char>::empty() + q.last() =~= q.last());
        assert(q0.len() > 0);
        assert(q0.drop_last().push(q0.last()) =~= q0);
        assert(q0.push(q.last()) =~= q);
    }
}

proof fn lemma_scan_leading_slash(s: Seq<char>)
    ensures
        scan(seq!['/'] + s) == scan(s),
    decreases s.len(),
{
    if s.len() == 0 {
        assert(seq!['/'] + s =~= Seq::<char>::empty().push('/'));
        lemma_scan_slash(Seq::empty());
        assert(push_seg(Seq::empty(), Seq::empty()) =~= Seq::<Seq<char>>::empty());
    } else {
        let s0 = s.drop_last();
        lemma_scan_leading_slash(s0);
        assert((seq!['/'] + s).drop_last() =~= seq!['/'] + s0);
        assert((seq!['/'] + s).last() == s.last());
    }
}

/// A path written with a leading `/` names the same segments.
pub proof fn lemma_segs_join_absolute(q: Seq<Seq<char>>)
    requires
        segs_valid(q),
    ensures
        segs(join_absolute(q)) == q,
{
    lemma_segs_join(q);
    lemma_scan_leading_slash(join(q));
}

fn push_segment(acc: &mut Vec<String>, path: &str, start: usize, end: usize)
    requires
        start <= end <= path@.len(),
    ensures
        strs_view(final(acc)@) == push_seg(strs_view(old(acc)@), path@.subrange(start as int, end as int)),
{
    let ghost cur = path@.subrange(start as int, end as int);
    if start == end {
        assert(cur.len() == 0);
        return;
    }
    if end - start == 1 && path.get_char(start) == '.' {
        assert(cur =~= seq!['.']);
        return;
    }
    assert(cur != seq!['.']) by {
        if cur == seq!['.'] {
            assert(cur.len() == 1);
            assert(cur[0] == path@[start as int]);
        }
    }
    let seg = path.substring_char(start, end).to_owned();
    acc.push(seg);
    assert(strs_view(acc@) =~= strs_view(old(acc)@).push(cur));
}

/// Splits a path into its segments.
pub fn as_schemes(path: &str) -> (r: Vec<String>)
    ensures
        strs_view(r@) == segs(path@),
{
    let n = path.unicode_len();
    let mut acc: Vec<String> = Vec::new();
    let mut start: usize = 0;
    let mut i: usize = 0;
    assert(path@.take(0) =~= Seq::<char>::empty());
    assert(strs_view(acc@) =~= Seq::<Seq<char>>::empty());
    while i < n
        invariant
            n == path@.len(),
            start <= i <= n,
            scan(path@.take(i as int)) == (strs_view(acc@), path@.subrange(start as int, i as int)),
        decreases n - i,
    {
        let c = path.get_char(i);
        assert(path@.take(i + 1).drop_last() =~= path@.take(i as int));
        assert(path@.take(i + 1).last() == c);
        if c == '/' {
            push_segment(&mut acc, path, start, i);
            start = i + 1;
            assert(path@.subrange(start as int, (i + 1) as int) =~= Seq::<char>::empty());
        } else {
            assert(path@.subrange(start as int, (i + 1) as int) =~= path@.subrange(
                start as int,
                i as int,
            ).push(c));
        }
        i = i + 1;
    }
    assert(path@.take(n as int) =~= path@);
    push_segment(&mut acc, path, start, n);
    acc
}

/// Joins segments with `/`.
pub fn join_segments(q: &Vec<String>) -> (r: String)
    ensures
        r@ == join(strs_view(q@)),
{
    let mut r = String::new();
    let mut i: usize = 0;
    while i < q.len()
        invariant
            i <= q.len(),
            r@ == join(strs_view(q@).take(i as int)),
        decreases q.len() - i,
    {
        let ghost qi = strs_view(q@).take(i + 1);
        assert(qi.drop_last() =~= strs_view(q@).take(i as int));
        if i > 0 {
            r.append("/");
            proof {
                reveal_strlit("/");
            }
        }
        r.append(q[i].as_str());
        proof {
            if i == 0 {
                assert(r@ =~= qi[0]);
            } else {
                assert(r@ =~= join(qi.drop_last()) + seq!['/'] + qi.last());
            }
        }
        i = i + 1;
    }
    assert(strs_view(q@).take(q.len() as int) =~= strs_view(q@));
    r
}

/// Joins segments with `/`, after a leading `/`.
pub fn join_segments_absolute(q: &Vec<String>) -> (r: String)
    ensures
        r@ == join_absolute(strs_view(q@)),
{
    let mut r = String::new();
    r.append("/");
    proof {
        reveal_strlit("/");
    }
    let j = join_segments(q);
    r.append(j.as_str());
    assert(r@ =~= seq!['/'] + j@);
    r
}

proof fn lemma_scan_valid(s: Seq<char>)
    ensures
        segs_valid(scan(s).0),
        no_slash(scan(s).1),
    decreases s.len(),
{
    if s.len() > 0 {
        lemma_scan_valid(s.drop_last());
        let prev = scan(s.drop_last());
        if s.last() == '/' {
            let acc = push_seg(prev.0, prev.1);
            assert forall|i: int| 0 <= i < acc.len() implies seg_valid(#[trigger] acc[i]) by {
                if i < prev.0.len() {
                    assert(acc[i] == prev.0[i]);
                }
            }
        } else {
            let cur = prev.1.push(s.last());
            assert forall|i: int| 0 <= i < cur.len() implies cur[i] != '/' by {
                if i < prev.1.len() {
                    assert(cur[i] == prev.1[i]);
                }
            }
        }
    }
}

/// The segments of any path are valid segments.
pub proof fn lemma_segs_valid(s: Seq<char>)
    ensures
        segs_valid(segs(s)),
{
    lemma_scan_valid(s);
    let r = scan(s);
    let acc = push_seg(r.0, r.1);
    assert forall|i: int| 0 <= i < acc.len() implies seg_valid(#[trigger] acc[i]) by {
        if i < r.0.len() {
            assert(acc[i] == r.0[i]);
        }
    }
}

/// A leading `./` does not change the segments.
pub proof fn lemma_segs_dot_prefix(s: Seq<char>)
    ensures
        segs(seq!['.', '/'] + s) == segs(s),
{
    lemma_scan_dot_slash(s);
}

proof fn lemma_scan_dot_slash(s: Seq<char>)
    ensures
        scan(seq!['.', '/'] + s) == scan(s),
    decreases s.len(),
{
    if s.len() == 0 {
        assert(seq!['.', '/'] + s =~= seq!['.'].push('/'));
        assert(seq!['.'].drop_last() =~= Seq::<char>::empty());
        assert(scan(Seq::<char>::empty()) == (Seq::<Seq<char>>::empty(), Seq::<char>::empty()));
        assert(scan(seq!['.']) == (Seq::<Seq<char>>::empty(), seq!['.'])) by {
            assert(seq!['.'].drop_last() =~= Seq::<char>::empty());
            assert(seq!['.'].last() == '.');
            assert(Seq::<char>::empty().push('.') =~= seq!['.']);
        }
        lemma_scan_slash(seq!['.']);
    } else {
        let s0 = s.drop_last();
        lemma_scan_dot_slash(s0);
        assert((seq!['.', '/'] + s).drop_last() =~= seq!['.', '/'] + s0);
        assert((seq!['.', '/'] + s).last() == s.last());
    }
}

/// Scanning goes on from where a prefix that ends a segment left off.
pub proof fn lemma_scan_concat(a: Seq<char>, b: Seq<char>)
    requires
        scan(a).1 == Seq::<char>::empty(),
    ensures
        scan(a + b) == (scan(a).0 + scan(b).0, scan(b).1),
    decreases b.len(),
{
    if b.len() == 0 {
        assert(a + b =~= a);
        assert(scan(a).0 + Seq::<Seq<char>>::empty() =~= scan(a).0);
    } else {
        let b0 = b.drop_last();
        lemma_scan_concat(a, b0);
        assert((a + b).drop_last() =~= a + b0);
        assert((a + b).last() == b.last());
        let x = scan(a).0;
        let y = scan(b0).0;
        let cur = scan(b0).1;
        if b.last() == '/' {
            if !(cur.len() == 0 || cur == seq!['.']) {
                assert((x + y).push(cur) =~= x + y.push(cur));
            }
        }
    }
}

/// The segments of a path that follows a prefix ending a segment.
pub proof fn lemma_segs_concat(a: Seq<char>, b: Seq<char>)
    requires
        scan(a).1 == Seq::<char>::empty(),
    ensures
        segs(a + b) == scan(a).0 + segs(b),
{
    lemma_scan_concat(a, b);
    let x = scan(a).0;
    let y = scan(b).0;
    let cur = scan(b).1;
    if !(cur.len() == 0 || cur == seq!['.']) {
        assert((x + y).push(cur) =~= x + y.push(cur));
    }
}

/// Segments, each followed by `/`.
pub open spec fn dir_chars(q: Seq<Seq<char>>) -> Seq<char>
    decreases q.len(),
{
    if q.len() == 0 {
        Seq::empty()
    } else {
        dir_chars(q.drop_last()) + q.last() + seq!['/']
    }
}

/// Valid segments each followed by `/` scan to those segments.
pub proof fn lemma_scan_dir_chars(q: Seq<Seq<char>>)
    requires
        segs_valid(q),
    ensures
        scan(dir_chars(q)) == (q, Seq::<char>::empty()),
    decreases q.len(),
{
    if q.len() == 0 {
        assert(dir_chars(q) =~= Seq::<char>::empty());
        assert(q =~= Seq::<Seq<char>>::empty());
    } else {
        let q0 = q.drop_last();
        assert(segs_valid(q0)) by {
            assert forall|i: int| 0 <= i < q0.len() implies seg_valid(#[trigger] q0[i]) by {
                assert(q0[i] == q[i]);
            }
        }
        lemma_scan_dir_chars(q0);
        let a = dir_chars(q0);
        assert(seg_valid(q[q.len() - 1]));
        lemma_scan_no_slash(a, q.last());
        assert(Seq::<char>::empty() + q.last() =~= q.last());
        lemma_scan_slash(a + q.last());
        assert((a + q.last()).push('/') =~= a + q.last() + seq!['/']);
        assert(q0.push(q.last()) =~= q);
    }
}

/// `q` and `p` part at some segment, so neither lies at or below the other.
pub proof fn lemma_apart(q: Seq<Seq<char>>, p: Seq<Seq<char>>, f1: Seq<Seq<char>>, f2: Seq<Seq<char>>, k: int)
    requires
        has_prefix(q, f1),
        has_prefix(p, f2),
        0 <= k < f1.len(),
        k < f2.len(),
        f1[k] != f2[k],
    ensures
        !has_prefix(q, p),
        !has_prefix(p, q),
{
    assert(q[k] == f1[k]) by {
        assert(q.subrange(0, f1.len() as int)[k] == q[k]);
    }
    assert(p[k] == f2[k]) by {
        assert(p.subrange(0, f2.len() as int)[k] == p[k]);
    }
    if has_prefix(q, p) {
        assert(q.subrange(0, p.len() as int)[k] == q[k]);
    }
    if has_prefix(p, q) {
        assert(p.subrange(0, q.len() as int)[k] == p[k]);
    }
}

/// The paths of a listing are told apart by their strings too.
pub proof fn lemma_listing_distinct(v: Seq<String>, k: int)
    requires
        forall|i: int, j: int|
            0 <= i < v.len() && 0 <= j < v.len() && i != j ==> segs(#[trigger] v[i]@) != segs(#[trigger] v[j]@),
        0 <= k < v.len(),
    ensures
        !strs_view(v).take(k).contains(v[k]@),
{
    if strs_view(v).take(k).contains(v[k]@) {
        let j = choose|j: int| 0 <= j < k && #[trigger] strs_view(v).take(k)[j] == v[k]@;
        assert(strs_view(v).take(k)[j] == v[j]@);
        assert(segs(v[j]@) != segs(v[k]@));
    }
}

/// A pushed sequence holds what the sequence held and the pushed item.
pub proof fn lemma_contains_push(s: Seq<Seq<char>>, x: Seq<char>, q: Seq<char>)
    ensures
        s.push(x).contains(q) == (s.contains(q) || q == x),
{
    if s.push(x).contains(q) {
        let j = choose|j: int| 0 <= j < s.push(x).len() && s.push(x)[j] == q;
        if j < s.len() {
            assert(s[j] == q);
        }
    }
    if s.contains(q) {
        let j = choose|j: int| 0 <= j < s.len() && s[j] == q;
        assert(s.push(x)[j] == q);
    }
    if q == x {
        assert(s.push(x)[s.len() as int] == q);
    }
}

} // verus!
