//! Mapping between hierarchical paths (sequences of segments) and flat storage
//! keys (segments joined by `/`).
use vstd::prelude::*;
use vstd::string::{StrSliceExecFns, StringExecFns};
use crate::error::DriverError;

verus! {

/// The character that separates segments in a storage key.
pub open spec fn sep() -> char {
    '/'
}

/// The segments of a path as sequences of characters.
pub open spec fn segs_view(v: Seq<String>) -> Seq<Seq<char>> {
    v.map_values(|s: String| s@)
}

/// A segment that may appear in a path: non-empty, not `.` or `..`, no `/`.
pub open spec fn is_normal_segment(s: Seq<char>) -> bool {
    &&& s.len() > 0
    &&& s != seq!['.']
    &&& s != seq!['.', '.']
    &&& !s.contains(sep())
}

pub open spec fn is_normal_path(p: Seq<Seq<char>>) -> bool {
    forall|i: int| 0 <= i < p.len() ==> is_normal_segment(#[trigger] p[i])
}

/// Segments joined by `/`; the empty path gives the empty key.
pub open spec fn join_segs(p: Seq<Seq<char>>) -> Seq<char>
    decreases p.len(),
{
    if p.len() == 0 {
        seq![]
    } else if p.len() == 1 {
        p[0]
    } else {
        p[0] + seq![sep()] + join_segs(p.drop_first())
    }
}

/// A key cut at every `/` (always at least one segment).
pub open spec fn split_chars(k: Seq<char>) -> Seq<Seq<char>>
    decreases k.len(),
{
    if k.len() == 0 {
        seq![seq![]]
    } else {
        let rest = split_chars(k.drop_first());
        if k[0] == sep() {
            seq![seq![]] + rest
        } else {
            seq![seq![k[0]] + rest[0]] + rest.drop_first()
        }
    }
}

/// The path named by a key: the empty key is the root (no segments).
pub open spec fn key_to_path(k: Seq<char>) -> Seq<Seq<char>> {
    if k.len() == 0 {
        seq![]
    } else {
        split_chars(k)
    }
}

pub proof fn lemma_split_nonempty(k: Seq<char>)
    ensures
        split_chars(k).len() >= 1,
    decreases k.len(),
{
    if k.len() > 0 {
        lemma_split_nonempty(k.drop_first());
    }
}

/// Cutting a key that starts with a segment free of `/`: that segment joins
/// the first piece of the rest.
proof fn lemma_split_prefix(s: Seq<char>, rest: Seq<char>)
    requires
        !s.contains(sep()),
    ensures
        split_chars(s + rest) == seq![s + split_chars(rest)[0]] + split_chars(rest).drop_first(),
    decreases s.len(),
{
    lemma_split_nonempty(rest);
    if s.len() == 0 {
        assert(s + rest =~= rest);
        assert(s + split_chars(rest)[0] =~= split_chars(rest)[0]);
        assert(split_chars(rest) =~= seq![split_chars(rest)[0]] + split_chars(rest).drop_first());
    } else {
        let t = s.drop_first();
        assert(!t.contains(sep())) by {
            if t.contains(sep()) {
                let j = choose|j: int| 0 <= j < t.len() && t[j] == sep();
                assert(s[j + 1] == sep());
            }
        }
        lemma_split_prefix(t, rest);
        assert((s + rest).drop_first() =~= t + rest);
        assert(s[0] != sep()) by {
            assert(s.contains(s[0]) ==> s[0] != sep());
        }
        assert(seq![s[0]] + (t + split_chars(rest)[0]) =~= s + split_chars(rest)[0]);
        let r = split_chars(t + rest);
        assert(r.drop_first() =~= split_chars(rest).drop_first());
    }
}

/// Cutting the key of a path of segments free of `/` gives the path back.
proof fn lemma_split_join(p: Seq<Seq<char>>)
    requires
        p.len() >= 1,
        forall|i: int| 0 <= i < p.len() ==> !(#[trigger] p[i]).contains(sep()),
    ensures
        split_chars(join_segs(p)) == p,
    decreases p.len(),
{
    if p.len() == 1 {
        lemma_split_prefix(p[0], seq![]);
        assert(p[0] + seq![] =~= p[0]);
        assert(seq![p[0] + split_chars(seq![])[0]] =~= p);
        assert(split_chars(seq![]).drop_first() =~= seq![]);
        assert(split_chars(join_segs(p)) =~= p);
    } else {
        let q = p.drop_first();
        assert forall|i: int| 0 <= i < q.len() implies !(#[trigger] q[i]).contains(sep()) by {
            assert(q[i] == p[i + 1]);
        }
        lemma_split_join(q);
        let rest = seq![sep()] + join_segs(q);
        assert(join_segs(p) =~= p[0] + rest);
        lemma_split_prefix(p[0], rest);
        assert(rest.drop_first() =~= join_segs(q));
        assert(rest[0] == sep());
        assert(split_chars(rest) == seq![seq![]] + q);
        assert(split_chars(rest)[0] =~= seq![]);
        assert(p[0] + seq![] =~= p[0]);
        assert(split_chars(rest).drop_first() =~= q);
        assert(split_chars(join_segs(p)) =~= p);
    }
}

/// Round trip: the path named by the key of a path of normal segments is that path.
pub proof fn lemma_round_trip(p: Seq<Seq<char>>)
    requires
        is_normal_path(p),
    ensures
        key_to_path(join_segs(p)) == p,
{
    if p.len() > 0 {
        assert forall|i: int| 0 <= i < p.len() implies !(#[trigger] p[i]).contains(sep()) by {
            assert(is_normal_segment(p[i]));
        }
        lemma_split_join(p);
        assert(join_segs(p).len() > 0) by {
            lemma_join_len(p);
        }
    }
}

proof fn lemma_join_len(p: Seq<Seq<char>>)
    requires
        p.len() >= 1,
        is_normal_path(p),
    ensures
        join_segs(p).len() >= p[0].len(),
        join_segs(p).len() > 0,
    decreases p.len(),
{
    assert(is_normal_segment(p[0]));
    if p.len() > 1 {
        let q = p.drop_first();
        assert(is_normal_path(q)) by {
            assert forall|i: int| 0 <= i < q.len() implies is_normal_segment(#[trigger] q[i]) by {
                assert(q[i] == p[i + 1]);
            }
        }
        lemma_join_len(q);
    }
}

/// Joining one more segment onto a non-empty path appends `/` and the segment.
proof fn lemma_join_push(p: Seq<Seq<char>>, s: Seq<char>)
    requires
        p.len() >= 1,
    ensures
        join_segs(p.push(s)) == join_segs(p) + seq![sep()] + s,
    decreases p.len(),
{
    if p.len() == 1 {
        assert(p.push(s).drop_first() =~= seq![s]);
        assert(p.push(s)[0] == p[0]);
        assert(join_segs(seq![s]) == s);
    } else {
        assert(p.push(s)[0] == p[0]);
        lemma_join_push(p.drop_first(), s);
        assert(p.push(s).drop_first() =~= p.drop_first().push(s));
        assert(p[0] + seq![sep()] + (join_segs(p.drop_first()) + seq![sep()] + s) =~= p[0]
            + seq![sep()] + join_segs(p.drop_first()) + seq![sep()] + s);
    }
}

/// A storage key: the segments of a path joined by `/`.
#[derive(Debug, Clone)]
pub struct BlobPath(pub String);

impl View for BlobPath {
    type V = Seq<char>;

    open spec fn view(&self) -> Seq<char> {
        self.0@
    }
}

/// Whether a segment may appear in a path.
pub fn is_normal_seg(s: &String) -> (r: bool)
    ensures
        r == is_normal_segment(s@),
{
    let t = s.as_str();
    let n = t.unicode_len();
    if n == 0 {
        return false;
    }
    let mut i: usize = 0;
    let mut dots: usize = 0;
    while i < n
        invariant
            n == s@.len(),
            t@ == s@,
            i <= n,
            dots <= i,
            dots == i <==> (forall|j: int| 0 <= j < i ==> s@[j] == '.'),
            forall|j: int| 0 <= j < i ==> s@[j] != sep(),
        decreases n - i,
    {
        let c = t.get_char(i);
        if c == '/' {
            assert(s@.contains(sep()));
            return false;
        }
        if c == '.' && dots == i {
            dots = dots + 1;
        }
        i = i + 1;
    }
    assert(!s@.contains(sep()));
    if dots == n && n <= 2 {
        if n == 1 {
            assert(s@ =~= seq!['.']);
        } else {
            assert(s@ =~= seq!['.', '.']);
        }
        false
    } else {
        proof {
            if s@ =~= seq!['.'] || s@ =~= seq!['.', '.'] {
                assert(dots == n);
            }
        }
        true
    }
}

/// Whether every segment of a path may appear in a path.
pub fn is_normal(p: &Vec<String>) -> (r: bool)
    ensures
        r == is_normal_path(segs_view(p@)),
{
    let mut i: usize = 0;
    while i < p.len()
        invariant
            i <= p.len(),
            forall|j: int| 0 <= j < i ==> is_normal_segment(#[trigger] segs_view(p@)[j]),
        decreases p.len() - i,
    {
        if !is_normal_seg(&p[i]) {
            assert(!is_normal_segment(segs_view(p@)[i as int]));
            return false;
        }
        i = i + 1;
    }
    true
}

impl BlobPath {
    pub fn new(p: String) -> (r: BlobPath)
        ensures
            r@ == p@,
    {
        BlobPath(p)
    }

    pub fn as_str(&self) -> (r: &str)
        ensures
            r@ == self@,
    {
        self.0.as_str()
    }

    /// The key of a path; a segment that is not normal is unsupported.
    pub fn from_path(p: &Vec<String>) -> (r: Result<BlobPath, DriverError>)
        ensures
            match r {
                Ok(b) => is_normal_path(segs_view(p@)) && b@ == join_segs(segs_view(p@)),
                Err(e) => !is_normal_path(segs_view(p@)) && e == DriverError::Unimplemented,
            },
    {
        let ghost sv = segs_view(p@);
        let mut out = String::new();
        let mut i: usize = 0;
        while i < p.len()
            invariant
                sv == segs_view(p@),
                i <= p.len(),
                forall|j: int| 0 <= j < i ==> is_normal_segment(#[trigger] sv[j]),
                out@ == join_segs(sv.take(i as int)),
            decreases p.len() - i,
        {
            if !is_normal_seg(&p[i]) {
                assert(sv[i as int] == p@[i as int]@);
                assert(!is_normal_segment(sv[i as int]));
                return Err(DriverError::Unimplemented);
            }
            proof {
                assert(sv.take(i as int + 1) =~= sv.take(i as int).push(sv[i as int]));
                if i > 0 {
                    lemma_join_push(sv.take(i as int), sv[i as int]);
                } else {
                    assert(sv.take(1) =~= seq![sv[0]]);
                }
            }
            if i > 0 {
                out.append("/");
                proof { reveal_strlit("/"); }
            }
            out.append(p[i].as_str());
            assert(out@ =~= join_segs(sv.take(i as int + 1)));
            i = i + 1;
        }
        assert(sv.take(p.len() as int) =~= sv);
        Ok(BlobPath(out))
    }

    /// The path that this key names.
    pub fn to_path_buf(&self) -> (r: Vec<String>)
        ensures
            segs_view(r@) == key_to_path(self@),
    {
        blob_to_path(self.0.as_str())
    }
}

/// The path that a key names: the key cut at every `/`; the empty key is the root.
pub fn blob_to_path(blob: &str) -> (r: Vec<String>)
    ensures
        segs_view(r@) == key_to_path(blob@),
{
    let k = blob;
    let n = k.unicode_len();
    let mut out: Vec<String> = Vec::new();
    if n == 0 {
        assert(segs_view(out@) =~= seq![]);
        return out;
    }
    let mut start: usize = 0;
    let mut i: usize = 0;
    assert(k@.subrange(0, n as int) =~= k@);
    assert(segs_view(out@) + split_chars(k@) =~= split_chars(k@));
    assert(k@.subrange(0, 0) =~= seq![]);
    while i < n
        invariant
            n == k@.len(),
            start <= i <= n,
            segs_view(out@) + split_chars(k@.subrange(start as int, n as int)) == split_chars(k@),
            !k@.subrange(start as int, i as int).contains(sep()),
        decreases n - i,
    {
        let c = k.get_char(i);
        if c == '/' {
            let seg = String::from_str(k.substring_char(start, i));
            proof {
                let s = k@.subrange(start as int, i as int);
                let rest = k@.subrange(i as int, n as int);
                lemma_split_prefix(s, rest);
                assert(s + rest =~= k@.subrange(start as int, n as int));
                assert(rest.drop_first() =~= k@.subrange(i + 1, n as int));
                assert(split_chars(rest)[0] =~= seq![]);
                assert(s + seq![] =~= s);
                assert(split_chars(rest).drop_first() =~= split_chars(k@.subrange(i + 1, n as int)));
                assert(segs_view(out@.push(seg)) =~= segs_view(out@).push(s));
                assert(segs_view(out@).push(s) + split_chars(k@.subrange(i + 1, n as int))
                    =~= segs_view(out@) + split_chars(k@.subrange(start as int, n as int)));
                assert(k@.subrange(i + 1, i + 1) =~= seq![]);
            }
            out.push(seg);
            start = i + 1;
        } else {
            proof {
                let s2 = k@.subrange(start as int, i + 1);
                if s2.contains(sep()) {
                    let j = choose|j: int| 0 <= j < s2.len() && s2[j] == sep();
                    if j < s2.len() - 1 {
                        assert(k@.subrange(start as int, i as int)[j] == sep());
                    }
                }
            }
        }
        i = i + 1;
    }
    let seg = String::from_str(k.substring_char(start, n));
    proof {
        let s = k@.subrange(start as int, n as int);
        lemma_split_prefix(s, seq![]);
        assert(s + seq![] =~= s);
        assert(seq![s + split_chars(seq![])[0]] + split_chars(seq![]).drop_first() =~= seq![s]);
        assert(segs_view(out@.push(seg)) =~= segs_view(out@) + seq![s]);
    }
    out.push(seg);
    out
}

} // verus!
