//! Character-level helpers for the textual protocol: conversions between
//! `str` and `Vec<char>`, equality, case folding, substring search, splitting
//! and trimming.  Everything here is stated over `Seq<char>` views.

use vstd::prelude::*;
use vstd::string::*;

verus! {

/// The characters of `s`, in order.
pub fn chars_of(s: &str) -> (r: Vec<char>)
    ensures
        r@ == s@,
{
    let n = s.unicode_len();
    let mut r: Vec<char> = Vec::new();
    let mut i: usize = 0;
    while i < n
        invariant
            i <= n,
            n == s@.len(),
            r@ == s@.subrange(0, i as int),
        decreases n - i,
    {
        r.push(s.get_char(i));
        i = i + 1;
        proof {
            assert(r@ =~= s@.subrange(0, i as int));
        }
    }
    proof {
        assert(r@ =~= s@);
    }
    r
}

/// Relies on `String: FromIterator<char>` (std): collecting an iterator of
/// characters yields a string holding exactly those characters, in order.
#[verifier::external_body]
pub fn string_from_chars(v: &Vec<char>) -> (s: String)
    ensures
        s@ == v@,
{
    v.iter().collect()
}

/// Character-for-character equality of two string slices.
pub fn str_eq(a: &str, b: &str) -> (r: bool)
    ensures
        r == (a@ == b@),
{
    let na = a.unicode_len();
    let nb = b.unicode_len();
    if na != nb {
        return false;
    }
    let mut i: usize = 0;
    while i < na
        invariant
            i <= na,
            na == a@.len(),
            na == b@.len(),
            forall|j: int| 0 <= j < i ==> a@[j] == b@[j],
        decreases na - i,
    {
        if a.get_char(i) != b.get_char(i) {
            return false;
        }
        i = i + 1;
    }
    proof {
        assert(a@ =~= b@);
    }
    true
}

/// What `str::to_lowercase` returns; it depends on the characters alone.
pub uninterp spec fn lower_of(s: Seq<char>) -> Seq<char>;

/// Relies on `str::to_lowercase` (std): Unicode lowercasing, a function of
/// the characters alone.
#[verifier::external_body]
pub fn to_lowercase(s: &str) -> (r: String)
    ensures
        r@ == lower_of(s@),
{
    s.to_lowercase()
}

/// `needle` occurs contiguously inside `hay`.
pub open spec fn seq_contains_sub(hay: Seq<char>, needle: Seq<char>) -> bool {
    exists|i: int|
        0 <= i && i + needle.len() <= hay.len() && #[trigger] hay.subrange(i, i + needle.len())
            == needle
}

/// Naive substring search.
pub fn str_contains(hay: &str, needle: &str) -> (r: bool)
    ensures
        r == seq_contains_sub(hay@, needle@),
{
    let h = chars_of(hay);
    let n = chars_of(needle);
    let hn = h.len();
    let nn = n.len();
    if nn > hn {
        return false;
    }
    let mut i: usize = 0;
    while i <= hn - nn
        invariant
            nn <= hn,
            hn == hay@.len(),
            nn == needle@.len(),
            h@ == hay@,
            n@ == needle@,
            i <= hn - nn + 1,
            forall|k: int| 0 <= k < i ==> #[trigger] hay@.subrange(k, k + needle@.len()) != needle@,
        decreases hn + 1 - nn - i,
    {
        let mut j: usize = 0;
        let mut matches: bool = true;
        while j < nn
            invariant
                nn <= hn,
                i <= hn - nn,
                j <= nn,
                hn == hay@.len(),
                nn == needle@.len(),
                h@ == hay@,
                n@ == needle@,
                matches == (forall|t: int| 0 <= t < j ==> hay@[i + t] == needle@[t]),
            decreases nn - j,
        {
            if h[i + j] != n[j] {
                matches = false;
                j = nn;
            } else {
                j = j + 1;
            }
        }
        if matches {
            proof {
                assert(hay@.subrange(i as int, i + needle@.len()) =~= needle@);
            }
            return true;
        }
        proof {
            if hay@.subrange(i as int, i + needle@.len()) == needle@ {
                assert(forall|t: int|
                    0 <= t < nn ==> hay@[i + t] == #[trigger] hay@.subrange(
                        i as int,
                        i + needle@.len(),
                    )[t]);
            }
        }
        i = i + 1;
    }
    proof {
        assert forall|k: int| 0 <= k && k + needle@.len() <= hay@.len() implies #[trigger] hay@
            .subrange(k, k + needle@.len()) != needle@ by {
            assert(k < i);
        }
    }
    false
}

/// A character the hub treats as whitespace when trimming configuration
/// values.
pub open spec fn spec_is_ws(c: char) -> bool {
    c == ' ' || c == '\t' || c == '\n' || c == '\r'
}

pub fn is_ws(c: char) -> (r: bool)
    ensures
        r == spec_is_ws(c),
{
    c == ' ' || c == '\t' || c == '\n' || c == '\r'
}

/// `s` with leading and trailing whitespace removed.
pub open spec fn trim_spec(s: Seq<char>) -> Seq<char>
    decreases s.len(),
{
    if s.len() == 0 {
        s
    } else if spec_is_ws(s[0]) {
        trim_spec(s.drop_first())
    } else if spec_is_ws(s.last()) {
        trim_spec(s.drop_last())
    } else {
        s
    }
}

/// Trim ASCII whitespace from both ends of a character sequence.
pub fn trim_chars(v: &Vec<char>) -> (r: Vec<char>)
    ensures
        r@ == trim_spec(v@),
{
    let mut lo: usize = 0;
    let mut hi: usize = v.len();
    proof {
        assert(v@.subrange(0, v@.len() as int) =~= v@);
    }
    while lo < hi && is_ws(v[lo])
        invariant
            lo <= hi,
            hi <= v.len(),
            trim_spec(v@) == trim_spec(v@.subrange(lo as int, hi as int)),
        decreases hi - lo,
    {
        proof {
            let cur = v@.subrange(lo as int, hi as int);
            assert(cur.drop_first() =~= v@.subrange(lo as int + 1, hi as int));
        }
        lo = lo + 1;
    }
    while lo < hi && is_ws(v[hi - 1])
        invariant
            lo <= hi,
            hi <= v.len(),
            trim_spec(v@) == trim_spec(v@.subrange(lo as int, hi as int)),
            lo < hi ==> !spec_is_ws(v@[lo as int]),
        decreases hi - lo,
    {
        proof {
            let cur = v@.subrange(lo as int, hi as int);
            assert(cur.drop_last() =~= v@.subrange(lo as int, hi as int - 1));
        }
        hi = hi - 1;
    }
    let mut r: Vec<char> = Vec::new();
    let mut i: usize = lo;
    while i < hi
        invariant
            lo <= i <= hi,
            hi <= v.len(),
            r@ == v@.subrange(lo as int, i as int),
        decreases hi - i,
    {
        r.push(v[i]);
        i = i + 1;
        proof {
            assert(r@ =~= v@.subrange(lo as int, i as int));
        }
    }
    proof {
        let cur = v@.subrange(lo as int, hi as int);
        if lo == hi {
            assert(cur =~= Seq::<char>::empty());
        }
        assert(r@ =~= cur);
    }
    r
}

/// Trim ASCII whitespace from both ends of a string slice.
pub fn trim_str(s: &str) -> (r: String)
    ensures
        r@ == trim_spec(s@),
{
    let v = chars_of(s);
    let t = trim_chars(&v);
    string_from_chars(&t)
}

/// Index of the first occurrence of `sep` in `s`, or -1.
pub open spec fn first_idx(s: Seq<char>, sep: char) -> int
    decreases s.len(),
{
    if s.len() == 0 {
        -1
    } else if s[0] == sep {
        0
    } else if first_idx(s.drop_first(), sep) < 0 {
        -1
    } else {
        1 + first_idx(s.drop_first(), sep)
    }
}

pub proof fn lemma_first_idx(s: Seq<char>, sep: char)
    ensures
        first_idx(s, sep) >= 0 ==> {
            &&& first_idx(s, sep) < s.len()
            &&& s[first_idx(s, sep)] == sep
            &&& forall|j: int| 0 <= j < first_idx(s, sep) ==> s[j] != sep
        },
        first_idx(s, sep) < 0 ==> forall|j: int| 0 <= j < s.len() ==> s[j] != sep,
    decreases s.len(),
{
    if s.len() > 0 && s[0] != sep {
        lemma_first_idx(s.drop_first(), sep);
        let rest = s.drop_first();
        let fi = first_idx(rest, sep);
        assert(forall|j: int| 1 <= j < s.len() ==> s[j] == rest[j - 1]);
        if fi >= 0 {
            assert(s[1 + fi] == rest[fi]);
            assert(forall|j: int| 0 <= j < 1 + fi ==> s[j] != sep);
        } else {
            assert(forall|j: int| 0 <= j < s.len() ==> s[j] != sep);
        }
    }
}

/// `s` split on `sep`: the (possibly empty) pieces between separators, as
/// `str::split` yields them.
pub open spec fn split_spec(s: Seq<char>, sep: char) -> Seq<Seq<char>>
    decreases s.len(),
{
    let i = first_idx(s, sep);
    if 0 <= i < s.len() {
        seq![s.take(i)].add(split_spec(s.skip(i + 1), sep))
    } else {
        seq![s]
    }
}

/// Split a string on a separator character.  The result always holds at
/// least one piece, and empty pieces are kept.
pub fn split_str(s: &str, sep: char) -> (r: Vec<String>)
    ensures
        r.deep_view() == split_spec(s@, sep),
{
    let v = chars_of(s);
    let n = v.len();
    let mut r: Vec<String> = Vec::new();
    let mut start: usize = 0;
    let mut i: usize = 0;
    proof {
        assert(s@.skip(0) =~= s@);
        assert(r.deep_view() =~= Seq::<Seq<char>>::empty());
        assert(Seq::<Seq<char>>::empty().add(split_spec(s@, sep)) =~= split_spec(s@, sep));
    }
    while i < n
        invariant
            start <= i <= n,
            n == v@.len(),
            v@ == s@,
            forall|j: int| start <= j < i ==> v@[j] != sep,
            r.deep_view().add(split_spec(s@.skip(start as int), sep)) == split_spec(s@, sep),
        decreases n - i,
    {
        if v[i] == sep {
            let mut piece: Vec<char> = Vec::new();
            let mut k: usize = start;
            while k < i
                invariant
                    start <= k <= i,
                    i < n,
                    n == v@.len(),
                    piece@ == v@.subrange(start as int, k as int),
                decreases i - k,
            {
                piece.push(v[k]);
                k = k + 1;
                proof {
                    assert(piece@ =~= v@.subrange(start as int, k as int));
                }
            }
            let piece_s = string_from_chars(&piece);
            let ghost prev = r.deep_view();
            proof {
                let rest = s@.skip(start as int);
                lemma_first_idx(rest, sep);
                let fi = first_idx(rest, sep);
                assert(rest[i - start as int] == sep);
                if fi < 0 {
                    assert(rest[i - start as int] != sep);
                }
                if fi < i - start as int {
                    assert(s@[start as int + fi] != sep);
                }
                assert(fi == i - start as int);
                assert(rest.take(fi) =~= piece@);
                assert(rest.skip(fi + 1) =~= s@.skip(i as int + 1));
            }
            r.push(piece_s);
            proof {
                assert(r.deep_view() =~= prev.push(piece@));
                let rest = s@.skip(start as int);
                assert(split_spec(rest, sep) == seq![piece@].add(
                    split_spec(s@.skip(i as int + 1), sep),
                ));
                assert(r.deep_view().add(split_spec(s@.skip(i as int + 1), sep)) =~= prev.add(
                    split_spec(rest, sep),
                ));
            }
            start = i + 1;
        }
        i = i + 1;
    }
    let mut piece: Vec<char> = Vec::new();
    let mut k: usize = start;
    while k < n
        invariant
            start <= k <= n,
            n == v@.len(),
            piece@ == v@.subrange(start as int, k as int),
        decreases n - k,
    {
        piece.push(v[k]);
        k = k + 1;
        proof {
            assert(piece@ =~= v@.subrange(start as int, k as int));
        }
    }
    let piece_s = string_from_chars(&piece);
    let ghost prev = r.deep_view();
    proof {
        let rest = s@.skip(start as int);
        lemma_first_idx(rest, sep);
        if first_idx(rest, sep) >= 0 {
            assert(s@[start as int + first_idx(rest, sep)] != sep);
        }
        assert(first_idx(rest, sep) < 0);
        assert(split_spec(rest, sep) == seq![rest]);
        assert(piece@ =~= rest);
    }
    r.push(piece_s);
    proof {
        assert(r.deep_view() =~= prev.push(s@.skip(start as int)));
        assert(r.deep_view() =~= prev.add(seq![s@.skip(start as int)]));
    }
    r
}

} // verus!
