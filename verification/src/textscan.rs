//! Verified substring, prefix and suffix matching over character
//! sequences, with ASCII case folding, shared by the policy guards.

use vstd::prelude::*;
use vstd::string::StrSliceExecFns;

verus! {

/// ASCII lower-casing of one character; everything else is untouched.
pub open spec fn lower_char(c: char) -> char {
    if 'A' <= c && c <= 'Z' {
        ((c as u8) + 32) as char
    } else {
        c
    }
}

/// ASCII lower-casing of a whole sequence.
pub open spec fn lower_seq(s: Seq<char>) -> Seq<char> {
    s.map(|i: int, c: char| lower_char(c))
}

/// `p` occurs somewhere in `s`.
pub open spec fn is_substr(p: Seq<char>, s: Seq<char>) -> bool {
    exists|k: int| 0 <= k <= s.len() - p.len() && #[trigger] s.subrange(k, k + p.len()) == p
}

/// `s` begins with `p`.
pub open spec fn is_prefix(p: Seq<char>, s: Seq<char>) -> bool {
    p.len() <= s.len() && s.subrange(0, p.len() as int) == p
}

/// `s` ends with `p`.
pub open spec fn is_suffix(p: Seq<char>, s: Seq<char>) -> bool {
    p.len() <= s.len() && s.subrange(s.len() - p.len(), s.len() as int) == p
}

/// The characters of `s`, one by one.
pub fn chars_of(s: &str) -> (v: Vec<char>)
    ensures
        v@ == s@,
{
    let n = s.unicode_len();
    let mut v: Vec<char> = Vec::new();
    let mut i: usize = 0;
    while i < n
        invariant
            i <= n,
            n == s@.len(),
            v@.len() == i,
            forall|j: int| 0 <= j < i ==> v@[j] == s@[j],
        decreases n - i,
    {
        let c = s.get_char(i);
        v.push(c);
        i = i + 1;
    }
    proof {
        assert(v@ =~= s@);
    }
    v
}

/// ASCII lower-casing of one character.
pub fn fold_char(c: char) -> (r: char)
    ensures
        r == lower_char(c),
{
    if 'A' <= c && c <= 'Z' {
        ((c as u8) + 32) as char
    } else {
        c
    }
}

/// ASCII lower-casing of a character vector.
pub fn fold_chars(v: &Vec<char>) -> (r: Vec<char>)
    ensures
        r@ == lower_seq(v@),
{
    let mut r: Vec<char> = Vec::new();
    let mut i: usize = 0;
    while i < v.len()
        invariant
            i <= v@.len(),
            r@.len() == i,
            forall|j: int| 0 <= j < i ==> r@[j] == lower_char(v@[j]),
        decreases v@.len() - i,
    {
        r.push(fold_char(v[i]));
        i = i + 1;
    }
    proof {
        assert(r@ =~= lower_seq(v@));
    }
    r
}

/// Does `p` match `hay` at offset `k`?
fn matches_at(hay: &Vec<char>, k: usize, p: &Vec<char>) -> (b: bool)
    requires
        k + p@.len() <= hay@.len(),
    ensures
        b == (hay@.subrange(k as int, k + p@.len()) == p@),
{
    let hlen: usize = hay.len();
    let mut j: usize = 0;
    while j < p.len()
        invariant
            j <= p@.len(),
            k + p@.len() <= hay@.len(),
            hay@.len() == hlen,
            forall|j2: int| 0 <= j2 < j ==> hay@[k + j2] == p@[j2],
        decreases p@.len() - j,
    {
        if hay[k + j] != p[j] {
            proof {
                assert(hay@.subrange(k as int, k + p@.len())[j as int] != p@[j as int]);
            }
            return false;
        }
        j = j + 1;
    }
    proof {
        assert(hay@.subrange(k as int, k + p@.len()) =~= p@);
    }
    true
}

/// Does `p` occur anywhere in `hay`?
pub fn contains_chars(hay: &Vec<char>, p: &Vec<char>) -> (b: bool)
    ensures
        b == is_substr(p@, hay@),
{
    if p.len() > hay.len() {
        proof {
            assert(!is_substr(p@, hay@));
        }
        return false;
    }
    if p.len() == 0 {
        proof {
            assert(hay@.subrange(0, 0 + p@.len() as int) =~= p@);
            assert(is_substr(p@, hay@));
        }
        return true;
    }
    let hlen: usize = hay.len();
    let last = hlen - p.len();
    let mut k: usize = 0;
    while k <= last
        invariant
            k <= last + 1,
            1 <= p@.len() <= hay@.len(),
            hay@.len() == hlen,
            last == hay@.len() - p@.len(),
            forall|k2: int| 0 <= k2 < k ==> #[trigger] hay@.subrange(k2, k2 + p@.len()) != p@,
        decreases last + 1 - k,
    {
        if matches_at(hay, k, p) {
            proof {
                assert(is_substr(p@, hay@));
            }
            return true;
        }
        k = k + 1;
    }
    proof {
        assert(!is_substr(p@, hay@));
    }
    false
}

/// Does `hay` begin with `p`?
pub fn prefix_chars(hay: &Vec<char>, p: &Vec<char>) -> (b: bool)
    ensures
        b == is_prefix(p@, hay@),
{
    if p.len() > hay.len() {
        return false;
    }
    matches_at(hay, 0, p)
}

/// Does `hay` end with `p`?
pub fn suffix_chars(hay: &Vec<char>, p: &Vec<char>) -> (b: bool)
    ensures
        b == is_suffix(p@, hay@),
{
    if p.len() > hay.len() {
        return false;
    }
    matches_at(hay, hay.len() - p.len(), p)
}

/// Does the pattern occur in `hay`, with `hay` ASCII-lower-cased first?
pub fn contains_folded(hay: &Vec<char>, p: &str) -> (b: bool)
    ensures
        b == is_substr(p@, lower_seq(hay@)),
{
    let folded = fold_chars(hay);
    let pv = chars_of(p);
    contains_chars(&folded, &pv)
}

/// Does the pattern occur in `hay` as written?
pub fn contains_plain(hay: &Vec<char>, p: &str) -> (b: bool)
    ensures
        b == is_substr(p@, hay@),
{
    let pv = chars_of(p);
    contains_chars(hay, &pv)
}

/// Does the ASCII-lower-cased `hay` begin with the pattern?
pub fn prefix_folded(hay: &Vec<char>, p: &str) -> (b: bool)
    ensures
        b == is_prefix(p@, lower_seq(hay@)),
{
    let folded = fold_chars(hay);
    let pv = chars_of(p);
    prefix_chars(&folded, &pv)
}

/// Does `hay` begin with the pattern as written?
pub fn prefix_plain(hay: &Vec<char>, p: &str) -> (b: bool)
    ensures
        b == is_prefix(p@, hay@),
{
    let pv = chars_of(p);
    prefix_chars(hay, &pv)
}

/// Does `hay` end with the pattern as written?
pub fn suffix_plain(hay: &Vec<char>, p: &str) -> (b: bool)
    ensures
        b == is_suffix(p@, hay@),
{
    let pv = chars_of(p);
    suffix_chars(hay, &pv)
}

/// Does the ASCII-lower-cased `hay` end with the pattern?
pub fn suffix_folded(hay: &Vec<char>, p: &str) -> (b: bool)
    ensures
        b == is_suffix(p@, lower_seq(hay@)),
{
    let folded = fold_chars(hay);
    let pv = chars_of(p);
    suffix_chars(&folded, &pv)
}

} // verus!
