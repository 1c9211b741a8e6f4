//! Verified substring and prefix matching over byte sequences, with ASCII
//! case folding, for guards that scan raw file contents.

use vstd::prelude::*;

verus! {

/// ASCII lower-casing of one byte; everything else is untouched.
pub open spec fn lower_byte(b: u8) -> u8 {
    if 65 <= b && b <= 90 {
        (b + 32) as u8
    } else {
        b
    }
}

/// ASCII lower-casing of a whole byte sequence.
pub open spec fn lower_bytes(s: Seq<u8>) -> Seq<u8> {
    s.map(|i: int, b: u8| lower_byte(b))
}

/// The bytes of a character sequence, each character truncated to a byte.
pub open spec fn bytes_of_chars(s: Seq<char>) -> Seq<u8> {
    s.map(|i: int, c: char| c as u8)
}

/// `p` occurs somewhere in `s`.
pub open spec fn is_substr_bytes(p: Seq<u8>, s: Seq<u8>) -> bool {
    exists|k: int| 0 <= k <= s.len() - p.len() && #[trigger] s.subrange(k, k + p.len()) == p
}

/// `s` begins with `p`.
pub open spec fn is_prefix_bytes(p: Seq<u8>, s: Seq<u8>) -> bool {
    p.len() <= s.len() && s.subrange(0, p.len() as int) == p
}

/// The bytes of a pattern given as a string.
pub fn pattern_bytes(p: &str) -> (r: Vec<u8>)
    ensures
        r@ == bytes_of_chars(p@),
{
    let cs = crate::textscan::chars_of(p);
    let mut r: Vec<u8> = Vec::new();
    let mut i: usize = 0;
    while i < cs.len()
        invariant
            i <= cs@.len(),
            r@.len() == i,
            forall|j: int| 0 <= j < i ==> r@[j] == cs@[j] as u8,
        decreases cs@.len() - i,
    {
        r.push(#[verifier::truncate] (cs[i] as u8));
        i = i + 1;
    }
    proof {
        assert(r@ =~= bytes_of_chars(cs@));
    }
    r
}

/// ASCII lower-casing of a byte vector.
pub fn fold_bytes(v: &Vec<u8>) -> (r: Vec<u8>)
    ensures
        r@ == lower_bytes(v@),
{
    let mut r: Vec<u8> = Vec::new();
    let mut i: usize = 0;
    while i < v.len()
        invariant
            i <= v@.len(),
            r@.len() == i,
            forall|j: int| 0 <= j < i ==> r@[j] == lower_byte(v@[j]),
        decreases v@.len() - i,
    {
        let b = v[i];
        if 65 <= b && b <= 90 {
            r.push(b + 32);
        } else {
            r.push(b);
        }
        i = i + 1;
    }
    proof {
        assert(r@ =~= lower_bytes(v@));
    }
    r
}

/// Does `p` match `hay` at offset `k`?
fn matches_bytes_at(hay: &Vec<u8>, k: usize, p: &Vec<u8>) -> (b: bool)
    requires
        k + p@.len() <= hay@.len(),
    ensures
        b == (hay@.subrange(k as int, k + p@.len()) == p@),
{
    let hlen: usize = hay.len();
    let mut j: usize = 0;
    while j < p.len()
        invariant
            j <= p@.len(),
            k + p@.len() <= hay@.len(),
            hay@.len() == hlen,
            forall|j2: int| 0 <= j2 < j ==> hay@[k + j2] == p@[j2],
        decreases p@.len() - j,
    {
        if hay[k + j] != p[j] {
            proof {
                assert(hay@.subrange(k as int, k + p@.len())[j as int] != p@[j as int]);
            }
            return false;
        }
        j = j + 1;
    }
    proof {
        assert(hay@.subrange(k as int, k + p@.len()) =~= p@);
    }
    true
}

/// Does `p` occur anywhere in `hay`?
pub fn contains_bytes(hay: &Vec<u8>, p: &Vec<u8>) -> (b: bool)
    ensures
        b == is_substr_bytes(p@, hay@),
{
    if p.len() > hay.len() {
        proof {
            assert(!is_substr_bytes(p@, hay@));
        }
        return false;
    }
    if p.len() == 0 {
        proof {
            assert(hay@.subrange(0, 0 + p@.len() as int) =~= p@);
            assert(is_substr_bytes(p@, hay@));
        }
        return true;
    }
    let hlen: usize = hay.len();
    let last = hlen - p.len();
    let mut k: usize = 0;
    while k <= last
        invariant
            k <= last + 1,
            1 <= p@.len() <= hay@.len(),
            hay@.len() == hlen,
            last == hay@.len() - p@.len(),
            forall|k2: int| 0 <= k2 < k ==> #[trigger] hay@.subrange(k2, k2 + p@.len()) != p@,
        decreases last + 1 - k,
    {
        if matches_bytes_at(hay, k, p) {
            proof {
                assert(is_substr_bytes(p@, hay@));
            }
            return true;
        }
        k = k + 1;
    }
    proof {
        assert(!is_substr_bytes(p@, hay@));
    }
    false
}

/// Does `hay` begin with `p`?
pub fn prefix_bytes(hay: &Vec<u8>, p: &Vec<u8>) -> (b: bool)
    ensures
        b == is_prefix_bytes(p@, hay@),
{
    if p.len() > hay.len() {
        return false;
    }
    matches_bytes_at(hay, 0, p)
}

/// Does the pattern occur in `hay`, with `hay` ASCII-lower-cased first?
pub fn contains_bytes_folded(hay: &Vec<u8>, p: &str) -> (b: bool)
    ensures
        b == is_substr_bytes(bytes_of_chars(p@), lower_bytes(hay@)),
{
    let folded = fold_bytes(hay);
    let pv = pattern_bytes(p);
    contains_bytes(&folded, &pv)
}

} // verus!
