//! Decimal rendering of unsigned counters, used by the statistics snapshot.

use vstd::prelude::*;

verus! {

/// The decimal digits of `n`, most significant first, as ASCII bytes.
pub open spec fn dec_bytes(n: nat) -> Seq<u8>
    decreases n,
{
    if n < 10 {
        seq![(48 + n) as u8]
    } else {
        dec_bytes(n / 10).push((48 + n % 10) as u8)
    }
}

/// The decimal digits of `n`, most significant first, as characters.
pub open spec fn dec_chars(n: nat) -> Seq<char>
    decreases n,
{
    if n < 10 {
        seq![((48 + n) as u8) as char]
    } else {
        dec_chars(n / 10).push(((48 + n % 10) as u8) as char)
    }
}

/// Every byte of `dec_bytes` is an ASCII digit.
pub proof fn lemma_dec_bytes_ascii(n: nat)
    ensures
        forall|i: int| 0 <= i < dec_bytes(n).len() ==> 48 <= #[trigger] dec_bytes(n)[i] <= 57,
    decreases n,
{
    if n >= 10 {
        lemma_dec_bytes_ascii(n / 10);
        assert forall|i: int| 0 <= i < dec_bytes(n).len() implies 48 <= #[trigger] dec_bytes(
            n,
        )[i] <= 57 by {
            if i < dec_bytes(n / 10).len() {
                assert(dec_bytes(n)[i] == dec_bytes(n / 10)[i]);
            }
        }
    }
}

/// `dec_chars` is `dec_bytes` read as characters, digit for digit.
pub proof fn lemma_dec_chars_bytes(n: nat)
    ensures
        dec_chars(n).len() == dec_bytes(n).len(),
        forall|i: int| 0 <= i < dec_bytes(n).len()
            ==> #[trigger] dec_chars(n)[i] == dec_bytes(n)[i] as char,
    decreases n,
{
    if n >= 10 {
        lemma_dec_chars_bytes(n / 10);
    }
}

/// Relies on `String::from_utf8`: bytes below 128 are valid UTF-8 and decode
/// to the characters with the same code points.
#[verifier::external_body]
pub(crate) fn ascii_string(v: Vec<u8>) -> (r: String)
    requires
        forall|i: int| 0 <= i < v@.len() ==> v@[i] < 128,
    ensures
        r@.len() == v@.len(),
        forall|i: int| 0 <= i < v@.len() ==> r@[i] == v@[i] as char,
{
    String::from_utf8(v).unwrap_or_default()
}

/// Render `x` in decimal, without a sign and without leading zeros.
pub fn u64_to_string(x: u64) -> (r: String)
    ensures
        r@ == dec_chars(x as nat),
{
    let mut digits: Vec<u8> = Vec::new();
    let mut m: u64 = x;
    loop
        invariant_except_break
            dec_bytes(x as nat) =~= dec_bytes(m as nat) + digits@,
            forall|i: int| 0 <= i < digits@.len() ==> 48 <= #[trigger] digits@[i] <= 57,
        ensures
            digits@ =~= dec_bytes(x as nat),
            forall|i: int| 0 <= i < digits@.len() ==> 48 <= #[trigger] digits@[i] <= 57,
        decreases m,
    {
        let d: u8 = (m % 10) as u8 + 48;
        digits.insert(0, d);
        if m < 10 {
            proof {
                assert(dec_bytes(m as nat) =~= seq![d]);
                assert(dec_bytes(x as nat) =~= digits@);
            }
            break;
        }
        proof {
            assert(dec_bytes(m as nat) =~= dec_bytes((m / 10) as nat) + seq![d]);
        }
        m = m / 10;
    }
    let r = ascii_string(digits);
    proof {
        lemma_dec_chars_bytes(x as nat);
        assert(r@ =~= dec_chars(x as nat));
    }
    r
}

} // verus!
