//! File-integrity guard: fingerprints of watched files are compared scan
//! over scan; a changed fingerprint counts as tampering, an unknown path
//! as a new file. The filesystem walk and the background thread live with
//! the embedder; this module holds the digest, the hex rendering, the
//! snapshot comparison and the guard's counters.

use vstd::prelude::*;

verus! {

/// One hex digit, lower case.
pub open spec fn hex_char(d: int) -> char {
    if d < 10 {
        ((48 + d) as u8) as char
    } else {
        ((87 + d) as u8) as char
    }
}

/// One hex digit as an ASCII byte: the high or low half of `b`.
pub open spec fn hex_digit_byte(b: u8, half: int) -> u8 {
    let d = if half == 0 {
        b >> 4
    } else {
        b & 0xf
    };
    if d < 10 {
        (d + 48) as u8
    } else {
        (d + 87) as u8
    }
}

/// The lower-case hex rendering of a byte sequence, two digits per byte.
pub open spec fn hex_of(b: Seq<u8>) -> Seq<char> {
    Seq::new(2 * b.len(), |i: int| hex_digit_byte(b[i / 2], i % 2) as char)
}

/// Render bytes as lower-case hex.
pub fn to_hex(bytes: &Vec<u8>) -> (r: String)
    ensures
        r@ == hex_of(bytes@),
{
    let mut digits: Vec<u8> = Vec::new();
    let mut i: usize = 0;
    while i < bytes.len()
        invariant
            i <= bytes@.len(),
            digits@.len() == 2 * i,
            forall|j: int|
                0 <= j < 2 * i ==> #[trigger] digits@[j] == hex_digit_byte(bytes@[j / 2], j % 2),
            forall|j: int| 0 <= j < 2 * i ==> #[trigger] digits@[j] < 128,
        decreases bytes@.len() - i,
    {
        let b = bytes[i];
        let hi = b >> 4;
        let lo = b & 0xf;
        proof {
            assert(hi < 16 && lo < 16) by (bit_vector)
                requires
                    hi == b >> 4,
                    lo == b & 0xf,
            ;
        }
        if hi < 10 {
            digits.push(hi + 48);
        } else {
            digits.push(hi + 87);
        }
        if lo < 10 {
            digits.push(lo + 48);
        } else {
            digits.push(lo + 87);
        }
        i = i + 1;
    }
    let r = crate::decimal::ascii_string(digits);
    proof {
        assert forall|j: int| 0 <= j < r@.len() implies r@[j] == hex_of(bytes@)[j] by {
            assert(r@[j] == digits@[j] as char);
            assert(digits@[j] == hex_digit_byte(bytes@[j / 2], j % 2));
        }
        assert(r@ =~= hex_of(bytes@));
    }
    r
}

/// Right rotation of a 32-bit word.
pub open spec fn rotr(x: u32, n: u32) -> u32
    recommends
        0 < n < 32,
{
    (x >> n) | (x << ((32 - n) as u32))
}

/// The four sigma functions of the hash's round schedule.
pub open spec fn bsig0(x: u32) -> u32 {
    rotr(x, 2) ^ rotr(x, 13) ^ rotr(x, 22)
}

pub open spec fn bsig1(x: u32) -> u32 {
    rotr(x, 6) ^ rotr(x, 11) ^ rotr(x, 25)
}

pub open spec fn ssig0(x: u32) -> u32 {
    rotr(x, 7) ^ rotr(x, 18) ^ (x >> 3)
}

pub open spec fn ssig1(x: u32) -> u32 {
    rotr(x, 17) ^ rotr(x, 19) ^ (x >> 10)
}

/// The choose and majority functions of the compression rounds.
pub open spec fn ch_fn(e: u32, f: u32, g: u32) -> u32 {
    (e & f) ^ ((!e) & g)
}

pub open spec fn maj_fn(a: u32, b: u32, c: u32) -> u32 {
    (a & b) ^ (a & c) ^ (b & c)
}

/// The sixty-four round constants.
pub open spec fn sha_k() -> Seq<u32> {
    seq![
        0x428a2f98u32, 0x71374491u32, 0xb5c0fbcfu32, 0xe9b5dba5u32,
        0x3956c25bu32, 0x59f111f1u32, 0x923f82a4u32, 0xab1c5ed5u32,
        0xd807aa98u32, 0x12835b01u32, 0x243185beu32, 0x550c7dc3u32,
        0x72be5d74u32, 0x80deb1feu32, 0x9bdc06a7u32, 0xc19bf174u32,
        0xe49b69c1u32, 0xefbe4786u32, 0x0fc19dc6u32, 0x240ca1ccu32,
        0x2de92c6fu32, 0x4a7484aau32, 0x5cb0a9dcu32, 0x76f988dau32,
        0x983e5152u32, 0xa831c66du32, 0xb00327c8u32, 0xbf597fc7u32,
        0xc6e00bf3u32, 0xd5a79147u32, 0x06ca6351u32, 0x14292967u32,
        0x27b70a85u32, 0x2e1b2138u32, 0x4d2c6dfcu32, 0x53380d13u32,
        0x650a7354u32, 0x766a0abbu32, 0x81c2c92eu32, 0x92722c85u32,
        0xa2bfe8a1u32, 0xa81a664bu32, 0xc24b8b70u32, 0xc76c51a3u32,
        0xd192e819u32, 0xd6990624u32, 0xf40e3585u32, 0x106aa070u32,
        0x19a4c116u32, 0x1e376c08u32, 0x2748774cu32, 0x34b0bcb5u32,
        0x391c0cb3u32, 0x4ed8aa4au32, 0x5b9cca4fu32, 0x682e6ff3u32,
        0x748f82eeu32, 0x78a5636fu32, 0x84c87814u32, 0x8cc70208u32,
        0x90befffau32, 0xa4506cebu32, 0xbef9a3f7u32, 0xc67178f2u32,
    ]
}

/// The eight working words of the hash state.
#[derive(Clone, Copy)]
#[verifier::ext_equal]
pub struct ShaState {
    pub a: u32,
    pub b: u32,
    pub c: u32,
    pub d: u32,
    pub e: u32,
    pub f: u32,
    pub g: u32,
    pub h: u32,
}

/// The fixed initial state.
pub open spec fn sha_init() -> ShaState {
    ShaState {
        a: 0x6a09e667u32,
        b: 0xbb67ae85u32,
        c: 0x3c6ef372u32,
        d: 0xa54ff53au32,
        e: 0x510e527fu32,
        f: 0x9b05688cu32,
        g: 0x1f83d9abu32,
        h: 0x5be0cd19u32,
    }
}

/// Word `i` of the message schedule of one block.
pub open spec fn sched(blk: Seq<u32>, i: int) -> u32
    decreases i,
{
    if i < 16 {
        if 0 <= i < blk.len() {
            blk[i]
        } else {
            0u32
        }
    } else {
        sched(blk, i - 16).wrapping_add(ssig0(sched(blk, i - 15))).wrapping_add(
            sched(blk, i - 7),
        ).wrapping_add(ssig1(sched(blk, i - 2)))
    }
}

/// One compression round.
pub open spec fn round_step(st: ShaState, k: u32, wv: u32) -> ShaState {
    let t1 = st.h.wrapping_add(bsig1(st.e)).wrapping_add(ch_fn(st.e, st.f, st.g)).wrapping_add(
        k,
    ).wrapping_add(wv);
    let t2 = bsig0(st.a).wrapping_add(maj_fn(st.a, st.b, st.c));
    ShaState {
        a: t1.wrapping_add(t2),
        b: st.a,
        c: st.b,
        d: st.c,
        e: st.d.wrapping_add(t1),
        f: st.e,
        g: st.f,
        h: st.g,
    }
}

/// The first `i` compression rounds of one block.
pub open spec fn rounds(blk: Seq<u32>, st: ShaState, i: int) -> ShaState
    decreases i,
{
    if i <= 0 {
        st
    } else {
        round_step(rounds(blk, st, i - 1), sha_k()[i - 1], sched(blk, i - 1))
    }
}

/// One block folded into the state: sixty-four rounds, then the feed-forward
/// addition of the incoming state.
pub open spec fn compress(st: ShaState, blk: Seq<u32>) -> ShaState {
    let f = rounds(blk, st, 64);
    ShaState {
        a: st.a.wrapping_add(f.a),
        b: st.b.wrapping_add(f.b),
        c: st.c.wrapping_add(f.c),
        d: st.d.wrapping_add(f.d),
        e: st.e.wrapping_add(f.e),
        f: st.f.wrapping_add(f.f),
        g: st.g.wrapping_add(f.g),
        h: st.h.wrapping_add(f.h),
    }
}

/// The big-endian 32-bit word at byte offset `base`.
pub open spec fn word_at(bytes: Seq<u8>, base: int) -> u32 {
    ((bytes[base] as u32) << 24u32) | ((bytes[base + 1] as u32) << 16u32) | ((bytes[base + 2]
        as u32) << 8u32) | (bytes[base + 3] as u32)
}

/// The sixteen words of block `b`.
pub open spec fn block_words(bytes: Seq<u8>, b: int) -> Seq<u32> {
    Seq::new(16, |j: int| word_at(bytes, b * 64 + 4 * j))
}

/// The state after folding in the first `n` blocks.
pub open spec fn hash_blocks(bytes: Seq<u8>, n: int) -> ShaState
    decreases n,
{
    if n <= 0 {
        sha_init()
    } else {
        compress(hash_blocks(bytes, n - 1), block_words(bytes, n - 1))
    }
}

/// How many zero bytes padding inserts after the 0x80 marker.
pub open spec fn pad_zeros(len: nat) -> nat {
    let rem = (len + 1) % 64;
    if rem <= 56 {
        (56 - rem) as nat
    } else {
        (120 - rem) as nat
    }
}

/// Byte `i` of the big-endian encoding of `v`.
pub open spec fn be64(v: u64, i: int) -> u8 {
    (v >> (((7 - i) * 8) as u64)) as u8
}

/// The padded message: the data, the 0x80 marker, zeros up to 56 modulo
/// 64, and the bit length in eight big-endian bytes.
pub open spec fn sha_pad(m: Seq<u8>) -> Seq<u8> {
    m + seq![0x80u8] + Seq::new(pad_zeros(m.len()), |i: int| 0u8) + Seq::new(
        8,
        |i: int| be64((m.len() * 8) as u64, i),
    )
}

/// State word `j`, in serialization order.
pub open spec fn state_word(st: ShaState, j: int) -> u32 {
    if j == 0 {
        st.a
    } else if j == 1 {
        st.b
    } else if j == 2 {
        st.c
    } else if j == 3 {
        st.d
    } else if j == 4 {
        st.e
    } else if j == 5 {
        st.f
    } else if j == 6 {
        st.g
    } else {
        st.h
    }
}

/// The digest bytes of a state: each word big-endian, words in order.
pub open spec fn state_bytes(st: ShaState) -> Seq<u8> {
    Seq::new(32, |i: int| (state_word(st, i / 4) >> (((3 - (i % 4)) * 8) as u32)) as u8)
}

/// The digest of a message: pad, fold in every block, serialize.
pub open spec fn sha256_digest(m: Seq<u8>) -> Seq<u8> {
    let p = sha_pad(m);
    state_bytes(hash_blocks(p, p.len() as int / 64))
}

/// Right rotation of a 32-bit word.
fn rotr32(x: u32, n: u32) -> (r: u32)
    requires
        0 < n < 32,
    ensures
        r == rotr(x, n),
{
    (x >> n) | (x << (32 - n))
}

/// The sixty-four round constants.
#[verifier::rlimit(50)]
fn sha_k_table() -> (t: Vec<u32>)
    ensures
        t@ == sha_k(),
{
    let mut t: Vec<u32> = Vec::new();
    t.push(0x428a2f98); t.push(0x71374491); t.push(0xb5c0fbcf); t.push(0xe9b5dba5);
    t.push(0x3956c25b); t.push(0x59f111f1); t.push(0x923f82a4); t.push(0xab1c5ed5);
    t.push(0xd807aa98); t.push(0x12835b01); t.push(0x243185be); t.push(0x550c7dc3);
    t.push(0x72be5d74); t.push(0x80deb1fe); t.push(0x9bdc06a7); t.push(0xc19bf174);
    t.push(0xe49b69c1); t.push(0xefbe4786); t.push(0x0fc19dc6); t.push(0x240ca1cc);
    t.push(0x2de92c6f); t.push(0x4a7484aa); t.push(0x5cb0a9dc); t.push(0x76f988da);
    t.push(0x983e5152); t.push(0xa831c66d); t.push(0xb00327c8); t.push(0xbf597fc7);
    t.push(0xc6e00bf3); t.push(0xd5a79147); t.push(0x06ca6351); t.push(0x14292967);
    t.push(0x27b70a85); t.push(0x2e1b2138); t.push(0x4d2c6dfc); t.push(0x53380d13);
    t.push(0x650a7354); t.push(0x766a0abb); t.push(0x81c2c92e); t.push(0x92722c85);
    t.push(0xa2bfe8a1); t.push(0xa81a664b); t.push(0xc24b8b70); t.push(0xc76c51a3);
    t.push(0xd192e819); t.push(0xd6990624); t.push(0xf40e3585); t.push(0x106aa070);
    t.push(0x19a4c116); t.push(0x1e376c08); t.push(0x2748774c); t.push(0x34b0bcb5);
    t.push(0x391c0cb3); t.push(0x4ed8aa4a); t.push(0x5b9cca4f); t.push(0x682e6ff3);
    t.push(0x748f82ee); t.push(0x78a5636f); t.push(0x84c87814); t.push(0x8cc70208);
    t.push(0x90befffa); t.push(0xa4506ceb); t.push(0xbef9a3f7); t.push(0xc67178f2);
    proof {
        assert(t@ =~= sha_k());
    }
    t
}

/// The FIPS 180-4 digest of `data`.
#[verifier::rlimit(50)]
pub fn sha256(data: &Vec<u8>) -> (out: Vec<u8>)
    requires
        data@.len() < 0x2000000000000000,
        data@.len() + 128 <= usize::MAX,
    ensures
        out@ == sha256_digest(data@),
        out@.len() == 32,
{
    let ghost padded = sha_pad(data@);
    let dlen: usize = data.len();
    let rem: usize = (dlen + 1) % 64;
    let z: usize = if rem <= 56 {
        56 - rem
    } else {
        56 + 64 - rem
    };
    proof {
        assert(z == pad_zeros(data@.len()));
        assert(padded.len() == dlen + 1 + z + 8);
    }

    let mut msg: Vec<u8> = Vec::new();
    let mut i: usize = 0;
    while i < dlen
        invariant
            i <= dlen,
            dlen == data@.len(),
            padded == sha_pad(data@),
            padded.len() == dlen + 1 + z + 8,
            msg@.len() == i,
            forall|j: int| 0 <= j < i ==> msg@[j] == padded[j],
        decreases dlen - i,
    {
        proof {
            assert(padded[i as int] == data@[i as int]);
        }
        msg.push(data[i]);
        i = i + 1;
    }
    proof {
        assert(padded[dlen as int] == 0x80u8);
    }
    msg.push(0x80);
    let mut zi: usize = 0;
    while zi < z
        invariant
            zi <= z,
            dlen == data@.len(),
            padded == sha_pad(data@),
            padded.len() == dlen + 1 + z + 8,
            msg@.len() == dlen + 1 + zi,
            forall|j: int| 0 <= j < msg@.len() ==> msg@[j] == padded[j],
        decreases z - zi,
    {
        proof {
            assert(padded[(dlen + 1 + zi) as int] == 0u8);
        }
        msg.push(0);
        zi = zi + 1;
    }
    let bitlen: u64 = (dlen as u64) * 8;
    let mut li: usize = 0;
    while li < 8
        invariant
            li <= 8,
            dlen == data@.len(),
            bitlen == dlen * 8,
            z == pad_zeros(data@.len()),
            padded == sha_pad(data@),
            padded.len() == dlen + 1 + z + 8,
            msg@.len() == dlen + 1 + z + li,
            forall|j: int| 0 <= j < msg@.len() ==> msg@[j] == padded[j],
        decreases 8 - li,
    {
        let sh: u64 = ((7 - li) * 8) as u64;
        let b = #[verifier::truncate] ((bitlen >> sh) as u8);
        proof {
            assert(padded[(dlen + 1 + z + li) as int] == be64(bitlen, li as int));
            assert(b == be64(bitlen, li as int));
        }
        msg.push(b);
        li = li + 1;
    }
    proof {
        assert(msg@ =~= padded);
    }

    let mlen: usize = msg.len();
    proof {
        vstd::arithmetic::div_mod::lemma_fundamental_div_mod((dlen + 1) as int, 64);
        assert(mlen == 64 * ((dlen + 1) as int / 64) + 64 || mlen == 64 * ((dlen + 1) as int / 64)
            + 128) by {
            assert(dlen + 1 == 64 * ((dlen + 1) as int / 64) + rem);
        }
        assert(mlen % 64 == 0) by {
            let q = (dlen + 1) as int / 64;
            if mlen == 64 * q + 64 {
                assert((64 * (q + 1)) % 64 == 0) by (nonlinear_arith);
                assert(mlen == 64 * (q + 1));
            } else {
                assert((64 * (q + 2)) % 64 == 0) by (nonlinear_arith);
                assert(mlen == 64 * (q + 2));
            }
        }
    }
    let nblocks: usize = mlen / 64;
    proof {
        vstd::arithmetic::div_mod::lemma_fundamental_div_mod(mlen as int, 64);
        assert(64 * (nblocks as int) == mlen);
    }

    let kt = sha_k_table();
    let mut st = ShaState {
        a: 0x6a09e667,
        b: 0xbb67ae85,
        c: 0x3c6ef372,
        d: 0xa54ff53a,
        e: 0x510e527f,
        f: 0x9b05688c,
        g: 0x1f83d9ab,
        h: 0x5be0cd19,
    };
    proof {
        assert(st == hash_blocks(padded, 0));
    }
    let mut blk: usize = 0;
    while blk < nblocks
        invariant
            blk <= nblocks,
            msg@ == padded,
            msg@.len() == mlen,
            64 * (nblocks as int) == mlen,
            kt@ == sha_k(),
            st == hash_blocks(padded, blk as int),
        decreases nblocks - blk,
    {
        let ghost bw = block_words(padded, blk as int);
        let base: usize = blk * 64;
        proof {
            assert(base + 64 <= mlen) by {
                assert(64 * (blk as int) + 64 <= 64 * (nblocks as int)) by (nonlinear_arith)
                    requires
                        blk < nblocks,
                ;
            }
        }
        let mut w: Vec<u32> = Vec::new();
        let mut j: usize = 0;
        while j < 16
            invariant
                j <= 16,
                msg@ == padded,
                msg@.len() == mlen,
                base == blk * 64,
                base + 64 <= mlen,
                bw == block_words(padded, blk as int),
                w@.len() == j,
                forall|t: int| 0 <= t < j ==> w@[t] == sched(bw, t),
            decreases 16 - j,
        {
            let word = ((msg[base + 4 * j] as u32) << 24) | ((msg[base + 4 * j + 1] as u32) << 16)
                | ((msg[base + 4 * j + 2] as u32) << 8) | (msg[base + 4 * j + 3] as u32);
            proof {
                assert(bw[j as int] == word_at(padded, blk * 64 + 4 * (j as int)));
                assert(word == bw[j as int]);
                assert(sched(bw, j as int) == bw[j as int]);
            }
            w.push(word);
            j = j + 1;
        }
        let mut t: usize = 16;
        while t < 64
            invariant
                16 <= t <= 64,
                bw == block_words(padded, blk as int),
                w@.len() == t,
                forall|u: int| 0 <= u < t ==> w@[u] == sched(bw, u),
            decreases 64 - t,
        {
            let s0 = {
                let x = w[t - 15];
                rotr32(x, 7) ^ rotr32(x, 18) ^ (x >> 3u32)
            };
            let s1 = {
                let x = w[t - 2];
                rotr32(x, 17) ^ rotr32(x, 19) ^ (x >> 10u32)
            };
            let wt = w[t - 16].wrapping_add(s0).wrapping_add(w[t - 7]).wrapping_add(s1);
            proof {
                assert(s0 == ssig0(sched(bw, t as int - 15)));
                assert(s1 == ssig1(sched(bw, t as int - 2)));
                assert(wt == sched(bw, t as int - 16).wrapping_add(
                    ssig0(sched(bw, t as int - 15)),
                ).wrapping_add(sched(bw, t as int - 7)).wrapping_add(
                    ssig1(sched(bw, t as int - 2)),
                ));
                assert(wt == sched(bw, t as int));
            }
            w.push(wt);
            t = t + 1;
        }
        let mut cur = st;
        let mut r: usize = 0;
        while r < 64
            invariant
                r <= 64,
                kt@ == sha_k(),
                bw == block_words(padded, blk as int),
                w@.len() == 64,
                forall|u: int| 0 <= u < 64 ==> w@[u] == sched(bw, u),
                cur == rounds(bw, st, r as int),
            decreases 64 - r,
        {
            let s1 = rotr32(cur.e, 6) ^ rotr32(cur.e, 11) ^ rotr32(cur.e, 25);
            let chv = (cur.e & cur.f) ^ ((!cur.e) & cur.g);
            let t1 = cur.h.wrapping_add(s1).wrapping_add(chv).wrapping_add(kt[r]).wrapping_add(
                w[r],
            );
            let s0 = rotr32(cur.a, 2) ^ rotr32(cur.a, 13) ^ rotr32(cur.a, 22);
            let majv = (cur.a & cur.b) ^ (cur.a & cur.c) ^ (cur.b & cur.c);
            let t2 = s0.wrapping_add(majv);
            cur = ShaState {
                a: t1.wrapping_add(t2),
                b: cur.a,
                c: cur.b,
                d: cur.c,
                e: cur.d.wrapping_add(t1),
                f: cur.e,
                g: cur.f,
                h: cur.g,
            };
            r = r + 1;
        }
        st = ShaState {
            a: st.a.wrapping_add(cur.a),
            b: st.b.wrapping_add(cur.b),
            c: st.c.wrapping_add(cur.c),
            d: st.d.wrapping_add(cur.d),
            e: st.e.wrapping_add(cur.e),
            f: st.f.wrapping_add(cur.f),
            g: st.g.wrapping_add(cur.g),
            h: st.h.wrapping_add(cur.h),
        };
        proof {
            assert(st == compress(hash_blocks(padded, blk as int), bw));
            assert(st == hash_blocks(padded, blk as int + 1));
        }
        blk = blk + 1;
    }
    proof {
        assert(padded.len() as int / 64 == nblocks as int) by {
            assert(64 * (nblocks as int) == padded.len());
            assert((64 * (nblocks as int)) / 64 == nblocks as int) by (nonlinear_arith);
        }
        assert(st == hash_blocks(padded, padded.len() as int / 64));
    }

    let mut words: Vec<u32> = Vec::new();
    words.push(st.a);
    words.push(st.b);
    words.push(st.c);
    words.push(st.d);
    words.push(st.e);
    words.push(st.f);
    words.push(st.g);
    words.push(st.h);
    proof {
        assert(forall|j: int| 0 <= j < 8 ==> #[trigger] words@[j] == state_word(st, j));
    }
    let mut out: Vec<u8> = Vec::new();
    let mut oi: usize = 0;
    while oi < 32
        invariant
            oi <= 32,
            words@.len() == 8,
            forall|j: int| 0 <= j < 8 ==> #[trigger] words@[j] == state_word(st, j),
            out@.len() == oi,
            forall|j: int| 0 <= j < oi ==> out@[j] == state_bytes(st)[j],
        decreases 32 - oi,
    {
        let sh: u32 = ((3 - (oi % 4)) * 8) as u32;
        let b = #[verifier::truncate] ((words[oi / 4] >> sh) as u8);
        proof {
            assert(state_bytes(st)[oi as int] == (state_word(st, oi as int / 4) >> (((3 - (
            oi as int % 4)) * 8) as u32)) as u8);
            assert(words@[oi as int / 4] == state_word(st, oi as int / 4));
        }
        out.push(b);
        oi = oi + 1;
    }
    proof {
        assert(out@ =~= state_bytes(st));
        assert(out@ =~= sha256_digest(data@));
    }
    out
}

/// The character-level view of a snapshot: (path, fingerprint) pairs.
pub open spec fn snap_view(s: Seq<(String, String)>) -> Seq<(Seq<char>, Seq<char>)> {
    s.map(|i: int, pr: (String, String)| (pr.0@, pr.1@))
}

/// The fingerprint recorded for a path: the first matching entry.
pub open spec fn snap_lookup(s: Seq<(Seq<char>, Seq<char>)>, k: Seq<char>) -> Option<Seq<char>>
    decreases s.len(),
{
    if s.len() == 0 {
        None
    } else if s[0].0 == k {
        Some(s[0].1)
    } else {
        snap_lookup(s.drop_first(), k)
    }
}

/// Whether one old entry counts as tampered against the new snapshot:
/// the path is still there but its fingerprint changed.
pub open spec fn tamper_mark(e: (Seq<char>, Seq<char>), new: Seq<(Seq<char>, Seq<char>)>) -> nat {
    match snap_lookup(new, e.0) {
        Some(h) => if h != e.1 {
            1nat
        } else {
            0nat
        },
        None => 0nat,
    }
}

/// Tampered entries of `old` against `new`, from index `i` on.
pub open spec fn count_tampered_from(
    old: Seq<(Seq<char>, Seq<char>)>,
    new: Seq<(Seq<char>, Seq<char>)>,
    i: nat,
) -> nat
    decreases old.len() - i,
{
    if i >= old.len() {
        0
    } else {
        tamper_mark(old[i as int], new) + count_tampered_from(old, new, i + 1)
    }
}

/// Tampered entries of `old` against `new`.
pub open spec fn count_tampered(
    old: Seq<(Seq<char>, Seq<char>)>,
    new: Seq<(Seq<char>, Seq<char>)>,
) -> nat {
    count_tampered_from(old, new, 0)
}

/// Whether one new entry counts as a new file: its path is not in `old`.
pub open spec fn new_mark(e: (Seq<char>, Seq<char>), old: Seq<(Seq<char>, Seq<char>)>) -> nat {
    if snap_lookup(old, e.0) is None {
        1nat
    } else {
        0nat
    }
}

/// New entries of `new` against `old`, from index `i` on.
pub open spec fn count_new_from(
    new: Seq<(Seq<char>, Seq<char>)>,
    old: Seq<(Seq<char>, Seq<char>)>,
    i: nat,
) -> nat
    decreases new.len() - i,
{
    if i >= new.len() {
        0
    } else {
        new_mark(new[i as int], old) + count_new_from(new, old, i + 1)
    }
}

/// New entries of `new` against `old`.
pub open spec fn count_new(
    new: Seq<(Seq<char>, Seq<char>)>,
    old: Seq<(Seq<char>, Seq<char>)>,
) -> nat {
    count_new_from(new, old, 0)
}

/// A match at the first index `i` whose key is `k` is what the recursive
/// lookup finds.
proof fn lemma_lookup_at(s: Seq<(Seq<char>, Seq<char>)>, k: Seq<char>, i: int)
    requires
        0 <= i < s.len(),
        s[i].0 == k,
        forall|j: int| 0 <= j < i ==> (#[trigger] s[j]).0 != k,
    ensures
        snap_lookup(s, k) == Some(s[i].1),
    decreases i,
{
    if i > 0 {
        assert forall|j: int| 0 <= j < i - 1 implies (#[trigger] s.drop_first()[j]).0 != k by {
            assert(s.drop_first()[j] == s[j + 1]);
        }
        assert(s.drop_first()[i - 1] == s[i]);
        lemma_lookup_at(s.drop_first(), k, i - 1);
    }
}

/// When no entry's key is `k`, the lookup finds nothing.
proof fn lemma_lookup_none(s: Seq<(Seq<char>, Seq<char>)>, k: Seq<char>)
    requires
        forall|j: int| 0 <= j < s.len() ==> (#[trigger] s[j]).0 != k,
    ensures
        snap_lookup(s, k) is None,
    decreases s.len(),
{
    if s.len() > 0 {
        assert forall|j: int| 0 <= j < s.drop_first().len() implies (#[trigger] s.drop_first()[
            j
        ]).0 != k by {
            assert(s.drop_first()[j] == s[j + 1]);
        }
        lemma_lookup_none(s.drop_first(), k);
    }
}

/// Find the first entry for `key`.
fn find_entry(snap: &Vec<(String, String)>, key: &String) -> (r: Option<usize>)
    ensures
        match r {
            Some(i) => i < snap@.len() && snap@[i as int].0@ == key@ && snap_lookup(
                snap_view(snap@),
                key@,
            ) == Some(snap@[i as int].1@),
            None => snap_lookup(snap_view(snap@), key@) is None,
        },
{
    let mut i: usize = 0;
    while i < snap.len()
        invariant
            i <= snap@.len(),
            forall|j: int| 0 <= j < i ==> (#[trigger] snap_view(snap@)[j]).0 != key@,
        decreases snap@.len() - i,
    {
        if snap[i].0 == *key {
            proof {
                assert(snap_view(snap@)[i as int].0 == key@);
                lemma_lookup_at(snap_view(snap@), key@, i as int);
            }
            return Some(i);
        }
        proof {
            assert(snap_view(snap@)[i as int].0 == snap@[i as int].0@);
        }
        i = i + 1;
    }
    proof {
        lemma_lookup_none(snap_view(snap@), key@);
    }
    None
}

/// Compare two snapshots: how many paths of `old_snap` survive with a
/// changed fingerprint, and how many paths of `new_snap` are not in
/// `old_snap` at all.
pub fn compare_snapshot(old_snap: &Vec<(String, String)>, new_snap: &Vec<(String, String)>) -> (r:
    (u64, u64))
    ensures
        r.0 == count_tampered(snap_view(old_snap@), snap_view(new_snap@)),
        r.1 == count_new(snap_view(new_snap@), snap_view(old_snap@)),
{
    let ghost ov = snap_view(old_snap@);
    let ghost nv = snap_view(new_snap@);
    let olen: usize = old_snap.len();
    let nlen: usize = new_snap.len();
    let mut tampered: u64 = 0;
    let mut i: usize = 0;
    while i < old_snap.len()
        invariant
            i <= old_snap@.len(),
            old_snap@.len() == olen,
            ov == snap_view(old_snap@),
            nv == snap_view(new_snap@),
            tampered <= i,
            tampered + count_tampered_from(ov, nv, i as nat) == count_tampered(ov, nv),
        decreases old_snap@.len() - i,
    {
        let key = &old_snap[i].0;
        proof {
            assert(ov[i as int] == (old_snap@[i as int].0@, old_snap@[i as int].1@));
        }
        match find_entry(new_snap, key) {
            Some(j) => {
                if !(new_snap[j].1 == old_snap[i].1) {
                    tampered = tampered + 1;
                }
            }
            None => {}
        }
        i = i + 1;
    }
    let mut new_files: u64 = 0;
    let mut k: usize = 0;
    while k < new_snap.len()
        invariant
            k <= new_snap@.len(),
            new_snap@.len() == nlen,
            ov == snap_view(old_snap@),
            nv == snap_view(new_snap@),
            new_files <= k,
            new_files + count_new_from(nv, ov, k as nat) == count_new(nv, ov),
        decreases new_snap@.len() - k,
    {
        let key = &new_snap[k].0;
        proof {
            assert(nv[k as int] == (new_snap@[k as int].0@, new_snap@[k as int].1@));
        }
        match find_entry(old_snap, key) {
            Some(_) => {}
            None => {
                new_files = new_files + 1;
            }
        }
        k = k + 1;
    }
    (tampered, new_files)
}

/// The integrity guard's own state: whether the sweep runs, and what it
/// has seen so far.
pub struct EdgeGuard {
    pub running: bool,
    pub tampered: u64,
    pub new_files: u64,
}

/// A fresh guard, marked running, with nothing seen yet.
pub fn init() -> (g: EdgeGuard)
    ensures
        g.running,
        g.tampered == 0,
        g.new_files == 0,
{
    EdgeGuard { running: true, tampered: 0, new_files: 0 }
}

impl EdgeGuard {
    /// Stop the background sweep.
    pub fn shutdown(&mut self)
        ensures
            !final(self).running,
            final(self).tampered == old(self).tampered,
            final(self).new_files == old(self).new_files,
    {
        self.running = false;
    }

    /// Fold one scan's results into the counters, saturating at the top.
    pub fn record_scan(&mut self, tampered: u64, new_files: u64)
        ensures
            final(self).tampered == (if old(self).tampered + tampered > u64::MAX {
                u64::MAX
            } else {
                (old(self).tampered + tampered) as u64
            }),
            final(self).new_files == (if old(self).new_files + new_files > u64::MAX {
                u64::MAX
            } else {
                (old(self).new_files + new_files) as u64
            }),
            final(self).running == old(self).running,
    {
        if tampered <= u64::MAX - self.tampered {
            self.tampered = self.tampered + tampered;
        } else {
            self.tampered = u64::MAX;
        }
        if new_files <= u64::MAX - self.new_files {
            self.new_files = self.new_files + new_files;
        } else {
            self.new_files = u64::MAX;
        }
    }

    /// Files whose fingerprints changed, over all scans.
    pub fn tamper_count(&self) -> (n: u64)
        ensures
            n == self.tampered,
    {
        self.tampered
    }

    /// Files that appeared unannounced, over all scans.
    pub fn new_file_count(&self) -> (n: u64)
        ensures
            n == self.new_files,
    {
        self.new_files
    }
}

} // verus!
