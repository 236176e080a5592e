//! Deterministic hashing-based text embedding.
//!
//! A text is normalized (trimmed, lowercased), and its UTF-8 bytes are cut
//! into overlapping three-byte windows (or taken whole when shorter than
//! three bytes). Each window selects one of 512 buckets through a 32-bit
//! rolling hash, and the bucket's count is incremented. The resulting
//! histogram approximates n-gram similarity without a vocabulary; hash
//! collisions are accepted as controlled noise. The histogram is exact
//! integer data; scaling it to a unit-length float vector is left to the
//! caller that uploads vectors to a compute device.

use vstd::prelude::*;
use vstd::utf8::encode_utf8;
use crate::text::{lower_of, trim_of, lowercase, trim};
use vstd::string::StrSliceExecFns;

verus! {

/// Number of histogram buckets, and therefore the length of every encoded
/// vector.
pub const VECTOR_SIZE: usize = 512;

/// Length in bytes of one hashed window.
pub const NGRAM_LEN: usize = 3;

/// One step of the 32-bit rolling hash: multiply by 31 and add the byte,
/// both wrapping.
pub open spec fn hash_step(h: u32, b: u8) -> u32 {
    h.wrapping_mul(31).wrapping_add(b as u32)
}

/// The rolling hash of a whole byte sequence, folded from the left.
pub open spec fn spec_hash_bytes(s: Seq<u8>) -> u32
    decreases s.len(),
{
    if s.len() == 0 {
        0u32
    } else {
        hash_step(spec_hash_bytes(s.drop_last()), s.last())
    }
}

/// The bucket a window falls into.
pub open spec fn bucket_of(w: Seq<u8>) -> int {
    spec_hash_bytes(w) as int % 512
}

/// How many windows a byte sequence yields: none when empty, one window
/// holding the whole sequence when shorter than a window, otherwise one
/// window per position.
pub open spec fn window_count(bytes: Seq<u8>) -> int {
    if bytes.len() == 0 {
        0
    } else if bytes.len() < 3 {
        1
    } else {
        bytes.len() - 2
    }
}

/// The window starting at position `k`.
pub open spec fn window_at(bytes: Seq<u8>, k: int) -> Seq<u8> {
    if bytes.len() < 3 {
        bytes
    } else {
        bytes.subrange(k, k + 3)
    }
}

/// The all-zero histogram.
pub open spec fn zero_counts() -> Seq<int> {
    Seq::new(512, |i: int| 0int)
}

/// The histogram `c` with bucket `j` incremented.
pub open spec fn bump(c: Seq<int>, j: int) -> Seq<int> {
    c.update(j, c[j] + 1)
}

/// The histogram after the first `n` windows of `bytes` have been counted.
pub open spec fn counts_after(bytes: Seq<u8>, n: int) -> Seq<int>
    decreases n,
{
    if n <= 0 {
        zero_counts()
    } else {
        bump(counts_after(bytes, n - 1), bucket_of(window_at(bytes, n - 1)))
    }
}

/// The complete histogram of a byte sequence.
pub open spec fn spec_histogram(bytes: Seq<u8>) -> Seq<int> {
    counts_after(bytes, window_count(bytes))
}

/// The normalized form of a text: trimmed, then lowercased.
pub open spec fn spec_normalized(s: Seq<char>) -> Seq<char> {
    lower_of(trim_of(s))
}

/// The UTF-8 bytes of the normalized form of a text.
pub open spec fn spec_norm_bytes(s: Seq<char>) -> Seq<u8> {
    encode_utf8(spec_normalized(s))
}

/// What `encode` returns for a text: the histogram of the normalized bytes.
pub open spec fn spec_encode(s: Seq<char>) -> Seq<int> {
    spec_histogram(spec_norm_bytes(s))
}

/// The normalized form of a text: trimmed, then lowercased.
pub fn normalize(input: &str) -> (r: String)
    ensures
        r@ == spec_normalized(input@),
{
    lowercase(trim(input))
}

/// Deterministic hashing-based text encoder. Stateless; every instance
/// encodes identically.
#[derive(Clone)]
pub struct Vectorizer {
}

impl Default for Vectorizer {
    fn default() -> (r: Self) {
        Vectorizer {  }
    }
}

impl Vectorizer {
    pub fn new() -> (r: Self) {
        Vectorizer {  }
    }

    /// Encode a text as a 512-bucket histogram of hashed three-byte windows
    /// of its normalized form. Equal inputs yield equal histograms: the
    /// result is pinned to `spec_encode` of the input characters.
    pub fn encode(&self, text: &str) -> (r: Vec<u64>)
        ensures
            r@.len() == 512,
            forall|j: int| 0 <= j < 512 ==> r@[j] as int == spec_encode(text@)[j],
    {
        let lowered = normalize(text);
        let bytes: Vec<u8> = lowered.as_str().as_bytes_vec();
        assert(bytes@ == spec_norm_bytes(text@));
        encode_bytes(&bytes)
    }
}

/// The rolling hash of a byte slice.
pub fn hash_bytes(bytes: &[u8]) -> (r: u32)
    ensures
        r == spec_hash_bytes(bytes@),
{
    let mut h: u32 = 0;
    let mut i: usize = 0;
    while i < bytes.len()
        invariant
            0 <= i <= bytes@.len(),
            h == spec_hash_bytes(bytes@.take(i as int)),
        decreases bytes@.len() - i,
    {
        let b = bytes[i];
        h = h.wrapping_mul(31).wrapping_add(b as u32);
        proof {
            assert(bytes@.take(i + 1).drop_last() =~= bytes@.take(i as int));
            assert(bytes@.take(i + 1).last() == bytes@[i as int]);
        }
        i = i + 1;
    }
    proof {
        assert(bytes@.take(bytes@.len() as int) =~= bytes@);
    }
    h
}

/// Count the hashed windows of a byte sequence into a 512-bucket histogram.
fn encode_bytes(bytes: &Vec<u8>) -> (r: Vec<u64>)
    ensures
        r@.len() == 512,
        forall|j: int| 0 <= j < 512 ==> r@[j] as int == spec_histogram(bytes@)[j],
{
    let mut v: Vec<u64> = Vec::new();
    let mut z: usize = 0;
    while z < 512
        invariant
            0 <= z <= 512,
            v@.len() == z,
            forall|j: int| 0 <= j < z ==> v@[j] == 0,
        decreases 512 - z,
    {
        v.push(0u64);
        z = z + 1;
    }
    assert(forall|j: int| 0 <= j < 512 ==> v@[j] as int == zero_counts()[j]);

    if bytes.len() == 0 {
        assert(window_count(bytes@) == 0);
        return v;
    }

    if bytes.len() < NGRAM_LEN {
        let idx = (hash_bytes(bytes.as_slice()) % 512) as usize;
        let c = v[idx];
        assert(c == 0);
        v.set(idx, 1u64);
        proof {
            lemma_counts_after_nonneg(bytes@, 0);
            assert(counts_after(bytes@, 0) == zero_counts());
            assert(window_count(bytes@) == 1);
            assert(window_at(bytes@, 0) == bytes@);
            assert(counts_after(bytes@, 1) == bump(zero_counts(), bucket_of(bytes@)));
            assert(forall|j: int|
                0 <= j < 512 ==> v@[j] as int == spec_histogram(bytes@)[j]);
        }
        return v;
    }

    let n = bytes.len() - 2;
    let mut k: usize = 0;
    while k < n
        invariant
            bytes@.len() >= 3,
            n == bytes@.len() - 2,
            n <= usize::MAX - 2,
            0 <= k <= n,
            v@.len() == 512,
            forall|j: int| 0 <= j < 512 ==> v@[j] as int == counts_after(bytes@, k as int)[j],
            forall|j: int| 0 <= j < 512 ==> v@[j] <= k,
        decreases n - k,
    {
        let h = hash_step_exec(hash_step_exec(hash_step_exec(0, bytes[k]), bytes[k + 1]), bytes[k + 2]);
        proof {
            let w = window_at(bytes@, k as int);
            assert(w.len() == 3);
            assert(w.drop_last() =~= bytes@.subrange(k as int, k + 2));
            assert(w.drop_last().drop_last() =~= bytes@.subrange(k as int, k + 1));
            assert(w.drop_last().drop_last().drop_last() =~= Seq::<u8>::empty());
            assert(spec_hash_bytes(Seq::<u8>::empty()) == 0);
            assert(w.drop_last().drop_last().last() == bytes@[k as int]);
            assert(spec_hash_bytes(w.drop_last().drop_last()) == hash_step(0, bytes@[k as int]));
            assert(w.drop_last().last() == bytes@[k + 1]);
            assert(spec_hash_bytes(w.drop_last()) == hash_step(
                hash_step(0, bytes@[k as int]),
                bytes@[k + 1],
            ));
            assert(w.last() == bytes@[k + 2]);
            assert(h == spec_hash_bytes(w));
        }
        let idx = (h % 512) as usize;
        let c = v[idx];
        v.set(idx, c + 1);
        proof {
            let prev = counts_after(bytes@, k as int);
            let next = counts_after(bytes@, k as int + 1);
            lemma_counts_after_nonneg(bytes@, k as int);
            lemma_counts_after_nonneg(bytes@, k as int + 1);
            assert(next == bump(prev, bucket_of(window_at(bytes@, k as int))));
            assert(forall|j: int|
                0 <= j < 512 ==> v@[j] as int == next[j]);
        }
        k = k + 1;
    }
    assert(window_count(bytes@) == n as int);
    v
}

/// One exec step of the rolling hash.
fn hash_step_exec(h: u32, b: u8) -> (r: u32)
    ensures
        r == hash_step(h, b),
{
    h.wrapping_mul(31).wrapping_add(b as u32)
}

/// Every bucket of `counts_after` is non-negative and the bumped bucket of
/// each step lies in range.
proof fn lemma_counts_after_nonneg(bytes: Seq<u8>, n: int)
    ensures
        counts_after(bytes, n).len() == 512,
        forall|j: int| 0 <= j < 512 ==> counts_after(bytes, n)[j] >= 0,
    decreases n,
{
    if n <= 0 {
    } else {
        lemma_counts_after_nonneg(bytes, n - 1);
    }
}

/// The histogram of a byte sequence is all zero exactly when the sequence is
/// empty: every non-empty sequence yields at least one window, whose bucket
/// is counted at least once.
pub proof fn lemma_histogram_zero_iff(bytes: Seq<u8>)
    ensures
        (forall|j: int| 0 <= j < 512 ==> spec_histogram(bytes)[j] == 0) <==> bytes.len() == 0,
{
    if bytes.len() == 0 {
        assert(window_count(bytes) == 0);
        assert(forall|j: int| 0 <= j < 512 ==> spec_histogram(bytes)[j] == 0);
    } else {
        let n = window_count(bytes);
        assert(n >= 1);
        let b = bucket_of(window_at(bytes, n - 1));
        lemma_counts_after_nonneg(bytes, n - 1);
        assert(0 <= b < 512);
        assert(spec_histogram(bytes)[b] == counts_after(bytes, n - 1)[b] + 1);
        assert(spec_histogram(bytes)[b] > 0);
    }
}

/// The UTF-8 encoding of a non-empty character sequence is non-empty.
proof fn lemma_encode_utf8_nonempty(chars: Seq<char>)
    requires
        chars.len() > 0,
    ensures
        encode_utf8(chars).len() > 0,
{
    assert(vstd::utf8::encode_scalar(chars[0] as u32).len() >= 1);
    assert(encode_utf8(chars) == vstd::utf8::encode_scalar(chars[0] as u32) + encode_utf8(
        chars.drop_first(),
    ));
}

/// Encoding is deterministic and pure: any two histograms that meet
/// `encode`'s contract for the same text are equal, so repeated calls with
/// equal input yield identical vectors.
pub proof fn lemma_encode_deterministic(s: Seq<char>, a: Seq<u64>, b: Seq<u64>)
    requires
        a.len() == 512,
        b.len() == 512,
        forall|j: int| 0 <= j < 512 ==> a[j] as int == spec_encode(s)[j],
        forall|j: int| 0 <= j < 512 ==> b[j] as int == spec_encode(s)[j],
    ensures
        a == b,
{
    assert(a =~= b);
}

/// An encoded text is the zero histogram exactly when the text normalizes to
/// the empty string (so scaling by the histogram's length never divides by
/// zero on any other input).
pub proof fn lemma_encode_zero_iff(s: Seq<char>)
    ensures
        (forall|j: int| 0 <= j < 512 ==> spec_encode(s)[j] == 0) <==> spec_normalized(s).len()
            == 0,
{
    lemma_histogram_zero_iff(spec_norm_bytes(s));
    if spec_normalized(s).len() == 0 {
        assert(spec_norm_bytes(s) =~= Seq::<u8>::empty());
    } else {
        lemma_encode_utf8_nonempty(spec_normalized(s));
        assert(spec_norm_bytes(s).len() > 0);
        if forall|j: int| 0 <= j < 512 ==> spec_encode(s)[j] == 0 {
            assert forall|j: int| 0 <= j < 512 implies spec_histogram(spec_norm_bytes(s))[j]
                == 0 by {
                assert(spec_encode(s)[j] == 0);
            }
            assert(false);
        }
    }
}

} // verus!
