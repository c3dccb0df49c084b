//! The SHA-256 hash of a file's contents, as the lower-case hexadecimal text
//! that release files list.
use vstd::prelude::*;

use sha2::{Digest, Sha256};

use crate::types::{hash_size, HashType};

verus! {

/// The SHA-256 digest of `bytes`.
pub uninterp spec fn sha256(bytes: Seq<u8>) -> Seq<u8>;

/// Calls `Sha256::digest` from `sha2`. Claims that the digest is a function
/// of the bytes, named `sha256`, and that it is 32 bytes long (the output
/// size `U32` of `Sha256`).
#[verifier::external_body]
fn sha256_digest(bytes: &[u8]) -> (res: Vec<u8>)
    ensures
        res@ == sha256(bytes@),
        res.len() == 32,
{
    Sha256::digest(bytes).to_vec()
}

/// The lower-case hexadecimal digit for `n` (below 16).
pub open spec fn hex_digit(n: u8) -> char {
    if n < 10 {
        (n + 48) as char
    } else {
        (n + 87) as char
    }
}

/// Each byte as two lower-case hexadecimal digits, the high one first.
pub open spec fn hex_lower(d: Seq<u8>) -> Seq<char>
    decreases d.len(),
{
    if d.len() == 0 {
        seq![]
    } else {
        hex_lower(d.drop_last()) + seq![hex_digit(d.last() / 16), hex_digit(d.last() % 16)]
    }
}

pub proof fn lemma_hex_lower_len(d: Seq<u8>)
    ensures
        hex_lower(d).len() == 2 * d.len(),
    decreases d.len(),
{
    if d.len() > 0 {
        lemma_hex_lower_len(d.drop_last());
    }
}

fn hex_digit_exec(n: u8) -> (c: char)
    requires
        n < 16,
    ensures
        c == hex_digit(n),
{
    if n < 10 {
        (n + 48) as char
    } else {
        (n + 87) as char
    }
}

/// `bytes` in lower-case hexadecimal.
pub fn to_hex_lower(bytes: &[u8]) -> (res: String)
    ensures
        res@ == hex_lower(bytes@),
{
    let mut res = String::new();
    let mut k: usize = 0;
    while k < bytes.len()
        invariant
            k <= bytes.len(),
            res@ == hex_lower(bytes@.take(k as int)),
        decreases bytes.len() - k,
    {
        let b = bytes[k];
        res.push(hex_digit_exec(b / 16));
        res.push(hex_digit_exec(b % 16));
        assert(bytes@.take(k + 1).drop_last() =~= bytes@.take(k as int));
        k = k + 1;
    }
    assert(bytes@.take(bytes.len() as int) =~= bytes@);
    res
}

/// The SHA-256 hash of `bytes` in lower-case hexadecimal; it has as many
/// characters as a SHA256 entry of a release file is meant to have
/// (`HashType::SHA256.size()`).
pub fn calculate_hash(bytes: &[u8]) -> (res: String)
    ensures
        res@ == hex_lower(sha256(bytes@)),
        res@.len() == hash_size(HashType::SHA256),
{
    let digest = sha256_digest(bytes);
    proof {
        lemma_hex_lower_len(digest@);
    }
    to_hex_lower(digest.as_slice())
}

/// The value of a lower-case hexadecimal digit.
pub open spec fn hex_value(c: char) -> int {
    if '0' <= c && c <= '9' {
        c as int - '0' as int
    } else {
        c as int - 'a' as int + 10
    }
}

pub open spec fn is_hex_digit(c: char) -> bool {
    ('0' <= c && c <= '9') || ('a' <= c && c <= 'f')
}

/// Hex text reads back as the bytes it was written from: it has two digits
/// per byte, each a lower-case hexadecimal digit, and the pair at `2k`
/// has the value of byte `k`.
pub proof fn lemma_hex_lower_reads_back(d: Seq<u8>)
    ensures
        hex_lower(d).len() == 2 * d.len(),
        forall|k: int| 0 <= k < hex_lower(d).len() ==> is_hex_digit(#[trigger] hex_lower(d)[k]),
        forall|k: int|
            0 <= k < d.len() ==> 16 * hex_value(#[trigger] hex_lower(d)[2 * k]) + hex_value(
                hex_lower(d)[2 * k + 1],
            ) == d[k],
    decreases d.len(),
{
    lemma_hex_lower_len(d);
    if d.len() > 0 {
        let p = d.drop_last();
        lemma_hex_lower_reads_back(p);
        lemma_hex_lower_len(p);
        let b = d.last();
        let hi = b / 16;
        let lo = b % 16;
        let h = hex_lower(d);
        let hp = hex_lower(p);
        assert(h == hp + seq![hex_digit(hi), hex_digit(lo)]);
        assert(hi < 16 && lo < 16 && 16 * hi + lo == b);
        assert(is_hex_digit(hex_digit(hi)) && hex_value(hex_digit(hi)) == hi);
        assert(is_hex_digit(hex_digit(lo)) && hex_value(hex_digit(lo)) == lo);
        assert forall|k: int| 0 <= k < h.len() implies is_hex_digit(#[trigger] h[k]) by {
            if k < hp.len() {
                assert(h[k] == hp[k]);
            }
        }
        assert forall|k: int| 0 <= k < d.len() implies 16 * hex_value(#[trigger] h[2 * k]) + hex_value(
            h[2 * k + 1],
        ) == d[k] by {
            if k < p.len() {
                assert(h[2 * k] == hp[2 * k]);
                assert(h[2 * k + 1] == hp[2 * k + 1]);
                assert(d[k] == p[k]);
            } else {
                assert(h[2 * k] == hex_digit(hi));
                assert(h[2 * k + 1] == hex_digit(lo));
            }
        }
    }
}

} // verus!
