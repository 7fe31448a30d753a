//! Checksums of the artifacts fleet workers write.
use crate::text::{chars_of, push_all, string_of};
use sha2::{Digest, Sha256};
use vstd::prelude::*;

verus! {

/// The SHA-256 digest of `b`, as `sha2::Sha256::digest` computes it.
pub uninterp spec fn sha256_digest(b: Seq<u8>) -> Seq<u8>;

/// Hashes `b` with `sha2::Sha256::digest`; the digest depends on the bytes
/// alone and is 32 bytes long.
#[verifier::external_body]
fn sha256_of(b: &[u8]) -> (r: Vec<u8>)
    ensures
        r@ == sha256_digest(b@),
        r@.len() == 32,
{
    Sha256::digest(b).to_vec()
}

/// The lower-case hexadecimal digits.
pub open spec fn hex_chars() -> Seq<char> {
    seq!['0', '1', '2', '3', '4', '5', '6', '7', '8', '9', 'a', 'b', 'c', 'd', 'e', 'f']
}

/// `b` written as lower-case hexadecimal, two digits a byte, as `{:x}`
/// writes a digest.
pub open spec fn lower_hex(b: Seq<u8>) -> Seq<char>
    decreases b.len(),
{
    if b.len() == 0 {
        seq![]
    } else {
        lower_hex(b.drop_last()) + seq![hex_chars()[(b.last() / 16) as int], hex_chars()[(b.last() % 16) as int]]
    }
}

/// The checksum recorded for an artifact with `contents`: `sha256:` and the
/// digest in lower-case hexadecimal.
pub fn artifact_checksum(contents: &[u8]) -> (r: String)
    ensures
        r@ == "sha256:"@ + lower_hex(sha256_digest(contents@)),
{
    let digest = sha256_of(contents);
    let hex: [char; 16] = ['0', '1', '2', '3', '4', '5', '6', '7', '8', '9', 'a', 'b', 'c', 'd', 'e', 'f'];
    assert(hex@ =~= hex_chars());
    let mut out = chars_of("sha256:");
    let ghost head = out@;
    let n = digest.len();
    let mut i: usize = 0;
    assert(digest@.take(0) =~= Seq::<u8>::empty());
    while i < n
        invariant
            n == digest@.len(),
            i <= n,
            hex@ == hex_chars(),
            out@ == head + lower_hex(digest@.take(i as int)),
        decreases n - i,
    {
        let b = digest[i];
        out.push(hex[(b / 16) as usize]);
        out.push(hex[(b % 16) as usize]);
        proof {
            let t = digest@.take(i + 1);
            assert(t.drop_last() =~= digest@.take(i as int));
            assert(t.last() == b);
        }
        i = i + 1;
    }
    assert(digest@.take(n as int) =~= digest@);
    proof {
        reveal_strlit("sha256:");
    }
    string_of(out.as_slice())
}

} // verus!
