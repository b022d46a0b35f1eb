//! Content digests: SHA-256 over raw bytes, rendered as `algorithm:hex`.

use vstd::prelude::*;
use sha2::Digest;
use crate::text::{append_bytes, lit, lit_bytes, spec_find_byte, find_byte, sub_bytes};

verus! {

/// The SHA-256 hash of a byte sequence. Named, not defined: the value is
/// computed by the `sha2` crate and depends on the input bytes alone.
pub uninterp spec fn sha256_of(data: Seq<u8>) -> Seq<u8>;

/// Relies on sha2::Sha256::digest: returns the SHA-256 hash of the input,
/// which is 32 bytes long and a function of the input bytes alone.
#[verifier::external_body]
fn sha256_bytes(data: &[u8]) -> (r: Vec<u8>)
    ensures
        r@ == sha256_of(data@),
        r@.len() == 32,
{
    sha2::Sha256::digest(data).to_vec()
}

/// The ASCII code of the lowercase hexadecimal digit for `n`.
pub open spec fn hex_digit(n: u8) -> u8
    recommends
        n < 16,
{
    if n < 10 {
        (n + 48) as u8
    } else {
        (n + 87) as u8
    }
}

/// Lowercase hexadecimal rendering of a byte sequence: two digits per byte,
/// high nibble first.
pub open spec fn hex_of(data: Seq<u8>) -> Seq<u8>
    decreases data.len(),
{
    if data.len() == 0 {
        Seq::empty()
    } else {
        seq![hex_digit(data[0] / 16), hex_digit(data[0] % 16)] + hex_of(data.skip(1))
    }
}

/// Relies on hex::encode: lowercase hexadecimal, two digits per byte, high
/// nibble first.
#[verifier::external_body]
fn hex_encode(data: &[u8]) -> (r: Vec<u8>)
    ensures
        r@ == hex_of(data@),
{
    hex::encode(data).into_bytes()
}

/// The canonical digest string for a blob: `sha256:` followed by the
/// lowercase hex of the blob's SHA-256 hash.
pub open spec fn spec_sha256_digest(data: Seq<u8>) -> Seq<u8> {
    lit("sha256:") + hex_of(sha256_of(data))
}

/// Computes the `sha256:<hex>` digest string for a blob.
pub fn sha256_digest(data: &[u8]) -> (r: Vec<u8>)
    ensures
        r@ == spec_sha256_digest(data@),
{
    let mut out = lit_bytes("sha256:");
    let h = sha256_bytes(data);
    let hx = hex_encode(h.as_slice());
    append_bytes(&mut out, hx.as_slice());
    out
}

/// Splits an `algorithm:hash` digest at the first colon; both parts are
/// empty when the digest holds no colon.
pub fn split_algo_hash(digest: &[u8]) -> (r: (Vec<u8>, Vec<u8>))
    ensures
        match spec_find_byte(digest@, 58u8) {
            Some(i) => r.0@ == digest@.subrange(0, i) && r.1@ == digest@.subrange(
                i + 1,
                digest@.len() as int,
            ),
            None => r.0@ == Seq::<u8>::empty() && r.1@ == Seq::<u8>::empty(),
        },
{
    match find_byte(digest, 58) {
        Some(i) => {
            let n = digest.len();
            assert(i < n);
            let algo = sub_bytes(digest, 0, i);
            let hash = sub_bytes(digest, i + 1, n);
            (algo, hash)
        },
        None => (Vec::new(), Vec::new()),
    }
}

} // verus!
