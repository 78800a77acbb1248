//! SHA-256 digests of texts, written as lowercase hexadecimal.
use vstd::prelude::*;

use sha2::{Digest, Sha256};

verus! {

/// The SHA-256 digest of a byte string.
pub uninterp spec fn sha256(data: Seq<u8>) -> Seq<u8>;

/// The lowercase hexadecimal digit for `d` (`0 <= d < 16`).
pub open spec fn hex_digit(d: u8) -> char {
    if d < 10 {
        ((48 + d) as u8) as char
    } else {
        ((87 + d) as u8) as char
    }
}

/// Bytes written as lowercase hexadecimal, two digits per byte, high half first.
pub open spec fn lower_hex(bytes: Seq<u8>) -> Seq<char>
    decreases bytes.len(),
{
    if bytes.len() == 0 {
        Seq::empty()
    } else {
        lower_hex(bytes.drop_last()) + seq![
            hex_digit(bytes.last() / 16),
            hex_digit(bytes.last() % 16),
        ]
    }
}

/// `Sha256::digest` from the `sha2` crate: the digest of `data`, 32 bytes long.
#[verifier::external_body]
fn sha256_digest(data: &[u8]) -> (r: Vec<u8>)
    ensures
        r@ == sha256(data@),
        r@.len() == 32,
{
    Sha256::digest(data).to_vec()
}

/// `hex::encode` from the `hex` crate: each byte as two lowercase hexadecimal digits.
#[verifier::external_body]
fn hex_encode(data: &[u8]) -> (r: String)
    ensures
        r@ == lower_hex(data@),
{
    hex::encode(data)
}

/// The lowercase hexadecimal SHA-256 digest of the UTF-8 bytes of `text`.
pub fn sha256_hex(text: &str) -> (r: String)
    ensures
        r@ == lower_hex(sha256(vstd::utf8::encode_utf8(text@))),
        r@.len() == 64,
{
    let bytes = text.as_bytes();
    let d = sha256_digest(bytes);
    let r = hex_encode(d.as_slice());
    proof {
        lemma_lower_hex_len(d@);
    }
    r
}

/// Hex text is twice as long as the bytes it writes.
pub proof fn lemma_lower_hex_len(bytes: Seq<u8>)
    ensures
        lower_hex(bytes).len() == 2 * bytes.len(),
    decreases bytes.len(),
{
    if bytes.len() > 0 {
        lemma_lower_hex_len(bytes.drop_last());
    }
}

/// Writes bytes as lowercase hexadecimal (`hex::encode`).
pub fn to_lower_hex(data: &[u8]) -> (r: String)
    ensures
        r@ == lower_hex(data@),
{
    hex_encode(data)
}

} // verus!
