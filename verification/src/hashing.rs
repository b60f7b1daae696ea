//! Content hashes: the SHA-256 digest of some bytes, written in lower-case
//! hexadecimal. Files and chunks are recognised by them.

use vstd::prelude::*;
use vstd::utf8::encode_utf8;
use sha2::{Digest, Sha256};

verus! {

/// The SHA-256 digest of `bytes`.
pub uninterp spec fn sha256_digest(bytes: Seq<u8>) -> Seq<u8>;

/// The lower-case hexadecimal digit for a value below 16.
pub open spec fn hex_digit(n: u8) -> char {
    if n < 10 {
        (48 + n) as char
    } else {
        (87 + n) as char
    }
}

/// `bytes` in lower-case hexadecimal, two digits for each byte.
pub open spec fn hex_string(bytes: Seq<u8>) -> Seq<char> {
    Seq::new(
        2 * bytes.len(),
        |i: int|
            if i % 2 == 0 {
                hex_digit(bytes[i / 2] / 16)
            } else {
                hex_digit(bytes[i / 2] % 16)
            },
    )
}

/// The content hash of `bytes`: their SHA-256 digest in hexadecimal.
pub open spec fn content_hash_of(bytes: Seq<u8>) -> Seq<char> {
    hex_string(sha256_digest(bytes))
}

/// The content hash of a text: that of its UTF-8 bytes.
pub open spec fn text_hash_of(text: Seq<char>) -> Seq<char> {
    content_hash_of(encode_utf8(text))
}

/// Computes the SHA-256 digest with `sha2::Sha256::digest`. The digest is
/// a function of the bytes alone, which is all the contract says.
#[verifier::external_body]
fn sha256(bytes: &[u8]) -> (r: Vec<u8>)
    ensures
        r@ == sha256_digest(bytes@),
{
    Sha256::digest(bytes).to_vec()
}

/// Writes bytes in hexadecimal with `hex::encode`: two lower-case digits
/// for each byte, the high half first.
#[verifier::external_body]
fn hex_encode(bytes: &[u8]) -> (r: String)
    ensures
        r@ == hex_string(bytes@),
{
    hex::encode(bytes)
}

/// The content hash of a file or of any other bytes.
pub fn content_hash(bytes: &[u8]) -> (r: String)
    ensures
        r@ == content_hash_of(bytes@),
{
    let digest = sha256(bytes);
    hex_encode(digest.as_slice())
}

/// The content hash of a text, taken over its UTF-8 bytes.
pub fn text_hash(text: &str) -> (r: String)
    ensures
        r@ == text_hash_of(text@),
{
    content_hash(text.as_bytes())
}

} // verus!
