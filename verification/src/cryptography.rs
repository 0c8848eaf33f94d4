//! One-way hashing of deletion secrets.

use vstd::prelude::*;
use vstd::utf8::encode_utf8;

verus! {

/// The SHA-256 digest of a byte string, as `sha2` computes it.
pub uninterp spec fn sha256(bytes: Seq<u8>) -> Seq<u8>;

/// The sixteen lowercase hexadecimal digits, by value.
pub open spec fn hex_digit(n: int) -> char {
    seq!['0', '1', '2', '3', '4', '5', '6', '7', '8', '9', 'a', 'b', 'c', 'd', 'e', 'f'][n]
}

/// Lowercase hexadecimal rendering: two digits per byte, high nibble first.
pub open spec fn hex_string(bytes: Seq<u8>) -> Seq<char> {
    Seq::new(
        2 * bytes.len(),
        |i: int|
            if i % 2 == 0 {
                hex_digit(bytes[i / 2] as int / 16)
            } else {
                hex_digit(bytes[i / 2] as int % 16)
            },
    )
}

/// What is stored in place of a secret: the hex rendering of the SHA-256
/// digest of its UTF-8 bytes.
pub open spec fn hash_spec(value: Seq<char>) -> Seq<char> {
    hex_string(sha256(encode_utf8(value)))
}

/// Calls `sha2::Sha256::digest` on the UTF-8 bytes of `value`. Trusted: the
/// result is the digest named by [`sha256`], and it is 32 bytes long.
#[verifier::external_body]
fn sha256_digest(value: &str) -> (digest: Vec<u8>)
    ensures
        digest@ == sha256(encode_utf8(value@)),
        digest@.len() == 32,
{
    <sha2::Sha256 as sha2::Digest>::digest(value.as_bytes()).to_vec()
}

/// Calls `hex::encode`. Trusted: the result is the lowercase hexadecimal
/// rendering of `bytes`, two digits per byte.
#[verifier::external_body]
fn hex_encode(bytes: &Vec<u8>) -> (text: String)
    ensures
        text@ == hex_string(bytes@),
{
    hex::encode(bytes)
}

/// Hashes a secret for storage or comparison.
pub fn hash_value_sha256(value: &str) -> (hashed: String)
    ensures
        hashed@ == hash_spec(value@),
        hashed@.len() == 64,
{
    let digest = sha256_digest(value);
    hex_encode(&digest)
}

} // verus!
