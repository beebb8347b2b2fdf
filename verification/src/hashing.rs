//! Content hashing: SHA-256 digests rendered as uppercase hexadecimal
//! strings. The digest itself comes from an outside implementation; the
//! hex rendering is pinned down exactly.

use vstd::prelude::*;

verus! {

/// What SHA-256 returns for a given byte sequence. The algorithm is fixed,
/// so the digest is a function of the input bytes alone; its value is not
/// restated here.
pub uninterp spec fn sha256_of(bytes: Seq<u8>) -> Seq<u8>;

/// One uppercase hexadecimal digit for a value below 16.
pub open spec fn hex_digit(nibble: u8) -> char
    recommends
        nibble < 16,
{
    if nibble < 10 {
        (48 + nibble) as char
    } else {
        (55 + nibble) as char
    }
}

/// Base-16 rendering of a byte sequence: two uppercase digits per byte,
/// high nibble first.
pub open spec fn hex_upper_of(bytes: Seq<u8>) -> Seq<char> {
    Seq::new(
        bytes.len() * 2,
        |i: int|
            if i % 2 == 0 {
                hex_digit(bytes[i / 2] >> 4)
            } else {
                hex_digit(bytes[i / 2] & 0xf)
            },
    )
}

/// The digest string this library stores and compares: the uppercase hex
/// rendering of the SHA-256 digest of the input bytes.
pub open spec fn spec_hash_hex(bytes: Seq<u8>) -> Seq<char> {
    hex_upper_of(sha256_of(bytes))
}

/// Relies on `ring::digest::digest` with `&ring::digest::SHA256`: computes
/// the SHA-256 digest of the input; the output is 32 bytes (`SHA256`'s
/// output length) and depends on the input bytes alone.
#[verifier::external_body]
fn sha256_digest(bytes: &[u8]) -> (r: Vec<u8>)
    ensures
        r@ == sha256_of(bytes@),
        r@.len() == 32,
{
    ring::digest::digest(&ring::digest::SHA256, bytes).as_ref().to_vec()
}

/// Relies on `data_encoding::HEXUPPER.encode`: base-16 encoding with the
/// uppercase alphabet, two digits per byte, high nibble first.
#[verifier::external_body]
fn hex_upper_encode(bytes: &[u8]) -> (r: String)
    ensures
        r@ == hex_upper_of(bytes@),
{
    data_encoding::HEXUPPER.encode(bytes)
}

/// Uppercase-hex SHA-256 digest of a byte string. Always succeeds and
/// always yields 64 hex characters.
pub fn hash_bytes(bytes: &[u8]) -> (r: String)
    ensures
        r@ == spec_hash_hex(bytes@),
        r@.len() == 64,
{
    let digest = sha256_digest(bytes);
    hex_upper_encode(digest.as_slice())
}

} // verus!
