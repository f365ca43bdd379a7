//! SHA-256 based checksums and lowercase hex encoding.

use vstd::prelude::*;
use sha2::{Digest, Sha256};

verus! {

/// The SHA-256 digest of `data` (32 bytes), as the `sha2` crate computes it.
pub uninterp spec fn sha256_of(data: Seq<u8>) -> Seq<u8>;

/// The SHA-256 digest of `data`.
///
/// Calls `sha2::Sha256::digest` (`Digest::digest`: a default hasher, one
/// `update` with `data`, then `finalize`). The contract claims that the 32
/// bytes returned are `sha256_of(data)`, a name for that function's result;
/// nothing is stated about the value of the hash itself.
#[verifier::external_body]
fn sha256_digest(data: &[u8]) -> (d: [u8; 32])
    ensures
        d@ == sha256_of(data@),
{
    Sha256::digest(data).into()
}

/// The lowercase hexadecimal digit for `n` (0 to 15).
pub open spec fn hex_digit(n: int) -> char {
    seq!['0', '1', '2', '3', '4', '5', '6', '7', '8', '9', 'a', 'b', 'c', 'd', 'e', 'f'][n]
}

/// Lowercase hexadecimal encoding: two digits per byte, high nibble first.
pub open spec fn hex_lower(b: Seq<u8>) -> Seq<char>
    decreases b.len(),
{
    if b.len() == 0 {
        Seq::empty()
    } else {
        hex_lower(b.drop_last()) + seq![hex_digit(b.last() as int / 16), hex_digit(b.last() as int % 16)]
    }
}

/// Lowercase hexadecimal encoding of `data`.
///
/// Calls `hex::encode`, which maps each byte to the characters
/// `HEX_CHARS_LOWER[byte >> 4]` and `HEX_CHARS_LOWER[byte & 0xf]` from
/// `"0123456789abcdef"`, in order; the contract states that mapping.
#[verifier::external_body]
pub(crate) fn hex_encode(data: &[u8]) -> (s: String)
    ensures
        s@ == hex_lower(data@),
{
    hex::encode(data)
}

/// The SHA-256d checksum of `data`: the first 4 bytes of SHA256(SHA256(data)).
pub fn sha256d_checksum(data: &[u8]) -> (c: [u8; 4])
    ensures
        c@ == sha256_of(sha256_of(data@)).take(4),
        sha256_of(data@).len() == 32,
        sha256_of(sha256_of(data@)).len() == 32,
{
    let first = sha256_digest(data);
    let second = sha256_digest(first.as_slice());
    let c = [second[0], second[1], second[2], second[3]];
    assert(c@ =~= second@.take(4));
    c
}

/// The SHA-256 digest of `data` as a lowercase hex string (64 characters).
pub fn sha256_hex(data: &[u8]) -> (s: String)
    ensures
        s@ == hex_lower(sha256_of(data@)),
        sha256_of(data@).len() == 32,
{
    let d = sha256_digest(data);
    hex_encode(d.as_slice())
}

} // verus!
