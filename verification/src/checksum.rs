//! The checksum under which the store keeps the first field of a note.

use vstd::prelude::*;
use sha1::{Digest, Sha1};

verus! {

/// The SHA-1 digest of a byte string.
pub uninterp spec fn sha1_digest(data: Seq<u8>) -> Seq<u8>;

/// Calls `Sha1::digest` of the `sha1` crate, the one-shot form of the hash:
/// the result is the SHA-1 digest of `data`, twenty bytes, and depends on
/// nothing but `data`.
#[verifier::external_body]
fn sha1(data: &[u8]) -> (digest: [u8; 20])
    ensures
        digest@ == sha1_digest(data@),
{
    Sha1::digest(data).into()
}

/// The number that the first four bytes of `digest` spell, the first byte
/// being the most significant.
pub open spec fn leading_word(digest: Seq<u8>) -> int {
    digest[0] * 0x100_0000 + digest[1] * 0x1_0000 + digest[2] * 0x100 + digest[3]
}

/// The checksum of a text: the leading word of the SHA-1 digest of its UTF-8
/// encoding.
pub open spec fn checksum_of(text: Seq<char>) -> int {
    leading_word(sha1_digest(vstd::utf8::encode_utf8(text)))
}

/// Computes the checksum of `text`. The store's checksums are taken of text
/// from which markup has been stripped; the caller strips first.
pub fn field_checksum(text: &str) -> (csum: u32)
    ensures
        csum == checksum_of(text@),
{
    let digest = sha1(text.as_bytes());
    let b0: u32 = digest[0] as u32;
    let b1: u32 = digest[1] as u32;
    let b2: u32 = digest[2] as u32;
    let b3: u32 = digest[3] as u32;
    b0 * 0x100_0000 + b1 * 0x1_0000 + b2 * 0x100 + b3
}

} // verus!
