//! Content addressing: a byte payload is named by a strong content hash,
//! rendered as a fixed-width lowercase hexadecimal string that is safe to use
//! as a storage key.

use sha2::Digest;
use vstd::prelude::*;

verus! {

/// The content key derived from a byte payload. The key is a function of the
/// bytes alone: two equal payloads always receive the same key. Collisions
/// between distinct payloads are treated as negligible, so two payloads with
/// the same key are regarded as identical content.
pub uninterp spec fn key_of(data: Seq<u8>) -> Seq<char>;

/// Whether `c` can appear in a content key: keys are lowercase hexadecimal,
/// which keeps them safe to use as storage names.
pub open spec fn is_lower_hex_digit(c: char) -> bool {
    ('0' <= c && c <= '9') || ('a' <= c && c <= 'f')
}

/// Relies on sha2::Sha256::digest: a 32-byte digest that depends on the input
/// bytes alone, rendered here as 64 lowercase hexadecimal digits.
#[verifier::external_body]
pub fn content_key(data: &Vec<u8>) -> (r: String)
    ensures
        r@ == key_of(data@),
        r@.len() == 64,
        forall|i: int| 0 <= i < r@.len() ==> is_lower_hex_digit(#[trigger] r@[i]),
{
    format!("{:x}", sha2::Sha256::digest(data.as_slice()))
}

} // verus!
