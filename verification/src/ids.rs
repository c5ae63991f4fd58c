//! Freshly generated identifiers for catalog rows, spaces and error reports.

use vstd::prelude::*;

verus! {

/// Relies on uuid::Uuid::new_v4: a random version-4 UUID, rendered in the
/// hyphenated form, which is always 36 characters long. The value is random,
/// so nothing beyond its length is promised; uniqueness is checked by the
/// tables that store these identifiers.
#[verifier::external_body]
pub(crate) fn fresh_uuid() -> (r: String)
    ensures
        r@.len() == 36,
{
    uuid::Uuid::new_v4().to_string()
}

} // verus!
