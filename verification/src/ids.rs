//! Fresh identifiers for scripts and particles.

use vstd::prelude::*;

verus! {

/// Number of characters in the text of an identifier.
pub const UUID_LEN: usize = 36;

/// `uuid::Uuid::new_v4`, written out by the `Display` of `Uuid`: a random
/// identifier in its hyphenated form, which has thirty-six characters.
/// Nothing else is known of it, and two calls need not agree.
#[verifier::external_body]
pub(crate) fn random_uuid() -> (r: String)
    ensures
        r@.len() == UUID_LEN,
{
    uuid::Uuid::new_v4().to_string()
}

} // verus!
