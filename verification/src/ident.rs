//! Identifiers of nodes.

use vstd::prelude::*;

verus! {

/// The length of an identifier that [`fresh_id`] hands out.
pub const ID_LENGTH: usize = 36;

/// Draws a new node identifier.
///
/// Calls `uuid::Uuid::new_v4` and renders the result with the crate's
/// `Display` form, the hyphenated lower-case one, which always has 36
/// characters. The identifier is random: nothing is claimed about which one
/// comes back, and in particular not that it differs from any identifier drawn
/// before. `new_v4` panics where the operating system cannot deliver random
/// bytes.
#[verifier::external_body]
pub(crate) fn fresh_id() -> (id: String)
    ensures
        id@.len() == ID_LENGTH,
{
    uuid::Uuid::new_v4().to_string()
}

} // verus!
