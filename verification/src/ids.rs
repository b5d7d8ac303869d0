//! Where row ids come from.

use uuid::Uuid;
use vstd::prelude::*;

verus! {

/// The number of characters of an id.
pub const ID_LENGTH: usize = 36;

/// `Uuid::now_v7` and its `to_string`: a new identifier in hyphenated form,
/// which is 36 characters long. Nothing is claimed of which characters.
#[verifier::external_body]
pub(crate) fn fresh_id() -> (id: String)
    ensures
        id@.len() == ID_LENGTH,
{
    Uuid::now_v7().to_string()
}

} // verus!
