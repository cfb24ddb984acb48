//! Match and player identifiers: 128-bit values drawn at random, shown
//! to clients in their hyphenated text form.

use vstd::prelude::*;

verus! {

/// The hyphenated text form of the identifier `id`, as the uuid crate
/// prints it. The text depends on the identifier alone.
pub uninterp spec fn uuid_text(id: u128) -> Seq<char>;

/// Relies on `uuid::Uuid::new_v4` for a freshly drawn random
/// identifier. Nothing is promised of the value: in particular two
/// draws may collide, so no contract claims identifiers are unique.
#[verifier::external_body]
pub(crate) fn fresh_id() -> u128 {
    uuid::Uuid::new_v4().as_u128()
}

/// Relies on `uuid::Uuid::from_u128` and the uuid crate's hyphenated
/// `Display` form, a function of the identifier alone.
#[verifier::external_body]
pub(crate) fn format_id(id: u128) -> (s: String)
    ensures
        s@ == uuid_text(id),
{
    uuid::Uuid::from_u128(id).to_string()
}

} // verus!
