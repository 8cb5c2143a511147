//! User, event and vehicle ids: 128-bit numbers that are written as UUIDs.

use vstd::prelude::*;

verus! {

/// The id that `uuid::Uuid::parse_str` reads from a text, as a number, or
/// `None` where it reads none.
pub uninterp spec fn parsed_uuid(text: Seq<char>) -> Option<u128>;

/// The text that `uuid::Uuid` writes for an id: 32 hexadecimal digits in
/// five groups with hyphens between them.
pub uninterp spec fn uuid_text(id: u128) -> Seq<char>;

/// Reads an id with `uuid::Uuid::parse_str`, and gives it as the number
/// that `Uuid::as_u128` makes of it; `None` where the text is no UUID.
#[verifier::external_body]
pub(crate) fn parse_uuid(text: &str) -> (id: Option<u128>)
    ensures
        id == parsed_uuid(text@),
{
    match uuid::Uuid::parse_str(text) {
        Ok(id) => Some(id.as_u128()),
        Err(_) => None,
    }
}

/// Writes an id as `uuid::Uuid` does, through `Uuid::from_u128` and
/// `to_string`.
#[verifier::external_body]
pub(crate) fn uuid_to_string(id: u128) -> (text: String)
    ensures
        text@ == uuid_text(id),
{
    uuid::Uuid::from_u128(id).to_string()
}

/// Draws a new random id with `uuid::Uuid::new_v4`. Nothing is claimed of
/// its value.
#[verifier::external_body]
pub(crate) fn new_uuid() -> (id: u128) {
    uuid::Uuid::new_v4().as_u128()
}

/// Reads an id from its text, which may be written in any of the forms of a
/// UUID; `None` where the text is no UUID.
pub fn from_text(text: &str) -> (id: Option<u128>)
    ensures
        id == parsed_uuid(text@),
{
    parse_uuid(text)
}

/// Writes an id as a UUID: 32 hexadecimal digits in five groups with
/// hyphens between them.
pub fn to_text(id: u128) -> (text: String)
    ensures
        text@ == uuid_text(id),
{
    uuid_to_string(id)
}

} // verus!
