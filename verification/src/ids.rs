//! Identifiers.  Message and channel ids are 128-bit values; the uuid crate
//! supplies fresh ones and the textual form, both taken on trust.

use vstd::prelude::*;

verus! {

/// Relies on uuid's `Uuid::new_v4`: a fresh random 128-bit id.  Randomness
/// promises nothing; callers treat every value alike.
#[verifier::external_body]
pub fn new_id() -> u128 {
    uuid::Uuid::new_v4().as_u128()
}

/// The canonical textual form of a 128-bit id, named: it depends on the id
/// alone (uuid's hyphenated lower-case rendering).
pub uninterp spec fn id_text(id: u128) -> Seq<char>;

/// Relies on uuid's hyphenated `to_string`: always 36 ASCII characters.
#[verifier::external_body]
pub fn id_to_string(id: u128) -> (r: String)
    ensures
        r@ == id_text(id),
        r@.len() == 36,
{
    uuid::Uuid::from_u128(id).to_string()
}

/// Relies on uuid's `Uuid::parse_str`: `Some` when the text is one of the
/// uuid notations, then the id it denotes; in particular the canonical
/// hyphenated text of any id parses back to that id.
#[verifier::external_body]
pub fn parse_id(s: &str) -> (r: Option<u128>)
    ensures
        r matches Some(id) ==> id_text(id).len() == 36,
        forall|u: u128| s@ == id_text(u) ==> r == Some(u),
{
    match uuid::Uuid::parse_str(s) {
        Ok(u) => Some(u.as_u128()),
        Err(_) => None,
    }
}

/// Relies on uuid's `new_v4` and `to_string`: a fresh id in its 36-character
/// hyphenated ASCII form.
#[verifier::external_body]
pub fn new_id_string() -> (r: String)
    ensures
        r@.len() == 36,
        vstd::utf8::is_ascii_chars(r@),
{
    uuid::Uuid::new_v4().to_string()
}

} // verus!
