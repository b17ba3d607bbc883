//! Fact identifiers: 128-bit, time-ordered, with a canonical text form.

use vstd::prelude::*;

verus! {

/// The canonical 26-character text of an identifier. It is a function of the
/// identifier alone; `id_text` below produces it.
pub uninterp spec fn ulid_text_of(id: u128) -> Seq<char>;

/// Relies on ulid's `Ulid::generate`: a fresh identifier drawn from the
/// clock and a random source. Nothing can be promised of the value.
#[verifier::external_body]
pub fn fresh_id() -> u128 {
    ulid::Ulid::generate().0
}

/// Relies on ulid's `Ulid::to_string`: 26 characters of Crockford base32,
/// drawn from the digits and uppercase letters, determined by the identifier
/// alone.
#[verifier::external_body]
pub fn id_text(id: u128) -> (r: String)
    ensures
        r@ == ulid_text_of(id),
        r@.len() == 26,
        forall|i: int|
            0 <= i < r@.len() ==> {
                let u = (#[trigger] r@[i]) as u32;
                (48 <= u && u <= 57) || (65 <= u && u <= 90)
            },
{
    ulid::Ulid(id).to_string()
}

} // verus!
