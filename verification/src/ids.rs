//! Identifiers of vehicles, chargers, sites and charge profiles.
//!
//! An identifier is the 128-bit value of a UUID (big-endian, as
//! `uuid::Uuid::as_u128` gives it).

use vstd::prelude::*;

verus! {

/// Identifier of an object of the simulation: the 128-bit value of a UUID.
pub type Id = u128;

/// Lower-case hexadecimal digit for a value in `0..16`.
pub open spec fn hex_digit(n: int) -> char {
    if n < 10 {
        (48 + n) as char
    } else {
        (87 + n) as char
    }
}

/// The `k`-th hexadecimal digit (counted from the most significant one,
/// `0 <= k < 32`) of a 128-bit value.
pub open spec fn nibble(id: u128, k: int) -> int {
    ((id >> ((4 * (31 - k)) as u128)) & 15u128) as int
}

/// The hexadecimal digits `from..to` of a 128-bit value.
pub open spec fn hex_digits(id: u128, from: int, to: int) -> Seq<char>
    decreases to - from,
{
    if to <= from {
        Seq::empty()
    } else {
        hex_digits(id, from, to - 1).push(hex_digit(nibble(id, to - 1)))
    }
}

/// The hyphenated lower-case text of a UUID, e.g.
/// `67e55044-10b1-426f-9247-bb680e5fe0c8`: groups of 8, 4, 4, 4 and 12 digits.
pub open spec fn uuid_text(id: u128) -> Seq<char> {
    hex_digits(id, 0, 8) + seq!['-'] + hex_digits(id, 8, 12) + seq!['-']
        + hex_digits(id, 12, 16) + seq!['-'] + hex_digits(id, 16, 20) + seq!['-']
        + hex_digits(id, 20, 32)
}

/// A fresh random identifier, from `uuid::Uuid::new_v4`.
///
/// Trusted: the value is random; the contract states only the version (4)
/// and variant (RFC 4122) bits that `new_v4` sets in every outcome.
#[verifier::external_body]
pub(crate) fn new_id() -> (id: Id)
    ensures
        (id >> 76u128) & 15u128 == 4u128,
        (id >> 62u128) & 3u128 == 2u128,
{
    uuid::Uuid::new_v4().as_u128()
}

/// The text of an identifier, from `uuid::Uuid::from_u128(id).to_string()`.
///
/// Trusted: `Display` of `uuid::Uuid` writes the hyphenated lower-case form
/// of the big-endian value, which is what `uuid_text` spells out.
#[verifier::external_body]
pub(crate) fn id_to_string(id: Id) -> (s: String)
    ensures
        s@ == uuid_text(id),
{
    uuid::Uuid::from_u128(id).to_string()
}

} // verus!
