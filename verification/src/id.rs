//! Identifiers of clips and match events.

use vstd::prelude::*;

verus! {

/// A UUID, held as its 128 bits.
#[derive(Debug, Clone, Copy, PartialEq, Eq, Hash, Structural)]
pub struct Id {
    pub bits: u128,
}

/// A hexadecimal digit's character, lowercase.
pub open spec fn hex_digit(d: int) -> char {
    if d < 10 {
        ('0' as int + d) as char
    } else {
        ('a' as int + d - 10) as char
    }
}

/// Where in a hyphenated UUID the hyphens stand.
pub open spec fn hyphen_at(i: int) -> bool {
    i == 8 || i == 13 || i == 18 || i == 23
}

/// How many hyphens of a hyphenated UUID stand before position `i`.
pub open spec fn hyphens_before(i: int) -> int {
    if i > 23 {
        4
    } else if i > 18 {
        3
    } else if i > 13 {
        2
    } else if i > 8 {
        1
    } else {
        0
    }
}

/// A UUID written as 32 lowercase hexadecimal digits, the most significant
/// first, in groups of 8, 4, 4, 4 and 12 with hyphens between them.
pub open spec fn hyphenated(bits: u128) -> Seq<char> {
    Seq::new(
        36,
        |i: int|
            if hyphen_at(i) {
                '-'
            } else {
                hex_digit(
                    ((bits >> ((4 * (31 - (i - hyphens_before(i)))) as u128)) & 0xf) as int,
                )
            },
    )
}

/// The 128 bits of the UUID a text holds, in any form `uuid::Uuid::parse_str`
/// reads; `None` for any other text.
pub uninterp spec fn uuid_in(text: Seq<char>) -> Option<u128>;

/// `uuid::Uuid::parse_str` and `Uuid::as_u128`: the 128 bits a text holds.
/// Which texts hold one (the simple, hyphenated, braced and URN forms, in
/// either case) is left unsaid, but for the one [`uuid_text`] writes.
#[verifier::external_body]
fn parse_uuid(text: &str) -> (bits: Option<u128>)
    ensures
        bits == uuid_in(text@),
{
    match uuid::Uuid::parse_str(text) {
        Ok(id) => Some(id.as_u128()),
        Err(_) => None,
    }
}

/// `uuid::Uuid::from_u128` and its `Display`: the UUID in hyphenated form,
/// which `Uuid::parse_str` reads back to the same bits.
#[verifier::external_body]
fn uuid_text(bits: u128) -> (text: String)
    ensures
        text@ == hyphenated(bits),
        uuid_in(text@) == Some(bits),
{
    uuid::Uuid::from_u128(bits).to_string()
}

/// The id a text parses to, given the bits found in it.
pub open spec fn id_of(bits: Option<u128>) -> Option<Id> {
    match bits {
        Some(bits) => Some(Id { bits }),
        None => None,
    }
}

/// Reads an id, as a row of the UI carries it.
pub fn parse_id(text: &str) -> (id: Option<Id>)
    ensures
        id == id_of(uuid_in(text@)),
{
    match parse_uuid(text) {
        Some(bits) => Some(Id { bits }),
        None => None,
    }
}

impl Id {
    /// The id as text. Reading it back gives the id.
    pub fn text(&self) -> (text: String)
        ensures
            text@ == hyphenated(self.bits),
            id_of(uuid_in(text@)) == Some(*self),
    {
        uuid_text(self.bits)
    }
}

} // verus!
