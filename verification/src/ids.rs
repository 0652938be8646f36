//! Connection ids. An id is the 128-bit value of a random UUID.

use vstd::arithmetic::power::pow;
use vstd::prelude::*;

verus! {

/// Whether `id` carries the marks of a random UUID: version 4 in the four
/// bits above bit 76, and the variant bits `10` on top of the low 64 bits.
pub open spec fn is_random_id(id: u128) -> bool {
    id & 0x0000_0000_0000_f000_c000_0000_0000_0000u128
        == 0x0000_0000_0000_4000_8000_0000_0000_0000u128
}

/// Draws a random id with `uuid::Uuid::new_v4` and hands it out as the
/// integer that `Uuid::as_u128` gives. The contract states the version and
/// variant bits that `new_v4` sets on every id, and nothing of the rest: two
/// draws may or may not differ. `new_v4` panics where the operating system
/// refuses to give random bytes.
#[verifier::external_body]
pub(crate) fn random_id() -> (id: u128)
    ensures
        is_random_id(id),
{
    uuid::Uuid::new_v4().as_u128()
}

/// The sixteenth-part of `id` at place `place`, counted from the most
/// significant, which is place 0, to the least, which is place 31.
pub open spec fn hex_place(id: u128, place: int) -> int {
    (id as int / pow(16, (31 - place) as nat)) % 16
}

/// The character at place `i` of the text of a UUID: a hyphen at the places
/// 8, 13, 18 and 23, and the sixteenth-parts of the id, from the most
/// significant on, as hexadecimal digits in lower case at the others.
pub open spec fn uuid_char(id: u128, i: int) -> char {
    if i == 8 || i == 13 || i == 18 || i == 23 {
        '-'
    } else {
        let hyphens_before: int = if i < 8 {
            0
        } else if i < 13 {
            1
        } else if i < 18 {
            2
        } else if i < 23 {
            3
        } else {
            4
        };
        "0123456789abcdef"@[hex_place(id, i - hyphens_before)]
    }
}

/// The text of the UUID with the value `id`: 36 characters, in the groups of
/// 8, 4, 4, 4 and 12 hexadecimal digits.
pub open spec fn uuid_text(id: u128) -> Seq<char> {
    Seq::new(36, |i: int| uuid_char(id, i))
}

/// Writes `id` as a UUID: `uuid::Uuid::from_u128`, then the text that the
/// UUID displays. The contract states that text as `uuid` writes it, the
/// hyphenated form in lower case; nothing of it is proved here.
#[verifier::external_body]
pub(crate) fn id_text(id: u128) -> (text: String)
    ensures
        text@ == uuid_text(id),
{
    uuid::Uuid::from_u128(id).to_string()
}

} // verus!
