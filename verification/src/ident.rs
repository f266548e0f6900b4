//! Identifiers. Plans and tasks are named by UUIDs; the library holds each
//! as its 128-bit value.

use vstd::prelude::*;

verus! {

/// The bits that tell a UUID's version and variant.
pub const KIND_MASK: u128 = 0x0000_0000_0000_f000_c000_0000_0000_0000u128;

/// Those bits in a random (version 4) UUID of the standard variant.
pub const KIND_RANDOM: u128 = 0x0000_0000_0000_4000_8000_0000_0000_0000u128;

/// Whether `id` is marked as a random UUID: version 4, standard variant.
pub open spec fn is_random(id: u128) -> bool {
    id & KIND_MASK == KIND_RANDOM
}

/// Whether some identifier marked as a random UUID is among `ids`. Only
/// such an identifier can be drawn, so that a draw can only be refused by a
/// store that holds one.
pub open spec fn holds_random(ids: Set<u128>) -> bool {
    exists|id: u128| is_random(id) && #[trigger] ids.contains(id)
}

/// The character of the hexadecimal digit `value`, in lower case.
pub open spec fn hex_digit(value: u128) -> char {
    if value < 10 {
        (value + 48) as u8 as char
    } else {
        (value + 87) as u8 as char
    }
}

/// The hexadecimal digit of `id` at `place`, of 32, the most significant
/// at place 0.
pub open spec fn hex_at(id: u128, place: int) -> char {
    hex_digit((id >> ((124 - 4 * place) as u128)) & 0xf)
}

/// The hyphenated lower-case text of the UUID with value `id`: its 32
/// hexadecimal digits in groups of 8, 4, 4, 4 and 12, with a hyphen between
/// the groups.
pub open spec fn hyphenated(id: u128) -> Seq<char> {
    Seq::new(
        36,
        |at: int|
            if at == 8 || at == 13 || at == 18 || at == 23 {
                '-'
            } else if at < 8 {
                hex_at(id, at)
            } else if at < 13 {
                hex_at(id, at - 1)
            } else if at < 18 {
                hex_at(id, at - 2)
            } else if at < 23 {
                hex_at(id, at - 3)
            } else {
                hex_at(id, at - 4)
            },
    )
}

/// Draws a new identifier with `uuid::Uuid::new_v4` and takes its 128-bit
/// value. Trusted: the UUID is marked as random, version 4 of the standard
/// variant; its other 122 bits come from the operating system's random
/// source, and nothing is claimed of them. The call panics if the
/// operating system cannot give random bytes.
#[verifier::external_body]
pub(crate) fn fresh_id() -> (id: u128)
    ensures
        is_random(id),
{
    uuid::Uuid::new_v4().as_u128()
}

/// Writes an identifier as `uuid::Uuid` displays it. Trusted: the text is
/// the UUID's hyphenated form, 36 characters with the digits in lower
/// case.
#[verifier::external_body]
pub(crate) fn id_text(id: u128) -> (text: String)
    ensures
        text@ == hyphenated(id),
{
    uuid::Uuid::from_u128(id).to_string()
}

/// Whether an identifier is marked as a random UUID.
pub fn marked_random(id: u128) -> (r: bool)
    ensures
        r == is_random(id),
{
    id & KIND_MASK == KIND_RANDOM
}

} // verus!
