//! Fresh identifiers for stored records.

use vstd::prelude::*;

verus! {

/// Lowercase hexadecimal digits.
pub open spec fn is_lower_hex(c: char) -> bool {
    let u = c as u32;
    (0x30 <= u && u <= 0x39) || (0x61 <= u && u <= 0x66)
}

/// The four positions of the hyphens in a hyphenated identifier.
pub open spec fn is_hyphen_pos(i: int) -> bool {
    i == 8 || i == 13 || i == 18 || i == 23
}

/// Relies on `uuid::Uuid::new_v4` and its hyphenated `Display` form:
/// 36 characters, hyphens at the four fixed positions, lowercase hex
/// digits elsewhere, and the version nibble 4. The value is fresh
/// randomness, so nothing more is claimed.
#[verifier::external_body]
pub fn fresh_uuid_string() -> (r: String)
    ensures
        r@.len() == 36,
        forall|i: int| 0 <= i < 36 && is_hyphen_pos(i) ==> #[trigger] r@[i] == '-',
        forall|i: int| 0 <= i < 36 && !is_hyphen_pos(i) ==> is_lower_hex(#[trigger] r@[i]),
        r@[14] == '4',
{
    uuid::Uuid::new_v4().to_string()
}

} // verus!
