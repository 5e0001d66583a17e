//! Identifiers that are new each time.

use vstd::prelude::*;

verus! {

/// A lower-case hexadecimal digit.
pub open spec fn is_hex_digit(c: char) -> bool {
    ('0' <= c <= '9') || ('a' <= c <= 'f')
}

/// The text form of a UUID: hexadecimal digits in groups of 8, 4, 4, 4 and 12.
pub open spec fn is_uuid_text(s: Seq<char>) -> bool {
    &&& s.len() == 36
    &&& forall|i: int|
        0 <= i < 36 ==> if i == 8 || i == 13 || i == 18 || i == 23 {
            (#[trigger] s[i]) == '-'
        } else {
            is_hex_digit(s[i])
        }
}

/// `uuid::Uuid::new_v4` and its `Display` form: 36 characters, random
/// hexadecimal digits in five groups. Which digits come out is left open.
#[verifier::external_body]
pub(crate) fn fresh_uuid() -> (r: String)
    ensures
        is_uuid_text(r@),
{
    uuid::Uuid::new_v4().to_string()
}

/// The simple form of a UUID: 32 hexadecimal digits.
pub open spec fn is_simple_uuid_text(s: Seq<char>) -> bool {
    s.len() == 32 && forall|i: int| 0 <= i < 32 ==> is_hex_digit(#[trigger] s[i])
}

/// `uuid::Uuid::new_v4` and the `Display` form of `uuid::Uuid::simple`: 32 random
/// hexadecimal digits. Which digits come out is left open.
#[verifier::external_body]
pub(crate) fn fresh_simple_uuid() -> (r: String)
    ensures
        is_simple_uuid_text(r@),
{
    uuid::Uuid::new_v4().simple().to_string()
}

} // verus!
