//! Track identifiers: random version-4 UUIDs in their hyphenated form.

use vstd::prelude::*;

verus! {

/// A lowercase hexadecimal digit.
pub open spec fn is_lower_hex(c: char) -> bool {
    ('0' <= c && c <= '9') || ('a' <= c && c <= 'f')
}

/// The shape of a track identifier: 36 characters, hyphens at positions 8,
/// 13, 18 and 23, lowercase hexadecimal digits everywhere else.
pub open spec fn is_track_id(s: Seq<char>) -> bool {
    &&& s.len() == 36
    &&& forall|i: int| 0 <= i < 36 ==> if i == 8 || i == 13 || i == 18 || i == 23 {
        s[i] == '-'
    } else {
        is_lower_hex(s[i])
    }
}

/// A version-4 (random) UUID: the version digit is `4` and the variant digit
/// is one of `8`, `9`, `a`, `b`.
pub open spec fn is_random_uuid(s: Seq<char>) -> bool {
    &&& is_track_id(s)
    &&& s[14] == '4'
    &&& (s[19] == '8' || s[19] == '9' || s[19] == 'a' || s[19] == 'b')
}

/// Calls `uuid::Uuid::new_v4` and formats it with `to_string`. The crate sets
/// the version nibble to 4 and the variant bits to `10`, and its `Display`
/// writes the lowercase hyphenated form (8-4-4-4-12 hex digits). The random
/// bits are not stated: two calls may give any two such strings.
#[verifier::external_body]
fn uuid_v4_string() -> (id: String)
    ensures
        is_random_uuid(id@),
{
    uuid::Uuid::new_v4().to_string()
}

/// A fresh random track identifier.
pub fn new_track_id() -> (id: String)
    ensures
        is_track_id(id@),
        is_random_uuid(id@),
{
    uuid_v4_string()
}

} // verus!
