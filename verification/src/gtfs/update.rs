//! Version stamps for a rebuilt timetable.

use vstd::prelude::*;

verus! {

pub open spec fn is_lower_hex(c: char) -> bool {
    ('0' <= c <= '9') || ('a' <= c <= 'f')
}

/// `true` when `s` is the hyphenated lower-case text of a random (version 4,
/// RFC 4122 variant) UUID, such as `67e55044-10b1-426f-9247-bb680e5fe0c8`.
pub open spec fn is_uuid_v4_text(s: Seq<char>) -> bool {
    &&& s.len() == 36
    &&& forall|i: int| 0 <= i < 36 ==> if i == 8 || i == 13 || i == 18 || i == 23 {
        #[trigger] s[i] == '-'
    } else {
        is_lower_hex(s[i])
    }
    &&& s[14] == '4'
    &&& (s[19] == '8' || s[19] == '9' || s[19] == 'a' || s[19] == 'b')
}

/// `uuid::Uuid::new_v4` followed by its `to_string`: a fresh random UUID in
/// hyphenated lower-case form. Which UUID comes back is left open; its form
/// is what the crate's documentation and source give (version nibble 4,
/// variant bits `10`, lower-case hexadecimal digits in groups of 8-4-4-4-12).
#[verifier::external_body]
fn new_v4_text() -> (id: String)
    ensures
        is_uuid_v4_text(id@),
{
    uuid::Uuid::new_v4().to_string()
}

/// A fresh identifier for a timetable update: what the version file holds.
pub fn update_id() -> (id: String)
    ensures
        is_uuid_v4_text(id@),
{
    new_v4_text()
}

} // verus!
