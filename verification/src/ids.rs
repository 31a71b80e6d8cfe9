//! Fresh identifiers.

use vstd::prelude::*;

verus! {

/// Whether a character is a lower-case hexadecimal digit.
pub open spec fn is_hex(c: char) -> bool {
    ('0' <= c && c <= '9') || ('a' <= c && c <= 'f')
}

/// The textual form of a random (version 4) UUID: groups of 8, 4, 4, 4 and 12
/// hexadecimal digits, joined by hyphens.
pub open spec fn is_uuid_text(s: Seq<char>) -> bool {
    &&& s.len() == 36
    &&& s[8] == '-' && s[13] == '-' && s[18] == '-' && s[23] == '-'
    &&& s[14] == '4'
    &&& forall|i: int|
        0 <= i < 36 && i != 8 && i != 13 && i != 18 && i != 23 ==> is_hex(#[trigger] s[i])
}

/// `uuid::Uuid::new_v4`, in its hyphenated lower-case form. The digits are
/// random: only the form is claimed.
#[verifier::external_body]
fn fresh_id() -> (r: String)
    ensures
        is_uuid_text(r@),
{
    uuid::Uuid::new_v4().to_string()
}

/// An id was drawn, and `id` is what it may be.
pub closed spec fn is_drawn(id: Seq<char>) -> bool {
    exists|s: String| #[trigger] call_ensures(crate::ids::fresh_id, (), s) && s@ == id
}

/// A newly drawn id: the textual form of a random UUID.
pub open spec fn is_new_id(id: Seq<char>) -> bool {
    is_uuid_text(id) && is_drawn(id)
}

/// A new id.
pub(crate) fn new_id() -> (r: String)
    ensures
        is_new_id(r@),
{
    fresh_id()
}

} // verus!
