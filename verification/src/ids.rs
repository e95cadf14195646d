//! Fresh identifiers.

use vstd::prelude::*;

verus! {

/// Whether `c` is a lower-case hexadecimal digit.
pub open spec fn is_lower_hex(c: char) -> bool {
    ('0' <= c && c <= '9') || ('a' <= c && c <= 'f')
}

/// Whether `s` has the shape of a random (version 4) UUID in hyphenated
/// lower-case form: 36 characters, hyphens at 8, 13, 18 and 23, the version
/// digit `4` at 14, a variant digit among `8`, `9`, `a`, `b` at 19, and
/// lower-case hex digits elsewhere.
pub open spec fn is_v4_uuid_text(s: Seq<char>) -> bool {
    &&& s.len() == 36
    &&& forall|i: int| 0 <= i < 36 ==> (#[trigger] s[i] == '-' <==> (i == 8 || i == 13 || i == 18 || i == 23))
    &&& forall|i: int| 0 <= i < 36 && i != 8 && i != 13 && i != 18 && i != 23 ==> is_lower_hex(#[trigger] s[i])
    &&& s[14] == '4'
    &&& (s[19] == '8' || s[19] == '9' || s[19] == 'a' || s[19] == 'b')
}

/// A fresh random id: `uuid::Uuid::new_v4()` rendered by its `Display`
/// impl. `new_v4` masks random bits to set the version nibble to 4 and the
/// variant bits to `10`; `Display` writes the hyphenated lower-case hex form.
/// The random digits themselves are not stated.
#[verifier::external_body]
pub(crate) fn new_uuid() -> (id: String)
    ensures
        is_v4_uuid_text(id@),
{
    uuid::Uuid::new_v4().to_string()
}

} // verus!
