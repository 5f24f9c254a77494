//! Random identifiers.

use vstd::prelude::*;

verus! {

/// A lower-case hexadecimal digit.
pub open spec fn hex_digit(c: char) -> bool {
    ('0' <= c <= '9') || ('a' <= c <= 'f')
}

/// The shape of a version 4 UUID: 36 characters, hyphens in their four places,
/// hexadecimal digits elsewhere, and among them the version and the variant.
pub open spec fn uuid_shaped(id: Seq<char>) -> bool {
    &&& id.len() == 36
    &&& id[14] == '4'
    &&& id[19] == '8' || id[19] == '9' || id[19] == 'a' || id[19] == 'b'
    &&& forall|i: int|
        #![trigger id[i]]
        0 <= i < 36 ==> if i == 8 || i == 13 || i == 18 || i == 23 {
            id[i] == '-'
        } else {
            hex_digit(id[i])
        }
}

/// A random identifier from `uuid::Uuid::new_v4`. Trusted: it is written as a
/// hyphenated lower-case UUID of version 4; which one it is depends on chance.
#[verifier::external_body]
pub(crate) fn random_id() -> (id: String)
    ensures
        uuid_shaped(id@),
{
    uuid::Uuid::new_v4().to_string()
}

} // verus!
