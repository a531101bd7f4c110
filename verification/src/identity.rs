//! Names that tell plugin instances apart.

use vstd::prelude::*;

verus! {

pub open spec fn lower_hex(c: char) -> bool {
    '0' <= c <= '9' || 'a' <= c <= 'f'
}

/// The text form of a random (version 4) UUID.
pub open spec fn random_uuid_text(s: Seq<char>) -> bool {
    &&& s.len() == 36
    &&& forall|i: int|
        0 <= i < 36 ==> if i == 8 || i == 13 || i == 18 || i == 23 {
            #[trigger] s[i] == '-'
        } else {
            lower_hex(s[i])
        }
    &&& s[14] == '4'
    &&& s[19] == '8' || s[19] == '9' || s[19] == 'a' || s[19] == 'b'
}

/// `uuid::Uuid::new_v4` makes a random UUID; its text form has 36 characters:
/// groups of 8, 4, 4, 4 and 12 lower-case hexadecimal digits between hyphens, with
/// the digits for the version and the variant fixed. The other digits are random.
#[verifier::external_body]
pub(crate) fn new_uuid() -> (id: String)
    ensures
        random_uuid_text(id@),
{
    uuid::Uuid::new_v4().to_string()
}

} // verus!
