//! What the command-line and MCP commands compute before and after talking to
//! the servers: new records from user input and patches applied to stored ones.
use vstd::prelude::*;

pub mod contacts;
pub mod download;
pub mod events;

verus! {

/// A lowercase hexadecimal digit.
pub open spec fn is_lower_hex(c: char) -> bool {
    ('0' <= c && c <= '9') || ('a' <= c && c <= 'f')
}

/// The hyphenated lowercase form of a random (version 4, RFC 4122 variant)
/// UUID (`67e55044-10b1-426f-9247-bb680e5fe0c8`): version digit `4`, variant
/// digit `8`, `9`, `a` or `b`.
pub open spec fn uuid_text(s: Seq<char>) -> bool {
    &&& s.len() == 36
    &&& forall|i: int|
        0 <= i < 36 ==> if i == 8 || i == 13 || i == 18 || i == 23 {
            #[trigger] s[i] == '-'
        } else {
            is_lower_hex(s[i])
        }
    &&& s[14] == '4'
    &&& (s[19] == '8' || s[19] == '9' || s[19] == 'a' || s[19] == 'b')
}

/// A fresh random identifier: `uuid::Uuid::new_v4()` in its hyphenated
/// lowercase `Display` form. Which UUID comes back is chance; the contract
/// states only its shape, which uuid's formatting code and the version and
/// variant bits that `new_v4` sets fix.
#[verifier::external_body]
pub(crate) fn new_uuid_string() -> (r: String)
    ensures
        uuid_text(r@),
{
    uuid::Uuid::new_v4().to_string()
}

} // verus!
