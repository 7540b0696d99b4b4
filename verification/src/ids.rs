//! Random identifiers.

use vstd::prelude::*;

verus! {

/// Whether `c` is a lower-case hexadecimal digit.
pub open spec fn is_hex_char(c: char) -> bool {
    '0' <= c <= '9' || 'a' <= c <= 'f'
}

/// The form of a random UUID: 36 characters, hyphens at four places, lower-case hexadecimal
/// digits elsewhere, version 4 and the common variant.
pub open spec fn is_random_uuid(s: Seq<char>) -> bool {
    &&& s.len() == 36
    &&& s[8] == '-' && s[13] == '-' && s[18] == '-' && s[23] == '-'
    &&& forall|i: int|
        0 <= i < 36 && i != 8 && i != 13 && i != 18 && i != 23 ==> is_hex_char(#[trigger] s[i])
    &&& s[14] == '4'
    &&& (s[19] == '8' || s[19] == '9' || s[19] == 'a' || s[19] == 'b')
}

/// Calls `uuid::Uuid::new_v4` and writes the result in its hyphenated form. Claims the form alone:
/// the digits are random.
#[verifier::external_body]
pub(crate) fn random_uuid() -> (r: String)
    ensures
        is_random_uuid(r@),
{
    uuid::Uuid::new_v4().to_string()
}

/// A new identifier for a transfer or for this run of the application.
pub fn new_id() -> (r: String)
    ensures
        is_random_uuid(r@),
{
    random_uuid()
}

/// There are random identifiers.
pub(crate) proof fn lemma_some_uuid() -> (id: Seq<char>)
    ensures
        is_random_uuid(id),
{
    let id = Seq::new(
        36,
        |i: int|
            if i == 8 || i == 13 || i == 18 || i == 23 {
                '-'
            } else if i == 14 {
                '4'
            } else {
                '8'
            },
    );
    assert(is_random_uuid(id));
    id
}

} // verus!
