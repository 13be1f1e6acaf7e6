//! Keys by which the destination recognises a repetition.
use vstd::prelude::*;
use vstd::string::*;

use crate::number::lower_digit;

verus! {

/// A random UUID as it is written: hexadecimal digits in five groups, one of them telling
/// that it is random.
pub open spec fn is_uuid(text: Seq<char>) -> bool {
    &&& text.len() == 36
    &&& text[14] == '4'
    &&& forall|i: int|
        0 <= i < 36 ==> if i == 8 || i == 13 || i == 18 || i == 23 {
            #[trigger] text[i] == '-'
        } else {
            lower_digit(text[i])
        }
}

/// `uuid::Uuid::new_v4` as a string: a random UUID, written in lower case with hyphens. Two
/// calls may differ, so no more is said of it.
#[verifier::external_body]
pub(crate) fn fresh_key() -> (r: String)
    ensures
        is_uuid(r@),
{
    uuid::Uuid::new_v4().to_string()
}

} // verus!
