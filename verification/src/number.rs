//! Numbers of a value tree. A number is carried as `serde_json::Number`;
//! the tree's model knows it by the text that `serde_json` writes for it.

use vstd::prelude::*;
use crate::text::decimal;

verus! {

#[verifier::external_type_specification]
#[verifier::external_body]
pub struct ExNumber(serde_json::Number);

/// The text that `serde_json` writes for a number: its `Display` form.
pub uninterp spec fn number_text(n: serde_json::Number) -> Seq<char>;

/// `Number::to_string`, which goes through `Display for Number`: the
/// integer or the shortest float text that reads back as the same number.
/// The contract only gives that text its name.
#[verifier::external_body]
pub(crate) fn number_to_text(n: &serde_json::Number) -> (out: String)
    ensures
        out@ == number_text(*n),
{
    n.to_string()
}

/// `Clone for Number`: the copy is the same number.
pub assume_specification[ <serde_json::Number as Clone>::clone ](n: &serde_json::Number) -> (out:
    serde_json::Number)
    ensures
        out == *n,
;

/// `Number::from(u64)`: a non-negative integer, which `Display` writes in
/// plain decimal.
#[verifier::external_body]
pub(crate) fn number_from_u64(n: u64) -> (out: serde_json::Number)
    ensures
        number_text(out) == decimal(n as nat),
{
    serde_json::Number::from(n)
}

} // verus!
