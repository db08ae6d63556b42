//! Conversions between strings and their character sequences.

use vstd::prelude::*;

verus! {

/// Relies on `str::chars` (std): yields the characters of the string, in
/// order.
#[verifier::external_body]
pub(crate) fn chars_of(s: &str) -> (r: Vec<char>)
    ensures
        r@ == s@,
{
    s.chars().collect()
}

/// Relies on `String: FromIterator<&char>` (std): collecting characters
/// builds the string with exactly those characters, in order.
#[verifier::external_body]
pub(crate) fn string_from_chars(v: &Vec<char>) -> (r: String)
    ensures
        r@ == v@,
{
    v.iter().collect()
}

} // verus!
