//! Conversions between `String` and its character sequence.
//!
//! The tokenizer and the string built-ins work over `Vec<char>`, whose view
//! is the same `Seq<char>` that a `String` denotes; these two helpers move
//! between the representations.

use vstd::prelude::*;

verus! {

/// A vector's length fits in `usize`.
pub proof fn vec_len_fits<T>(v: &Vec<T>)
    ensures
        v@.len() <= usize::MAX,
{
    vstd::std_specs::vec::axiom_spec_len(v);
}

/// Relies on `str::chars`: the iterator yields exactly the characters of the
/// string, in order.
#[verifier::external_body]
pub fn string_to_chars(s: &str) -> (v: Vec<char>)
    ensures
        v@ == s@,
{
    s.chars().collect()
}

/// Relies on `FromIterator for String`: collecting characters builds the
/// string with exactly those characters, in order.
#[verifier::external_body]
pub fn chars_to_string(v: &Vec<char>) -> (s: String)
    ensures
        s@ == v@,
{
    v.iter().collect()
}

} // verus!
