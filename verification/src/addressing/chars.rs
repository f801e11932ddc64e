//! The character classes of the address syntax.

use vstd::prelude::*;

verus! {

/// Whether `c` is one of the decimal digits `0` to `9`.
pub open spec fn spec_is_digit(c: char) -> bool {
    '0' <= c && c <= '9'
}

/// Whether `c` separates two addresses: `,` or `;`.
pub open spec fn spec_is_separator(c: char) -> bool {
    c == ',' || c == ';'
}

/// Whether `c` is a symbolic address: `.`, `$`, `+` or `-`.
pub open spec fn spec_is_symbol(c: char) -> bool {
    c == '.' || c == '$' || c == '+' || c == '-'
}

/// The number that the decimal digit `c` stands for.
pub open spec fn spec_digit_value(c: char) -> nat
    recommends
        spec_is_digit(c),
{
    (c as u32 - '0' as u32) as nat
}

/// Whether the Unicode character database gives `c` the property
/// `White_Space`.
pub uninterp spec fn white_space(c: char) -> bool;

/// Whether the Unicode character database gives `c` the property
/// `Alphabetic`.
pub uninterp spec fn alphabetic(c: char) -> bool;

/// Whether `c` is one of the decimal digits `0` to `9`.
#[verifier::when_used_as_spec(spec_is_digit)]
pub fn is_digit(c: char) -> (r: bool)
    ensures
        r == spec_is_digit(c),
{
    '0' <= c && c <= '9'
}

/// Whether `c` separates two addresses: `,` or `;`.
#[verifier::when_used_as_spec(spec_is_separator)]
pub fn is_separator(c: char) -> (r: bool)
    ensures
        r == spec_is_separator(c),
{
    c == ',' || c == ';'
}

/// Whether `c` is a symbolic address: `.`, `$`, `+` or `-`.
#[verifier::when_used_as_spec(spec_is_symbol)]
pub fn is_symbol(c: char) -> (r: bool)
    ensures
        r == spec_is_symbol(c),
{
    c == '.' || c == '$' || c == '+' || c == '-'
}

/// The number that the decimal digit `c` stands for.
pub fn digit_value(c: char) -> (r: usize)
    requires
        is_digit(c),
    ensures
        r == spec_digit_value(c),
        r <= 9,
{
    (c as u32 - '0' as u32) as usize
}

/// Calls `char::is_whitespace` of the standard library, which looks `c` up
/// in the Unicode table of the property `White_Space`. Trusted: the result is
/// what [`white_space`] names.
#[verifier::external_body]
pub(crate) fn is_whitespace(c: char) -> (r: bool)
    ensures
        r == white_space(c),
{
    c.is_whitespace()
}

/// Calls `char::is_alphabetic` of the standard library, which looks `c` up
/// in the Unicode table of the property `Alphabetic`. Trusted: the result is
/// what [`alphabetic`] names.
#[verifier::external_body]
pub(crate) fn is_alphabetic(c: char) -> (r: bool)
    ensures
        r == alphabetic(c),
{
    c.is_alphabetic()
}

/// `String::push` of the standard library, which appends `ch` to the end of
/// the string. Trusted: the characters afterwards are those before, followed
/// by `ch`.
pub assume_specification[ String::push ](text: &mut String, ch: char)
    ensures
        final(text)@ == old(text)@.push(ch),
;

} // verus!
