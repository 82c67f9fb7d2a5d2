//! The character classes that the scanner tells apart.
use vstd::prelude::*;

verus! {

/// An ASCII decimal digit.
pub open spec fn spec_is_digit(c: char) -> bool {
    '0' <= c && c <= '9'
}

/// An ASCII letter or an underscore: what an identifier may start with.
pub open spec fn spec_is_alpha(c: char) -> bool {
    ('a' <= c && c <= 'z') || ('A' <= c && c <= 'Z') || c == '_'
}

/// A letter, an underscore or a digit: what an identifier may go on with.
pub open spec fn spec_is_alpha_numeric(c: char) -> bool {
    spec_is_alpha(c) || spec_is_digit(c)
}

/// A space, a tab, a carriage return or a newline: a character that
/// separates tokens and produces none.
pub open spec fn spec_is_blank(c: char) -> bool {
    c == ' ' || c == '\t' || c == '\r' || c == '\n'
}

#[verifier::when_used_as_spec(spec_is_digit)]
pub fn is_digit(c: char) -> (yes: bool)
    ensures
        yes == spec_is_digit(c),
{
    '0' <= c && c <= '9'
}

#[verifier::when_used_as_spec(spec_is_alpha)]
pub fn is_alpha(c: char) -> (yes: bool)
    ensures
        yes == spec_is_alpha(c),
{
    ('a' <= c && c <= 'z') || ('A' <= c && c <= 'Z') || c == '_'
}

#[verifier::when_used_as_spec(spec_is_alpha_numeric)]
pub fn is_alpha_numeric(c: char) -> (yes: bool)
    ensures
        yes == spec_is_alpha_numeric(c),
{
    is_alpha(c) || is_digit(c)
}

#[verifier::when_used_as_spec(spec_is_blank)]
pub fn is_blank(c: char) -> (yes: bool)
    ensures
        yes == spec_is_blank(c),
{
    c == ' ' || c == '\t' || c == '\r' || c == '\n'
}

} // verus!
