use vstd::prelude::*;

verus! {

/// ASCII letters and the underscore start an identifier.
pub open spec fn spec_is_alpha(c: char) -> bool {
    ('a' <= c && c <= 'z') || ('A' <= c && c <= 'Z') || c == '_'
}

/// ASCII decimal digits.
pub open spec fn spec_is_number(c: char) -> bool {
    '0' <= c && c <= '9'
}

pub open spec fn spec_is_alpha_numeric(c: char) -> bool {
    spec_is_number(c) || spec_is_alpha(c)
}

/// Whether `c` may start an identifier: an ASCII letter or `_`.
pub fn is_alpha(c: char) -> (r: bool)
    ensures
        r == spec_is_alpha(c),
{
    ('a' <= c && c <= 'z') || ('A' <= c && c <= 'Z') || c == '_'
}

/// Whether `c` is an ASCII decimal digit.
pub fn is_number(c: char) -> (r: bool)
    ensures
        r == spec_is_number(c),
{
    '0' <= c && c <= '9'
}

/// Whether `c` may continue an identifier.
pub fn is_alpha_numeric(c: char) -> (r: bool)
    ensures
        r == spec_is_alpha_numeric(c),
{
    is_number(c) || is_alpha(c)
}

} // verus!
