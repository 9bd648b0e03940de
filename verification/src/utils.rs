//! Character classification used by the lexer.

use vstd::prelude::*;

verus! {

/// A space, tab or newline: the characters accumulated into whitespace tokens.
pub open spec fn is_space_char(c: char) -> bool {
    c == ' ' || c == '\t' || c == '\n'
}

/// A decimal digit.
pub open spec fn is_digit_char(c: char) -> bool {
    '0' <= c && c <= '9'
}

/// A letter or underscore: the characters that may begin an identifier.
pub open spec fn is_alpha_char(c: char) -> bool {
    ('a' <= c && c <= 'z') || ('A' <= c && c <= 'Z') || c == '_'
}

/// A letter, underscore or digit: the characters that may continue an identifier.
pub open spec fn is_alnum_char(c: char) -> bool {
    is_alpha_char(c) || is_digit_char(c)
}

pub fn is_space(ch: char) -> (r: bool)
    ensures
        r == is_space_char(ch),
{
    match ch {
        ' ' | '\t' | '\n' => true,
        _ => false,
    }
}

pub fn is_digital(ch: char) -> (r: bool)
    ensures
        r == is_digit_char(ch),
{
    match ch {
        '0'..='9' => true,
        _ => false,
    }
}

pub fn is_alpha(ch: char) -> (r: bool)
    ensures
        r == is_alpha_char(ch),
{
    match ch {
        'a'..='z' => true,
        'A'..='Z' => true,
        '_' => true,
        _ => false,
    }
}

pub fn is_alphadigital(ch: char) -> (r: bool)
    ensures
        r == is_alnum_char(ch),
{
    is_alpha(ch) || is_digital(ch)
}

} // verus!
