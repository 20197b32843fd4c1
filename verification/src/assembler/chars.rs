//! Classes of characters, as the lexer tells them apart, and the making of
//! strings from characters.
//!
//! For an ASCII character every class is decided here. For any other
//! character the answer is that of the Unicode tables of the standard
//! library, which are too large to state: each is named by a function without
//! a body, and nothing more is claimed of it than that it is a function of
//! the character.
use vstd::prelude::*;

verus! {

/// What `char::is_whitespace` answers for `c`: whether Unicode gives it the
/// property `White_Space`.
pub uninterp spec fn unicode_whitespace(c: char) -> bool;

/// What `char::is_alphabetic` answers for `c`: whether Unicode gives it the
/// property `Alphabetic`.
pub uninterp spec fn unicode_alphabetic(c: char) -> bool;

/// What `char::is_numeric` answers for `c`: whether Unicode puts it in one of
/// the general categories for numbers.
pub uninterp spec fn unicode_numeric(c: char) -> bool;

/// `char::is_whitespace` looks `c` up in the Unicode tables: its answer
/// depends on `c` alone.
pub assume_specification[ char::is_whitespace ](c: char) -> (answer: bool)
    ensures
        answer == unicode_whitespace(c),
;

/// `char::is_alphabetic` looks `c` up in the Unicode tables: its answer
/// depends on `c` alone.
pub assume_specification[ char::is_alphabetic ](c: char) -> (answer: bool)
    ensures
        answer == unicode_alphabetic(c),
;

/// `char::is_numeric` looks `c` up in the Unicode tables: its answer depends
/// on `c` alone.
pub assume_specification[ char::is_numeric ](c: char) -> (answer: bool)
    ensures
        answer == unicode_numeric(c),
;

/// `String::from_iter` over the characters of a vector: the string holds those
/// characters, in their order, and no others.
#[verifier::external_body]
pub(crate) fn string_from_chars(chars: &Vec<char>) -> (text: String)
    ensures
        text@ == chars@,
{
    String::from_iter(chars.iter())
}

/// Whether `c` is an ASCII character.
pub open spec fn is_ascii(c: char) -> bool {
    c <= '\x7f'
}

/// White space: of ASCII the space and the control characters from tab to
/// carriage return, the line feed among them; beyond ASCII what Unicode calls
/// white space.
pub open spec fn spec_is_whitespace(c: char) -> bool {
    if is_ascii(c) {
        c == ' ' || ('\x09' <= c && c <= '\x0d')
    } else {
        unicode_whitespace(c)
    }
}

/// White space within a line: any white space but the line feed, which
/// ends the line.
pub open spec fn spec_is_blank(c: char) -> bool {
    spec_is_whitespace(c) && c != '\n'
}

/// Letters: of ASCII `a` to `z` and `A` to `Z`; beyond ASCII what Unicode
/// calls alphabetic.
pub open spec fn spec_is_alphabetic(c: char) -> bool {
    if is_ascii(c) {
        ('a' <= c && c <= 'z') || ('A' <= c && c <= 'Z')
    } else {
        unicode_alphabetic(c)
    }
}

/// Digits and other numbers: of ASCII `0` to `9`; beyond ASCII what Unicode
/// calls numeric.
pub open spec fn spec_is_numeric(c: char) -> bool {
    if is_ascii(c) {
        '0' <= c && c <= '9'
    } else {
        unicode_numeric(c)
    }
}

/// Letters and numbers.
pub open spec fn spec_is_alphanumeric(c: char) -> bool {
    spec_is_alphabetic(c) || spec_is_numeric(c)
}

/// The characters of a symbol: letters, numbers and the underscore.
pub open spec fn spec_is_symbol_char(c: char) -> bool {
    spec_is_alphanumeric(c) || c == '_'
}

/// Whether `c` is white space.
pub fn is_whitespace_char(c: char) -> (answer: bool)
    ensures
        answer == spec_is_whitespace(c),
{
    if c <= '\x7f' {
        c == ' ' || ('\x09' <= c && c <= '\x0d')
    } else {
        c.is_whitespace()
    }
}

/// Whether `c` is white space other than the line feed.
pub fn is_blank_char(c: char) -> (answer: bool)
    ensures
        answer == spec_is_blank(c),
{
    c != '\n' && is_whitespace_char(c)
}

/// Whether `c` is a letter.
pub fn is_alphabetic_char(c: char) -> (answer: bool)
    ensures
        answer == spec_is_alphabetic(c),
{
    if c <= '\x7f' {
        ('a' <= c && c <= 'z') || ('A' <= c && c <= 'Z')
    } else {
        c.is_alphabetic()
    }
}

/// Whether `c` is a digit or another number.
pub fn is_numeric_char(c: char) -> (answer: bool)
    ensures
        answer == spec_is_numeric(c),
{
    if c <= '\x7f' {
        '0' <= c && c <= '9'
    } else {
        c.is_numeric()
    }
}

/// Whether `c` is a letter or a number.
pub fn is_alphanumeric_char(c: char) -> (answer: bool)
    ensures
        answer == spec_is_alphanumeric(c),
{
    is_alphabetic_char(c) || is_numeric_char(c)
}

/// Whether `c` may stand in a symbol.
pub fn is_symbol_char(c: char) -> (answer: bool)
    ensures
        answer == spec_is_symbol_char(c),
{
    is_alphanumeric_char(c) || c == '_'
}

/// Whether `c` is anything but a line feed: comments run over such.
pub fn is_not_newline(c: char) -> (answer: bool)
    ensures
        answer == (c != '\n'),
{
    c != '\n'
}

/// Whether `c` is anything but a double quote: string literals run over such.
pub fn is_not_quote(c: char) -> (answer: bool)
    ensures
        answer == (c != '"'),
{
    c != '"'
}

/// The characters of `text`, in their order.
pub fn chars_of(text: &str) -> (chars: Vec<char>)
    ensures
        chars@ == text@,
{
    let mut chars: Vec<char> = Vec::new();
    for c in it: text.chars()
        invariant
            it.seq() == text@,
            chars@ == it.seq().take(it.index() as int),
    {
        chars.push(c);
    }
    chars
}

} // verus!
