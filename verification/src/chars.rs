use vstd::prelude::*;

verus! {

/// Whether `char::is_whitespace` accepts a character above the ASCII range.
pub uninterp spec fn is_space_exotic(c: char) -> bool;

/// Whether `char::is_alphabetic` accepts a character above the ASCII range.
pub uninterp spec fn is_alpha_exotic(c: char) -> bool;

/// The characters `char::is_whitespace` accepts: on ASCII exactly space,
/// horizontal tab, line feed, vertical tab, form feed and carriage return.
pub open spec fn is_space_of(c: char) -> bool {
    if (c as u32) < 128 {
        c == ' ' || c == '\t' || c == '\n' || c == '\u{b}' || c == '\u{c}' || c == '\r'
    } else {
        is_space_exotic(c)
    }
}

/// The characters `char::is_alphabetic` accepts: on ASCII exactly the letters.
pub open spec fn is_alpha_of(c: char) -> bool {
    if (c as u32) < 128 {
        ('a' as u32 <= c as u32 && c as u32 <= 'z' as u32) || ('A' as u32 <= c as u32 && c as u32
            <= 'Z' as u32)
    } else {
        is_alpha_exotic(c)
    }
}

/// Relies on char::is_whitespace: a fixed classification of characters whose
/// ASCII part is documented exactly.
#[verifier::external_body]
pub fn is_space_char(c: char) -> (r: bool)
    ensures
        r == is_space_of(c),
        (c as u32) >= 128 ==> r == is_space_exotic(c),
{
    c.is_whitespace()
}

/// Relies on char::is_alphabetic: a fixed classification of characters whose
/// ASCII part is documented exactly.
#[verifier::external_body]
pub fn is_alpha_char(c: char) -> (r: bool)
    ensures
        r == is_alpha_of(c),
        (c as u32) >= 128 ==> r == is_alpha_exotic(c),
{
    c.is_alphabetic()
}

/// The ASCII digits, as `char::is_ascii_digit` accepts them.
pub open spec fn is_digit_of(c: char) -> bool {
    '0' as u32 <= c as u32 && c as u32 <= '9' as u32
}

pub fn is_digit_char(c: char) -> (r: bool)
    ensures
        r == is_digit_of(c),
{
    '0' as u32 <= c as u32 && c as u32 <= '9' as u32
}

} // verus!
