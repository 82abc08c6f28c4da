//! Character classes that drive the text minifier: identifier characters,
//! whitespace, digits, and bracket characters.

use vstd::prelude::*;

verus! {

/// ASCII letters, as used both by the name generator and by the
/// identifier-character class.
pub open spec fn is_ascii_letter(c: char) -> bool {
    ('A' <= c && c <= 'Z') || ('a' <= c && c <= 'z')
}

/// ASCII decimal digits.
pub open spec fn is_digit_char(c: char) -> bool {
    '0' <= c && c <= '9'
}

/// ASCII identifier characters: letters, digits and underscore.
pub open spec fn is_word_char(c: char) -> bool {
    is_ascii_letter(c) || is_digit_char(c) || c == '_'
}

/// Whether `c` is an ASCII decimal digit.
pub fn is_numeric(c: char) -> (r: bool)
    ensures
        r == is_digit_char(c),
{
    '0' <= c && c <= '9'
}

/// The Unicode `White_Space` characters: the ASCII whitespace characters
/// together with the next line, no-break space, Ogham space mark, the
/// typographic spaces, the line and paragraph separators, the narrow and
/// medium mathematical spaces, and the ideographic space.
pub open spec fn is_space_char(c: char) -> bool {
    c == ' ' || c == '\t' || c == '\n' || c == '\r' || c == '\u{000B}' || c == '\u{000C}'
        || c == '\u{0085}' || c == '\u{00A0}' || c == '\u{1680}' || ('\u{2000}' <= c && c
        <= '\u{200A}') || c == '\u{2028}' || c == '\u{2029}' || c == '\u{202F}' || c == '\u{205F}'
        || c == '\u{3000}'
}

/// Whether `c` has the Unicode `White_Space` property.
pub fn check_space(c: char) -> (r: bool)
    ensures
        r == is_space_char(c),
{
    c == ' ' || c == '\t' || c == '\n' || c == '\r' || c == '\u{000B}' || c == '\u{000C}'
        || c == '\u{0085}' || c == '\u{00A0}' || c == '\u{1680}' || ('\u{2000}' <= c && c
        <= '\u{200A}') || c == '\u{2028}' || c == '\u{2029}' || c == '\u{202F}' || c == '\u{205F}'
        || c == '\u{3000}'
}

/// What `unicode_ident::is_xid_continue` returns on characters outside ASCII.
pub uninterp spec fn xid_continue_nonascii(c: char) -> bool;

/// Identifier-continuation characters: the `XID_Continue` class. On ASCII this
/// is exactly letters, digits and underscore; beyond ASCII the class is named
/// by [`xid_continue_nonascii`] and never contains a whitespace character.
pub open spec fn is_ident_char(c: char) -> bool {
    if (c as u32) < 128 {
        is_word_char(c)
    } else {
        !is_space_char(c) && xid_continue_nonascii(c)
    }
}

/// Trusted: relies on `unicode_ident::is_xid_continue`. Its source answers for
/// ASCII input from a bitset that holds exactly the letters, the digits and
/// the underscore; beyond ASCII it evaluates the Unicode `XID_Continue`
/// property, which by UAX #31 contains no `White_Space` character.
pub assume_specification [ unicode_ident::is_xid_continue ] (ch: char) -> (r: bool)
    ensures
        r == is_ident_char(ch),
        (ch as u32) >= 128 && !is_space_char(ch) ==> r == xid_continue_nonascii(ch),
;

/// Closing bracket characters after which a trailing comma is dropped.
pub open spec fn is_closer(c: char) -> bool {
    c == '}' || c == ')' || c == ']'
}

/// Whether `c` is a closing brace, parenthesis or bracket.
pub fn check_closer(c: char) -> (r: bool)
    ensures
        r == is_closer(c),
{
    c == '}' || c == ')' || c == ']'
}

/// Trusted: relies on `String: FromIterator<char>`; collecting characters
/// yields the string of exactly those characters in order.
#[verifier::external_body]
pub fn string_from_chars(chars: &Vec<char>) -> (s: String)
    ensures
        s@ == chars@,
{
    chars.iter().collect()
}

} // verus!
