//! Character classes of the scanner.
//!
//! On ASCII every class is defined here in full. Beyond ASCII the classes
//! follow Unicode, whose tables are the standard library's: there the
//! definitions refer to them by name.

use vstd::prelude::*;

verus! {

/// Whether `char::is_whitespace` holds of `c`, a property of the Unicode
/// character database.
pub uninterp spec fn unicode_whitespace(c: char) -> bool;

/// Whether `char::is_alphanumeric` holds of `c`, a property of the Unicode
/// character database.
pub uninterp spec fn unicode_alphanumeric(c: char) -> bool;

/// The characters of `str::to_lowercase` applied to a string with the
/// characters `s`.
pub uninterp spec fn unicode_lowercase(s: Seq<char>) -> Seq<char>;

/// Calls `char::is_whitespace`. Nothing is claimed of the answer but that
/// it is the Unicode property of that name.
#[verifier::external_body]
fn has_unicode_whitespace(c: char) -> (b: bool)
    ensures
        b == unicode_whitespace(c),
{
    c.is_whitespace()
}

/// Calls `char::is_alphanumeric`. Nothing is claimed of the answer but that
/// it is the Unicode property of that name.
#[verifier::external_body]
fn has_unicode_alphanumeric(c: char) -> (b: bool)
    ensures
        b == unicode_alphanumeric(c),
{
    c.is_alphanumeric()
}

/// Calls `str::to_lowercase`. Nothing is claimed of the result but that it
/// is the Unicode lower-casing of the argument.
#[verifier::external_body]
pub(crate) fn to_unicode_lowercase(s: &str) -> (out: String)
    ensures
        out@ == unicode_lowercase(s@),
{
    s.to_lowercase()
}

pub open spec fn is_ascii(c: char) -> bool {
    (c as u32) < 128
}

/// White space: on ASCII the space and the controls from tab to carriage
/// return, elsewhere what Unicode calls white space.
pub open spec fn is_space(c: char) -> bool {
    if is_ascii(c) {
        c == ' ' || ('\t' <= c && c <= '\r')
    } else {
        unicode_whitespace(c)
    }
}

/// The ten ASCII decimal digits.
pub open spec fn is_digit(c: char) -> bool {
    '0' <= c && c <= '9'
}

pub open spec fn is_ascii_letter(c: char) -> bool {
    ('a' <= c && c <= 'z') || ('A' <= c && c <= 'Z')
}

/// What an identifier is made of: a letter or a digit, of ASCII or of
/// Unicode, or the dollar sign.
pub open spec fn is_word(c: char) -> bool {
    if is_ascii(c) {
        is_ascii_letter(c) || is_digit(c) || c == '$'
    } else {
        unicode_alphanumeric(c)
    }
}

/// The five operator characters.
pub open spec fn is_operator(c: char) -> bool {
    c == '=' || c == '+' || c == '-' || c == '/' || c == '*'
}

/// The value of a hexadecimal digit of either case, if `c` is one.
pub open spec fn hex_value(c: char) -> Option<int> {
    if is_digit(c) {
        Some(c as int - '0' as int)
    } else if 'a' <= c && c <= 'f' {
        Some(c as int - 'a' as int + 10)
    } else if 'A' <= c && c <= 'F' {
        Some(c as int - 'A' as int + 10)
    } else {
        None
    }
}

/// The character whose code point is the byte `v`.
pub open spec fn byte_char(v: int) -> char {
    (v as u8) as char
}

pub open spec fn ascii_lower(c: char) -> char {
    if 'A' <= c && c <= 'Z' {
        ((c as u8 + 32) as u8) as char
    } else {
        c
    }
}

pub open spec fn all_ascii(s: Seq<char>) -> bool {
    forall|i: int| 0 <= i < s.len() ==> is_ascii(#[trigger] s[i])
}

/// The lower-cased form of a text. A text of ASCII alone has its capital
/// letters replaced and keeps its length; any other text is lower-cased
/// as Unicode says, which may change its length.
pub open spec fn lowercase(s: Seq<char>) -> Seq<char> {
    if all_ascii(s) {
        s.map_values(|c: char| ascii_lower(c))
    } else {
        unicode_lowercase(s)
    }
}

pub fn char_is_ascii(c: char) -> (b: bool)
    ensures
        b == is_ascii(c),
{
    (c as u32) < 128
}

pub fn char_is_space(c: char) -> (b: bool)
    ensures
        b == is_space(c),
{
    if char_is_ascii(c) {
        c == ' ' || ('\t' <= c && c <= '\r')
    } else {
        has_unicode_whitespace(c)
    }
}

pub fn char_is_digit(c: char) -> (b: bool)
    ensures
        b == is_digit(c),
{
    '0' <= c && c <= '9'
}

pub fn char_is_word(c: char) -> (b: bool)
    ensures
        b == is_word(c),
{
    if char_is_ascii(c) {
        ('a' <= c && c <= 'z') || ('A' <= c && c <= 'Z') || char_is_digit(c) || c == '$'
    } else {
        has_unicode_alphanumeric(c)
    }
}

pub fn char_is_operator(c: char) -> (b: bool)
    ensures
        b == is_operator(c),
{
    c == '=' || c == '+' || c == '-' || c == '/' || c == '*'
}

pub fn char_hex_value(c: char) -> (v: Option<u8>)
    ensures
        v is Some <==> hex_value(c) is Some,
        v is Some ==> v->0 as int == hex_value(c)->0 && v->0 < 16,
{
    if char_is_digit(c) {
        Some(c as u8 - '0' as u8)
    } else if 'a' <= c && c <= 'f' {
        Some(c as u8 - 'a' as u8 + 10)
    } else if 'A' <= c && c <= 'F' {
        Some(c as u8 - 'A' as u8 + 10)
    } else {
        None
    }
}

pub fn char_of_byte(v: u8) -> (c: char)
    ensures
        c == byte_char(v as int),
{
    v as char
}

pub fn char_ascii_lower(c: char) -> (l: char)
    ensures
        l == ascii_lower(c),
{
    if 'A' <= c && c <= 'Z' {
        (c as u8 + 32) as char
    } else {
        c
    }
}

/// The three classes of which the scanner takes maximal runs.
#[derive(Clone, Copy, Debug, PartialEq, Eq)]
pub enum CharClass {
    Space,
    Digit,
    Word,
}

impl CharClass {
    pub open spec fn contains(self, c: char) -> bool {
        match self {
            CharClass::Space => is_space(c),
            CharClass::Digit => is_digit(c),
            CharClass::Word => is_word(c),
        }
    }

    pub fn holds(self, c: char) -> (b: bool)
        ensures
            b == self.contains(c),
    {
        match self {
            CharClass::Space => char_is_space(c),
            CharClass::Digit => char_is_digit(c),
            CharClass::Word => char_is_word(c),
        }
    }
}

} // verus!
