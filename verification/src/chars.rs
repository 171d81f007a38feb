//! Character classes and the few `String` operations the library takes from std.
use vstd::prelude::*;

verus! {

/// The `Alphabetic` and numeric categories of Unicode, outside ASCII.
pub uninterp spec fn unicode_alphanumeric(c: char) -> bool;

/// The `Uppercase` property of Unicode, outside ASCII.
pub uninterp spec fn unicode_uppercase(c: char) -> bool;

/// The `Lowercase` property of Unicode, outside ASCII.
pub uninterp spec fn unicode_lowercase(c: char) -> bool;

/// The `White_Space` property of Unicode, outside ASCII.
pub uninterp spec fn unicode_whitespace(c: char) -> bool;

pub open spec fn is_ascii_char(c: char) -> bool {
    (c as u32) < 0x80
}

/// A letter or a digit.
pub open spec fn alnum_char(c: char) -> bool {
    if is_ascii_char(c) {
        ('a' <= c && c <= 'z') || ('A' <= c && c <= 'Z') || ('0' <= c && c <= '9')
    } else {
        unicode_alphanumeric(c)
    }
}

pub open spec fn upper_char(c: char) -> bool {
    if is_ascii_char(c) {
        'A' <= c && c <= 'Z'
    } else {
        unicode_uppercase(c)
    }
}

pub open spec fn lower_char(c: char) -> bool {
    if is_ascii_char(c) {
        'a' <= c && c <= 'z'
    } else {
        unicode_lowercase(c)
    }
}

pub open spec fn space_char(c: char) -> bool {
    if is_ascii_char(c) {
        c == ' ' || ('\t' <= c && c <= '\r')
    } else {
        unicode_whitespace(c)
    }
}

/// A character that may stand inside an identifier.
pub open spec fn word_char(c: char) -> bool {
    alnum_char(c) || c == '_'
}

/// `char::is_alphanumeric`: on ASCII the letters and the digits, elsewhere what the
/// Unicode tables of std say.
pub assume_specification[ char::is_alphanumeric ](c: char) -> (b: bool)
    ensures
        b == (if is_ascii_char(c) {
            alnum_char(c)
        } else {
            unicode_alphanumeric(c)
        }),
;

/// `char::is_uppercase`: on ASCII `A` to `Z`, elsewhere what the Unicode tables of std say.
pub assume_specification[ char::is_uppercase ](c: char) -> (b: bool)
    ensures
        b == (if is_ascii_char(c) {
            upper_char(c)
        } else {
            unicode_uppercase(c)
        }),
;

/// `char::is_lowercase`: on ASCII `a` to `z`, elsewhere what the Unicode tables of std say.
pub assume_specification[ char::is_lowercase ](c: char) -> (b: bool)
    ensures
        b == (if is_ascii_char(c) {
            lower_char(c)
        } else {
            unicode_lowercase(c)
        }),
;

/// `char::is_whitespace`: on ASCII the space and U+0009 to U+000D, elsewhere what the
/// Unicode tables of std say.
pub assume_specification[ char::is_whitespace ](c: char) -> (b: bool)
    ensures
        b == (if is_ascii_char(c) {
            space_char(c)
        } else {
            unicode_whitespace(c)
        }),
;

/// `String::push` appends the character to the end of the string.
pub assume_specification[ String::push ](s: &mut String, c: char)
    ensures
        final(s)@ == old(s)@.push(c),
;

/// Whether `c` may stand inside an identifier: a letter, a digit or `_`.
pub fn is_id_char(c: char) -> (b: bool)
    ensures
        b == word_char(c),
{
    c.is_alphanumeric() || c == '_'
}

} // verus!
