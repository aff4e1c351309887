//! Unicode case and character classes, as std has them.
//!
//! On ASCII text the rules are written out below. Beyond ASCII they are those
//! of the Unicode tables in std, each under a name of its own.

use crate::text;
use vstd::prelude::*;
use vstd::utf8::*;

verus! {

/// What `str::to_lowercase` returns.
pub uninterp spec fn unicode_lowercase(s: Seq<char>) -> Seq<char>;

/// What `char::to_uppercase` yields.
pub uninterp spec fn unicode_uppercase(c: char) -> Seq<char>;

/// What `char::is_uppercase` returns.
pub uninterp spec fn unicode_is_uppercase(c: char) -> bool;

/// What `char::is_lowercase` returns.
pub uninterp spec fn unicode_is_lowercase(c: char) -> bool;

/// What `char::is_numeric` returns.
pub uninterp spec fn unicode_is_numeric(c: char) -> bool;

/// The text that `String::from_utf8_lossy` makes of bytes.
pub uninterp spec fn utf8_lossy(bytes: Seq<u8>) -> Seq<char>;

/// `s` in lower case.
pub open spec fn lowercase(s: Seq<char>) -> Seq<char> {
    if is_ascii_chars(s) {
        text::ascii_lowered(s)
    } else {
        unicode_lowercase(s)
    }
}

/// `c` in upper case, which may be more than one character.
pub open spec fn uppercase(c: char) -> Seq<char> {
    if c <= '\u{7f}' {
        seq![text::ascii_upper(c)]
    } else {
        unicode_uppercase(c)
    }
}

/// Whether `c` is a capital letter.
pub open spec fn is_upper(c: char) -> bool {
    if c <= '\u{7f}' {
        'A' <= c <= 'Z'
    } else {
        unicode_is_uppercase(c)
    }
}

/// Whether `c` is a small letter.
pub open spec fn is_lower(c: char) -> bool {
    if c <= '\u{7f}' {
        'a' <= c <= 'z'
    } else {
        unicode_is_lowercase(c)
    }
}

/// Whether `c` is a number character.
pub open spec fn is_numeral(c: char) -> bool {
    if c <= '\u{7f}' {
        '0' <= c <= '9'
    } else {
        unicode_is_numeric(c)
    }
}

/// The text that `bytes` encode, with what is no UTF-8 replaced.
pub open spec fn lossy(bytes: Seq<u8>) -> Seq<char> {
    if valid_utf8(bytes) {
        decode_utf8(bytes)
    } else {
        utf8_lossy(bytes)
    }
}

/// Calls `str::to_lowercase`: the lower case of the text, which for an ASCII
/// text is each of `A` to `Z` turned into `a` to `z`.
#[verifier::external_body]
pub(crate) fn to_lowercase(s: &str) -> (r: String)
    ensures
        r@ == unicode_lowercase(s@),
        is_ascii_chars(s@) ==> r@ == text::ascii_lowered(s@),
{
    s.to_lowercase()
}

/// Calls `char::to_uppercase` and collects the characters that it yields; for
/// an ASCII character it is the one character with `a` to `z` turned into `A`
/// to `Z`.
#[verifier::external_body]
pub(crate) fn to_uppercase(c: char) -> (r: String)
    ensures
        r@ == unicode_uppercase(c),
        c <= '\u{7f}' ==> r@ == seq![text::ascii_upper(c)],
{
    c.to_uppercase().collect()
}

/// `char::is_uppercase` of std: of the ASCII characters, `A` to `Z`.
pub assume_specification[ char::is_uppercase ](c: char) -> (r: bool)
    ensures
        r == unicode_is_uppercase(c),
        c <= '\u{7f}' ==> r == ('A' <= c <= 'Z'),
;

/// `char::is_lowercase` of std: of the ASCII characters, `a` to `z`.
pub assume_specification[ char::is_lowercase ](c: char) -> (r: bool)
    ensures
        r == unicode_is_lowercase(c),
        c <= '\u{7f}' ==> r == ('a' <= c <= 'z'),
;

/// `char::is_numeric` of std: of the ASCII characters, `0` to `9`.
pub assume_specification[ char::is_numeric ](c: char) -> (r: bool)
    ensures
        r == unicode_is_numeric(c),
        c <= '\u{7f}' ==> r == ('0' <= c <= '9'),
;

/// Calls `String::from_utf8_lossy`: bytes that are UTF-8 become the text that
/// they encode; in others, what is no UTF-8 is replaced.
#[verifier::external_body]
pub(crate) fn from_utf8_lossy(bytes: &[u8]) -> (r: String)
    ensures
        r@ == utf8_lossy(bytes@),
        valid_utf8(bytes@) ==> r@ == decode_utf8(bytes@),
{
    String::from_utf8_lossy(bytes).into_owned()
}

} // verus!
