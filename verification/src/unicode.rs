//! Unicode character classes and case mapping, taken from the standard library.
use vstd::prelude::*;

verus! {

/// Whether `char::is_alphanumeric` holds of `c` (Unicode `Alphabetic` or `Numeric`).
pub uninterp spec fn unicode_alphanumeric(c: char) -> bool;

/// What `str::to_lowercase` returns for `s` (Unicode `Lowercase` mapping).
pub uninterp spec fn unicode_lowercase(s: Seq<char>) -> Seq<char>;

/// `c` is an ASCII character.
pub open spec fn is_ascii_char(c: char) -> bool {
    (c as int) < 128
}

/// Every character of `s` is ASCII.
pub open spec fn is_ascii_text(s: Seq<char>) -> bool {
    forall|i: int| 0 <= i < s.len() ==> is_ascii_char(#[trigger] s[i])
}

/// `c` is an ASCII digit or letter.
pub open spec fn ascii_alnum(c: char) -> bool {
    let v = c as int;
    (48 <= v <= 57) || (65 <= v <= 90) || (97 <= v <= 122)
}

/// The lower-case form of an ASCII character (letters `A` to `Z` become `a` to `z`).
pub open spec fn ascii_lower_char(c: char) -> char {
    if 65 <= (c as int) <= 90 {
        ((c as int) + 32) as char
    } else {
        c
    }
}

/// `char::is_alphanumeric`. The contract claims that the result is the standard
/// library's answer for `c`, and that among ASCII characters exactly the digits and the
/// letters are alphanumeric; which other characters are is left to the Unicode tables.
#[verifier::external_body]
pub(crate) fn is_alphanumeric(c: char) -> (b: bool)
    ensures
        b == unicode_alphanumeric(c),
        is_ascii_char(c) ==> (b <==> ascii_alnum(c)),
{
    c.is_alphanumeric()
}

/// `str::to_lowercase`. The contract claims that the result is the standard library's
/// lowercase mapping of `s`, a function of `s` alone, and that on ASCII text it turns
/// `A` to `Z` into `a` to `z` and keeps every other character; the mapping of other
/// text is left to the Unicode tables.
#[verifier::external_body]
pub(crate) fn to_lowercase(s: &str) -> (r: String)
    ensures
        r@ == unicode_lowercase(s@),
        is_ascii_text(s@) ==> r@ == s@.map_values(|c: char| ascii_lower_char(c)),
{
    s.to_lowercase()
}

} // verus!
