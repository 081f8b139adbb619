//! The character classes and string operations of std that the lexer relies on.
use vstd::prelude::*;

verus! {

/// The Unicode White_Space property, as listed in the Unicode Character
/// Database (PropList.txt).
pub open spec fn white_space(c: char) -> bool {
    let u = c as u32;
    ||| 0x09 <= u <= 0x0d
    ||| u == 0x20
    ||| u == 0x85
    ||| u == 0xa0
    ||| u == 0x1680
    ||| 0x2000 <= u <= 0x200a
    ||| u == 0x2028
    ||| u == 0x2029
    ||| u == 0x202f
    ||| u == 0x205f
    ||| u == 0x3000
}

/// Whether `c` lies in one of Unicode's numeric general categories (Nd, Nl, No).
pub uninterp spec fn number_category(c: char) -> bool;

/// Whether `c` has Unicode's Alphabetic property.
pub uninterp spec fn alphabetic_property(c: char) -> bool;

/// What `char::is_numeric` answers. In ASCII the numeric categories hold the
/// digits `0` to `9` alone, and no whitespace character lies in them.
pub open spec fn numeric(c: char) -> bool {
    if (c as u32) < 0x80 {
        '0' <= c <= '9'
    } else {
        !white_space(c) && number_category(c)
    }
}

/// What `char::is_alphabetic` answers. In ASCII the Alphabetic property holds
/// the letters `a` to `z` and `A` to `Z` alone, and no whitespace character has it.
pub open spec fn alphabetic(c: char) -> bool {
    if (c as u32) < 0x80 {
        'a' <= c <= 'z' || 'A' <= c <= 'Z'
    } else {
        !white_space(c) && alphabetic_property(c)
    }
}

/// The lower-case mapping of a string, character by character, as Unicode
/// defines it.
pub uninterp spec fn lowercase(s: Seq<char>) -> Seq<char>;

/// Whether `c` is whitespace: the White_Space characters, as `char::is_whitespace`
/// answers.
pub fn is_whitespace(c: char) -> (r: bool)
    ensures
        r == white_space(c),
{
    let u = c as u32;
    (0x09 <= u && u <= 0x0d) || u == 0x20 || u == 0x85 || u == 0xa0 || u == 0x1680 || (0x2000
        <= u && u <= 0x200a) || u == 0x2028 || u == 0x2029 || u == 0x202f || u == 0x205f || u
        == 0x3000
}

/// Relies on `char::is_numeric`: the numeric categories Nd, Nl and No.
#[verifier::external_body]
pub(crate) fn is_numeric(c: char) -> (r: bool)
    ensures
        r == (if (c as u32) < 0x80 {
            '0' <= c <= '9'
        } else {
            !white_space(c) && number_category(c)
        }),
{
    c.is_numeric()
}

/// Relies on `char::is_alphabetic`: the Alphabetic property.
#[verifier::external_body]
pub(crate) fn is_alphabetic(c: char) -> (r: bool)
    ensures
        r == (if (c as u32) < 0x80 {
            'a' <= c <= 'z' || 'A' <= c <= 'Z'
        } else {
            !white_space(c) && alphabetic_property(c)
        }),
{
    c.is_alphabetic()
}

/// Relies on `str::to_lowercase`: a new string, the lower-case mapping of `s`.
#[verifier::external_body]
pub(crate) fn to_lower(s: &str) -> (r: String)
    ensures
        r@ == lowercase(s@),
{
    s.to_lowercase()
}

/// Relies on `String::push`: appends `c` to the end of `s`.
#[verifier::external_body]
pub(crate) fn push_char(s: &mut String, c: char)
    ensures
        final(s)@ == old(s)@.push(c),
{
    s.push(c)
}

} // verus!
