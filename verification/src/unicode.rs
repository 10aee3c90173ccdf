//! Character properties supplied by the standard library and the
//! `unicode-width` crate. Each function here is a trusted boundary: its
//! contract names the outside result, with the short facts the documentation
//! gives, rather than restating Unicode tables.

use unicode_width::UnicodeWidthChar;
use vstd::prelude::*;

verus! {

/// Unicode `White_Space` property, which `char::is_whitespace` reports:
/// the 25 code points that `PropList.txt` lists.
pub open spec fn whitespace(c: char) -> bool {
    let u = c as u32;
    ||| 0x09 <= u <= 0x0d
    ||| u == 0x20
    ||| u == 0x85
    ||| u == 0xa0
    ||| u == 0x1680
    ||| 0x2000 <= u <= 0x200a
    ||| u == 0x2028
    ||| u == 0x2029
    ||| u == 0x202f
    ||| u == 0x205f
    ||| u == 0x3000
}

/// The ASCII lowercase of `c`: `A` to `Z` shifted, any other character kept.
pub open spec fn ascii_lower(c: char) -> char {
    if 'A' <= c && c <= 'Z' {
        ((c as u32) + 32) as char
    } else {
        c
    }
}

/// Unicode alphabetic-or-numeric property, as `char::is_alphanumeric` reports it.
pub uninterp spec fn alphanumeric(c: char) -> bool;

/// Unicode `Uppercase` property, as `char::is_uppercase` reports it.
pub uninterp spec fn uppercase(c: char) -> bool;

/// Unicode general category `Cc`, which `char::is_control` reports: the C0
/// controls U+0000 to U+001F, DELETE, and the C1 controls U+0080 to U+009F.
pub open spec fn control(c: char) -> bool {
    (c as u32) < 0x20 || (0x7f <= (c as u32) && (c as u32) <= 0x9f)
}

/// The full lowercase mapping of one character, as `char::to_lowercase` yields it.
pub uninterp spec fn lowercase(c: char) -> Seq<char>;

/// The terminal column width of one character, as
/// `unicode_width::UnicodeWidthChar::width` reports it (`None` for controls).
pub uninterp spec fn terminal_width(c: char) -> Option<usize>;

/// Calls `char::is_whitespace`, whose documentation defines the answer as
/// the `White_Space` property.
#[verifier::external_body]
pub(crate) fn is_whitespace(c: char) -> (b: bool)
    ensures
        b == whitespace(c),
{
    c.is_whitespace()
}

/// Calls `char::is_alphanumeric`; the contract only names its result.
#[verifier::external_body]
pub(crate) fn is_alphanumeric(c: char) -> (b: bool)
    ensures
        b == alphanumeric(c),
{
    c.is_alphanumeric()
}

/// Calls `char::is_uppercase`; the contract only names its result.
#[verifier::external_body]
pub(crate) fn is_uppercase(c: char) -> (b: bool)
    ensures
        b == uppercase(c),
{
    c.is_uppercase()
}

/// Calls `char::is_control`; its documentation defines the answer as
/// membership in the general category `Cc`.
#[verifier::external_body]
pub(crate) fn is_control(c: char) -> (b: bool)
    ensures
        b == control(c),
{
    c.is_control()
}

/// Calls `char::to_lowercase` and collects the mapped characters in order;
/// its documentation promises one or more characters, the one-to-one
/// mapping of `UnicodeData.txt` where there is one (which, for ASCII, maps
/// `A` to `Z` onto `a` to `z`), and the character itself where there is none.
#[verifier::external_body]
pub(crate) fn to_lowercase(c: char) -> (v: Vec<char>)
    ensures
        v@ == lowercase(c),
        v@.len() >= 1,
        (c as u32) < 0x80 ==> v@ == seq![ascii_lower(c)],
{
    c.to_lowercase().collect()
}

/// Calls `UnicodeWidthChar::width` from `unicode-width`, which answers
/// without its tables below U+00A0: no width for the controls, one column
/// for printable ASCII.
#[verifier::external_body]
pub(crate) fn width(c: char) -> (w: Option<usize>)
    ensures
        w == terminal_width(c),
        (c as u32) < 0x20 ==> w is None,
        0x20 <= (c as u32) < 0x7f ==> w == Some(1usize),
        0x7f <= (c as u32) < 0xa0 ==> w is None,
{
    UnicodeWidthChar::width(c)
}

/// The lowercase form `str::to_lowercase` gives a whole string.
pub uninterp spec fn lowercase_text(s: Seq<char>) -> Seq<char>;

/// Lowercases a whole string through `str::to_lowercase`; an ASCII string
/// is lowercased character by character.
#[verifier::external_body]
pub(crate) fn to_lowercase_text(s: &str) -> (t: String)
    ensures
        t@ == lowercase_text(s@),
        (forall|i: int| 0 <= i < s@.len() ==> (s@[i] as u32) < 0x80) ==> t@ == s@.map_values(
            |c: char| ascii_lower(c),
        ),
{
    s.to_lowercase()
}

} // verus!
