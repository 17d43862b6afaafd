//! The classes of characters that the scanner tells apart, and the comparison
//! of texts character by character.
use vstd::prelude::*;
use vstd::string::StrSliceExecFns;

verus! {

/// Whitespace separates tokens and is never part of one: space, tab, line
/// feed and carriage return.
pub open spec fn spec_is_whitespace(c: char) -> bool {
    c == ' ' || c == '\t' || c == '\n' || c == '\r'
}

/// The decimal digits `0` to `9`.
pub open spec fn spec_is_digit(c: char) -> bool {
    '0' <= c && c <= '9'
}

/// The number that a decimal digit stands for.
pub open spec fn spec_digit_value(c: char) -> nat
    recommends
        spec_is_digit(c),
{
    (c as u32 - '0' as u32) as nat
}

/// Whether Unicode gives `c` the Alphabetic property, as `char::is_alphabetic`
/// reports it.
pub uninterp spec fn unicode_alphabetic(c: char) -> bool;

/// A character that may stand in an identifier: it is alphabetic, and it is
/// not whitespace.
pub open spec fn is_identifier_char(c: char) -> bool {
    unicode_alphabetic(c) && !spec_is_whitespace(c)
}

/// Runs of characters of one class are what the scanner reads in one go.
pub enum CharClass {
    Whitespace,
    Letter,
    Digit,
}

impl CharClass {
    /// Whether `c` belongs to this class.
    pub open spec fn holds(self, c: char) -> bool {
        match self {
            CharClass::Whitespace => spec_is_whitespace(c),
            CharClass::Letter => is_identifier_char(c),
            CharClass::Digit => spec_is_digit(c),
        }
    }
}

/// Whether `c` is whitespace.
#[verifier::when_used_as_spec(spec_is_whitespace)]
pub fn is_whitespace(c: char) -> (b: bool)
    ensures
        b == spec_is_whitespace(c),
{
    c == ' ' || c == '\t' || c == '\n' || c == '\r'
}

/// Whether `c` is a decimal digit.
#[verifier::when_used_as_spec(spec_is_digit)]
pub fn is_digit(c: char) -> (b: bool)
    ensures
        b == spec_is_digit(c),
{
    '0' <= c && c <= '9'
}

/// The number that the decimal digit `c` stands for.
pub fn digit_value(c: char) -> (value: u32)
    requires
        is_digit(c),
    ensures
        value == spec_digit_value(c),
        value <= 9,
{
    c as u32 - '0' as u32
}

/// `char::is_alphabetic` of std: the result is the Alphabetic property of
/// Unicode, which this library does not spell out. Nothing else is claimed.
#[verifier::external_body]
pub(crate) fn is_alphabetic(c: char) -> (b: bool)
    ensures
        b == unicode_alphabetic(c),
{
    c.is_alphabetic()
}

/// Whether `c` may stand in an identifier, `alphabetic` being what Unicode
/// says of it.
pub fn continues_identifier(c: char, alphabetic: bool) -> (b: bool)
    ensures
        b == (alphabetic && !is_whitespace(c)),
{
    alphabetic && !is_whitespace(c)
}

/// Whether two strings hold the same characters.
pub fn same_text(a: &str, b: &str) -> (same: bool)
    ensures
        same == (a@ == b@),
{
    let length: usize = a.unicode_len();
    if length != b.unicode_len() {
        return false;
    }
    let mut i: usize = 0;
    while i < length
        invariant
            i <= length,
            length == a@.len(),
            length == b@.len(),
            forall|k: int| 0 <= k < i ==> a@[k] == b@[k],
        decreases length - i,
    {
        if a.get_char(i) != b.get_char(i) {
            return false;
        }
        i += 1;
    }
    assert(a@ =~= b@);
    true
}

} // verus!
