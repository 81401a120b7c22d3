//! Unicode character properties and case mappings from the standard library.

use vstd::prelude::*;

verus! {

/// The Unicode `White_Space` property: tab through carriage return, space,
/// next line, no-break space, ogham space mark, the spaces U+2000 to
/// U+200A, the line and paragraph separators, narrow no-break space,
/// medium mathematical space and ideographic space.
pub open spec fn char_is_whitespace(c: char) -> bool {
    let v = c as u32;
    (0x09 <= v <= 0x0D) || v == 0x20 || v == 0x85 || v == 0xA0 || v == 0x1680 || (0x2000 <= v <= 0x200A) || v
        == 0x2028 || v == 0x2029 || v == 0x202F || v == 0x205F || v == 0x3000
}

/// The Unicode `Alphabetic` property or the `Nd`, `Nl`, `No` categories.
pub uninterp spec fn char_is_alphanumeric(c: char) -> bool;

/// The Unicode `Alphabetic` property.
pub uninterp spec fn char_is_alphabetic(c: char) -> bool;

/// The Unicode `Lowercase` property.
pub uninterp spec fn char_is_lowercase(c: char) -> bool;

/// The Unicode `Uppercase` property.
pub uninterp spec fn char_is_uppercase(c: char) -> bool;

/// The full Unicode lowercase mapping of a scalar.
pub uninterp spec fn char_lowercase(c: char) -> Seq<char>;

/// The full Unicode uppercase mapping of a scalar.
pub uninterp spec fn char_uppercase(c: char) -> Seq<char>;

/// `char::is_whitespace`.
#[verifier::external_body]
pub(crate) fn is_whitespace(c: char) -> (result: bool)
    ensures
        result == char_is_whitespace(c),
{
    c.is_whitespace()
}

/// `char::is_alphanumeric`.
#[verifier::external_body]
pub(crate) fn is_alphanumeric(c: char) -> (result: bool)
    ensures
        result == char_is_alphanumeric(c),
{
    c.is_alphanumeric()
}

/// `char::is_alphabetic`.
#[verifier::external_body]
pub(crate) fn is_alphabetic(c: char) -> (result: bool)
    ensures
        result == char_is_alphabetic(c),
{
    c.is_alphabetic()
}

/// `char::is_lowercase`.
#[verifier::external_body]
pub(crate) fn is_lowercase(c: char) -> (result: bool)
    ensures
        result == char_is_lowercase(c),
{
    c.is_lowercase()
}

/// `char::is_uppercase`.
#[verifier::external_body]
pub(crate) fn is_uppercase(c: char) -> (result: bool)
    ensures
        result == char_is_uppercase(c),
{
    c.is_uppercase()
}

/// `char::to_lowercase`, collected.
#[verifier::external_body]
pub(crate) fn to_lowercase(c: char) -> (mapped: Vec<char>)
    ensures
        mapped@ == char_lowercase(c),
{
    c.to_lowercase().collect()
}

/// `char::to_uppercase`, collected.
#[verifier::external_body]
pub(crate) fn to_uppercase(c: char) -> (mapped: Vec<char>)
    ensures
        mapped@ == char_uppercase(c),
{
    c.to_uppercase().collect()
}

} // verus!
