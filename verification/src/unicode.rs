//! The Unicode tables of the standard library that the library relies on,
//! named rather than restated: lowercasing and the alphanumeric class.
use vstd::prelude::*;

verus! {

/// What `str::to_lowercase` gives for a string: the Unicode `Lowercase`
/// mapping of its characters, locale-independent, where a capital sigma
/// becomes a final sigma or not by the characters around it; a function of
/// the whole string alone.
pub uninterp spec fn lowercase(s: Seq<char>) -> Seq<char>;

/// What `str::to_uppercase` gives for a string: the Unicode `Uppercase`
/// mapping of its characters (one character may become several),
/// locale-independent; a function of the whole string alone.
pub uninterp spec fn uppercase(s: Seq<char>) -> Seq<char>;

/// Whether `char::is_alphanumeric` holds of a character: Unicode `Alphabetic`
/// or `Numeric`, a function of the character alone.
pub uninterp spec fn alphanumeric(c: char) -> bool;

/// `str::to_lowercase` of std. The contract names its result `lowercase(s@)`;
/// the Unicode case tables themselves are not restated.
#[verifier::external_body]
pub(crate) fn to_lowercase(s: &str) -> (r: String)
    ensures
        r@ == lowercase(s@),
{
    s.to_lowercase()
}

/// `str::to_uppercase` of std. The contract names its result `uppercase(s@)`;
/// the Unicode case tables themselves are not restated.
#[verifier::external_body]
pub(crate) fn to_uppercase(s: &str) -> (r: String)
    ensures
        r@ == uppercase(s@),
{
    s.to_uppercase()
}

/// `char::is_alphanumeric` of std. The contract names its result
/// `alphanumeric(c)`; the Unicode property tables are not restated.
#[verifier::external_body]
pub(crate) fn is_alphanumeric(c: char) -> (r: bool)
    ensures
        r == alphanumeric(c),
{
    c.is_alphanumeric()
}

} // verus!
