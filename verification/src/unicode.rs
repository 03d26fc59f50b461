//! Unicode character properties that the span parser and the reference-id
//! normalizer read. Their full tables live in std; each is called through a
//! small trusted wrapper whose contract names the result and states what
//! std documents for ASCII.

use vstd::prelude::*;
use crate::text::{ascii_lower, is_ascii_alpha, is_ascii_alnum};

verus! {

/// What `char::is_alphabetic` returns for `c` (the Unicode `Alphabetic`
/// property).
pub uninterp spec fn uni_alphabetic(c: char) -> bool;

/// What `char::is_alphanumeric` returns for `c` (`Alphabetic` or `Numeric`).
pub uninterp spec fn uni_alphanumeric(c: char) -> bool;

/// What `char::to_lowercase` yields for `c`, as a sequence of chars.
pub uninterp spec fn uni_lowercase(c: char) -> Seq<char>;

/// Calls `char::is_alphabetic`. Claimed: the result is the char's
/// `Alphabetic` property, which for an ASCII char holds exactly for the
/// letters `A-Z`/`a-z` (std documents this).
#[verifier::external_body]
pub fn is_alphabetic(c: char) -> (r: bool)
    ensures
        r == uni_alphabetic(c),
        (c as u32) < 128 ==> (r <==> is_ascii_alpha(c)),
{
    c.is_alphabetic()
}

/// Calls `char::is_alphanumeric`. Claimed: the result is the char's
/// `Alphabetic`-or-`Numeric` property, which for an ASCII char holds exactly
/// for letters and digits.
#[verifier::external_body]
pub fn is_alphanumeric(c: char) -> (r: bool)
    ensures
        r == uni_alphanumeric(c),
        (c as u32) < 128 ==> (r <==> is_ascii_alnum(c)),
{
    c.is_alphanumeric()
}

/// Calls `char::to_lowercase` and collects its chars. Claimed: the result is
/// the Unicode lowercase mapping of `c`; for an ASCII char it is the single
/// char with `A-Z` mapped to `a-z` (std documents this).
#[verifier::external_body]
pub fn to_lowercase(c: char) -> (r: Vec<char>)
    ensures
        r@ == uni_lowercase(c),
        (c as u32) < 128 ==> r@ == seq![ascii_lower(c)],
{
    c.to_lowercase().collect()
}

/// A Unicode scalar value: below `0x110000` and outside the surrogates.
pub open spec fn is_scalar(u: u32) -> bool {
    u < 0x110000 && !(0xD800 <= u && u < 0xE000)
}

/// Calls `char::from_u32`. Claimed (std's documented contract): `Some` exactly
/// for a Unicode scalar value, holding the char with that code point.
#[verifier::external_body]
pub fn char_from_u32(u: u32) -> (r: Option<char>)
    ensures
        r.is_some() <==> is_scalar(u),
        r matches Some(c) ==> c as u32 == u,
{
    char::from_u32(u)
}

} // verus!
