//! Unicode character properties taken from the standard library.
use vstd::prelude::*;

use crate::text::lower;

verus! {

/// The Unicode `Uppercase` property of a character, as `char::is_uppercase` reports it.
pub uninterp spec fn unicode_is_uppercase(c: char) -> bool;

/// The Unicode numeric property (general categories Nd, Nl, No), as
/// `char::is_numeric` reports it.
pub uninterp spec fn unicode_is_numeric(c: char) -> bool;

/// The full Unicode uppercase mapping of a character, as `char::to_uppercase` yields it.
pub uninterp spec fn unicode_upper(c: char) -> Seq<char>;

/// The Unicode lowercase mapping of a text, as `str::to_lowercase` yields it.
pub uninterp spec fn unicode_lower(s: Seq<char>) -> Seq<char>;

/// Calls `str::to_lowercase`. The contract names its result [`unicode_lower`] and
/// states only what holds for ASCII text: each uppercase letter becomes its
/// lowercase letter, every other character stays.
#[verifier::external_body]
pub(crate) fn str_to_lowercase(s: &str) -> (r: String)
    ensures
        r@ == unicode_lower(s@),
        (forall|i: int| 0 <= i < s@.len() ==> (#[trigger] s@[i] as u32) < 0x80) ==> r@ == lower(
            s@,
        ),
{
    s.to_lowercase()
}

/// Calls `char::is_uppercase`. The contract names its result
/// [`unicode_is_uppercase`] and states only what holds for ASCII characters: the
/// letters `A`..=`Z` are uppercase and no other ASCII character is.
#[verifier::external_body]
pub(crate) fn char_is_uppercase(c: char) -> (b: bool)
    ensures
        b == unicode_is_uppercase(c),
        (c as u32) < 0x80 ==> (b <==> ('A' <= c && c <= 'Z')),
{
    c.is_uppercase()
}

/// Calls `char::is_numeric`. The contract names its result [`unicode_is_numeric`]
/// and states only what holds for ASCII characters: exactly the digits are numeric.
#[verifier::external_body]
pub(crate) fn char_is_numeric(c: char) -> (b: bool)
    ensures
        b == unicode_is_numeric(c),
        (c as u32) < 0x80 ==> (b <==> ('0' <= c && c <= '9')),
{
    c.is_numeric()
}

/// Calls `char::to_uppercase` and collects the characters it yields. The contract
/// names the result [`unicode_upper`] and states only what holds for ASCII
/// characters: a lowercase letter maps to its uppercase letter, any other ASCII
/// character to itself.
#[verifier::external_body]
pub(crate) fn char_to_uppercase(c: char) -> (r: Vec<char>)
    ensures
        r@ == unicode_upper(c),
        ('a' <= c && c <= 'z') ==> r@ == seq![((c as u32) - 32) as char],
        ((c as u32) < 0x80 && !('a' <= c && c <= 'z')) ==> r@ == seq![c],
{
    c.to_uppercase().collect()
}

} // verus!
