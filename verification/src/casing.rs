//! Word-case conversions of the `heck` crate.
use crate::text::{all_ascii, ascii_lower, is_lower, is_upper};
use vstd::prelude::*;

verus! {

/// What `heck::ToSnakeCase::to_snake_case` returns for a string.
pub uninterp spec fn snake_case(s: Seq<char>) -> Seq<char>;

/// What `heck::ToPascalCase::to_pascal_case` returns for a string.
pub uninterp spec fn pascal_case(s: Seq<char>) -> Seq<char>;

/// `heck::ToSnakeCase::to_snake_case`: splits `s` into words and joins them,
/// lowercased, with `_`. The word splitting is only named here; two facts of
/// it are stated. The result is made of lowercased characters of `s` and `_`,
/// so an ASCII `s` gives an ASCII result. And the split reads `s` from the
/// left looking one character ahead, and starts a new word where a lower-case
/// letter is followed by an upper-case one; so when `s` ends in an ASCII
/// lower-case letter, `s` followed by a run `t` of ASCII upper-case letters
/// gives the result for `s`, `_`, and `t` lowercased.
#[verifier::external_body]
pub(crate) fn to_snake_case(s: &str) -> (r: String)
    ensures
        r@ == snake_case(s@),
        all_ascii(s@) ==> all_ascii(r@),
        forall|t: Seq<char>|
            s@.len() > 0 && is_lower(s@.last()) && t.len() > 0 && (forall|i: int|
                0 <= i < t.len() ==> is_upper(#[trigger] t[i])) ==> #[trigger] snake_case(s@ + t)
                == r@ + seq!['_'] + ascii_lower(t),
{
    heck::ToSnakeCase::to_snake_case(s)
}

/// `heck::ToPascalCase::to_pascal_case`: splits `s` into words and joins them,
/// each capitalized. The word splitting is only named here.
#[verifier::external_body]
pub(crate) fn to_pascal_case(s: &str) -> (r: String)
    ensures
        r@ == pascal_case(s@),
{
    heck::ToPascalCase::to_pascal_case(s)
}

} // verus!
