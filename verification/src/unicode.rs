//! Unicode-dependent character and string transformations.
//!
//! Their full behaviour would take pages to state, so each result is given a
//! name; the callers' contracts are exact over these names.

use vstd::prelude::*;

verus! {

/// What `convert_case` produces for Title Case; depends on the input alone.
pub uninterp spec fn title_case_of(s: Seq<char>) -> Seq<char>;

/// What `str::to_lowercase` produces; depends on the input alone.
pub uninterp spec fn lower_of(s: Seq<char>) -> Seq<char>;

/// Whether `char::is_alphanumeric` holds; depends on the character alone.
pub uninterp spec fn is_word_char(c: char) -> bool;

/// Whether `char::is_whitespace` holds; depends on the character alone.
pub uninterp spec fn is_space_char(c: char) -> bool;

/// Relies on convert_case's `Casing::to_case` with `Case::Title`: a pure
/// function of the input characters.
#[verifier::external_body]
pub fn title_case(s: &str) -> (r: String)
    ensures
        r@ == title_case_of(s@),
{
    convert_case::Casing::to_case(&s, convert_case::Case::Title)
}

/// Relies on `str::to_lowercase`: a pure function of the input characters.
#[verifier::external_body]
pub fn to_lower(s: &str) -> (r: String)
    ensures
        r@ == lower_of(s@),
{
    s.to_lowercase()
}

/// Relies on `char::is_alphanumeric`: a pure function of the character.
#[verifier::external_body]
pub fn char_is_word(c: char) -> (r: bool)
    ensures
        r == is_word_char(c),
{
    c.is_alphanumeric()
}

/// Relies on `char::is_whitespace`: a pure function of the character.
#[verifier::external_body]
pub fn char_is_space(c: char) -> (r: bool)
    ensures
        r == is_space_char(c),
{
    c.is_whitespace()
}

} // verus!
