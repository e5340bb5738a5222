//! String normalization helpers: lowercasing, space replacement, and
//! substring search, with trusted wrappers around the std operations.

use vstd::prelude::*;

verus! {

/// What `str::to_lowercase` returns for a character sequence: the Unicode
/// lowercase mapping, a function of the characters alone.
pub uninterp spec fn lower_of(s: Seq<char>) -> Seq<char>;

/// Relies on `str::to_lowercase`: the returned string is the Unicode
/// lowercase of the input and depends on the input characters alone.
#[verifier::external_body]
pub(crate) fn to_lower(s: &str) -> (r: String)
    ensures
        r@ == lower_of(s@),
{
    s.to_lowercase()
}

/// Each space replaced by an underscore; all other characters unchanged.
pub open spec fn spec_replace_spaces(s: Seq<char>) -> Seq<char> {
    s.map_values(|c: char| if c == ' ' { '_' } else { c })
}

/// Relies on `str::replace`: every occurrence of the pattern is replaced
/// by the replacement; with a one-character pattern and a one-character
/// replacement this maps the characters one for one.
#[verifier::external_body]
pub(crate) fn replace_spaces(s: &str) -> (r: String)
    ensures
        r@ == spec_replace_spaces(s@),
{
    s.replace(" ", "_")
}

/// `pat` occurs as a contiguous run of characters inside `s`.
pub open spec fn spec_contains_seq(s: Seq<char>, pat: Seq<char>) -> bool {
    exists|i: int|
        0 <= i && i + pat.len() <= s.len() && #[trigger] s.subrange(i, i + pat.len()) == pat
}

/// Relies on `str::contains`: true exactly when the pattern occurs as a
/// substring of `s`.
#[verifier::external_body]
pub(crate) fn contains_str(s: &str, pat: &str) -> (r: bool)
    ensures
        r == spec_contains_seq(s@, pat@),
{
    s.contains(pat)
}

/// The roster key under which a configured address is stored: the address
/// lowercased, with spaces replaced by underscores.
pub open spec fn normalize_key(s: Seq<char>) -> Seq<char> {
    spec_replace_spaces(lower_of(s))
}

/// Normalizes a configured team address to its roster key.
pub fn normalize_address(s: &str) -> (r: String)
    ensures
        r@ == normalize_key(s@),
{
    let lowered = to_lower(s);
    replace_spaces(lowered.as_str())
}

} // verus!
