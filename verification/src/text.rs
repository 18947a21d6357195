//! Text comparison as the matchers need it.
use vstd::prelude::*;

verus! {

/// Whether `needle` occurs in `haystack` as a contiguous run of characters.
pub open spec fn is_substring(needle: Seq<char>, haystack: Seq<char>) -> bool {
    exists|from: int, to: int|
        0 <= from <= to <= haystack.len() && #[trigger] haystack.subrange(from, to) == needle
}

/// The lower-case form of a text, as `str::to_lowercase` computes it.
pub uninterp spec fn lowercase(s: Seq<char>) -> Seq<char>;

/// A text without its leading and trailing white space, as `str::trim` computes it.
pub uninterp spec fn trimmed(s: Seq<char>) -> Seq<char>;

/// Calls `str::eq`: two string slices are equal exactly when they hold the
/// same characters in the same order.
#[verifier::external_body]
pub(crate) fn same_text(a: &str, b: &str) -> (same: bool)
    ensures
        same == (a@ == b@),
{
    a == b
}

/// Calls `str::contains` with a string pattern: the answer is `true` exactly
/// when the pattern occurs in the slice as a substring. The empty pattern
/// occurs in every slice.
#[verifier::external_body]
pub(crate) fn contains(haystack: &str, needle: &str) -> (found: bool)
    ensures
        found == is_substring(needle@, haystack@),
{
    haystack.contains(needle)
}

/// Calls `str::to_lowercase`. The result depends on the characters of the
/// slice alone; the contract only gives it its name.
#[verifier::external_body]
pub(crate) fn to_lowercase(s: &str) -> (lower: String)
    ensures
        lower@ == lowercase(s@),
{
    s.to_lowercase()
}

/// Calls `str::trim`. The result depends on the characters of the slice
/// alone; the contract only gives it its name.
#[verifier::external_body]
pub(crate) fn trim(s: &str) -> (inner: &str)
    ensures
        inner@ == trimmed(s@),
{
    s.trim()
}

} // verus!
