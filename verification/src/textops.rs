//! Text transformations taken from outside crates.
//!
//! Record directories are named by a slugified form of the record's human
//! name, and free-text search compares lowercased text.  Both
//! transformations are performed by outside code and enter the proofs only
//! through the names below.

use vstd::prelude::*;

verus! {

/// The slug of a string: its filesystem-safe, lowercase, separator-normalised
/// form.  The value is determined by the input characters alone.
pub uninterp spec fn slug_of(s: Seq<char>) -> Seq<char>;

/// The lowercase folding of a string, determined by the input characters
/// alone.
pub uninterp spec fn lower_of(s: Seq<char>) -> Seq<char>;

/// Relies on `slug::slugify`: the result is a function of the input string
/// alone, and an empty input gives an empty slug.
#[verifier::external_body]
pub fn slugify(s: &str) -> (r: String)
    ensures
        r@ == slug_of(s@),
        s@.len() == 0 ==> r@.len() == 0,
{
    slug::slugify(s)
}

/// Relies on `str::to_lowercase`: the result is a function of the input
/// characters alone, and an empty string stays empty.
#[verifier::external_body]
pub fn lowercase(s: &str) -> (r: String)
    ensures
        r@ == lower_of(s@),
        s@.len() == 0 ==> r@.len() == 0,
{
    s.to_lowercase()
}

} // verus!
