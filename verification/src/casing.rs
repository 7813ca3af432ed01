//! Case normalisation. Scoring and construction are case-insensitive,
//! so both lean on one lowercasing primitive.

use vstd::prelude::*;

verus! {

/// The lowercase form of a character sequence. Lowercasing full Unicode
/// text is a function of the characters alone; its definition lives in
/// the standard library, so here it only has a name.
pub uninterp spec fn lower_of(s: Seq<char>) -> Seq<char>;

/// Relies on str::to_lowercase: the result depends on the characters
/// alone, and an empty string stays empty.
#[verifier::external_body]
pub(crate) fn lowercase(s: &str) -> (r: String)
    ensures
        r@ == lower_of(s@),
        s@.len() == 0 ==> r@.len() == 0,
{
    s.to_lowercase()
}

} // verus!
