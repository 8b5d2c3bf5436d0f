//! Edit distance between keys.
use vstd::prelude::*;

verus! {

/// The generalized Damerau-Levenshtein distance between two byte sequences:
/// the least number of insertions, deletions, substitutions and transpositions
/// of adjacent elements that turn `a` into `b`, where substrings may be edited
/// any number of times.
pub uninterp spec fn damerau_levenshtein(a: Seq<u8>, b: Seq<u8>) -> nat;

/// The longest key whose distances this library computes.
pub const MAX_KEY_LEN: usize = 4096;

/// Relies on strsim::generic_damerau_levenshtein, which computes the distance
/// above and returns the other length when one side is empty. Its working
/// table has `(a.len() + 2) * (b.len() + 2)` cells, hence the bound.
#[verifier::external_body]
pub(crate) fn generic_distance(a: &[u8], b: &[u8]) -> (r: usize)
    requires
        a@.len() <= MAX_KEY_LEN,
        b@.len() <= MAX_KEY_LEN,
    ensures
        r as nat == damerau_levenshtein(a@, b@),
        a@.len() == 0 ==> r == b@.len(),
        b@.len() == 0 ==> r == a@.len(),
{
    strsim::generic_damerau_levenshtein(a, b)
}

/// The edit distance between two keys.
pub fn key_distance(a: &[u8], b: &[u8]) -> (r: usize)
    requires
        a@.len() <= MAX_KEY_LEN,
        b@.len() <= MAX_KEY_LEN,
    ensures
        r as nat == damerau_levenshtein(a@, b@),
{
    generic_distance(a, b)
}

} // verus!
