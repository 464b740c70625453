//! The only gate to the process's source of randomness.
//!
//! Every verified caller takes what comes back from here as an argument it
//! knows nothing more about, so all the logic downstream holds for every draw.

use vstd::prelude::*;

verus! {

/// Relies on `rand::random::<bool>()`: an unbiased coin flip. Nothing can be
/// promised of the value.
#[verifier::external_body]
pub fn random_flag() -> bool {
    rand::random::<bool>()
}

/// Relies on `rand::random_range`: a uniformly drawn index below `n`. The
/// call panics on an empty range, which the precondition rules out.
#[verifier::external_body]
pub fn random_index(n: usize) -> (r: usize)
    requires
        n > 0,
    ensures
        r < n,
{
    rand::random_range(0..n)
}

/// Relies on `rand::seq::SliceRandom::shuffle`: the slice is permuted in
/// place, so the result holds exactly the characters of `s`, reordered.
#[verifier::external_body]
pub fn anagram(s: &str) -> (r: String)
    ensures
        r@.to_multiset() == s@.to_multiset(),
        r@.len() == s@.len(),
{
    let mut chars: Vec<char> = s.chars().collect();
    rand::seq::SliceRandom::shuffle(chars.as_mut_slice(), &mut rand::rng());
    chars.into_iter().collect()
}

/// Relies on `rand::seq::SliceRandom::shuffle`: the vector is permuted in
/// place, so the result holds exactly the tokens of `pool`, reordered.
#[verifier::external_body]
pub fn shuffled(pool: Vec<String>) -> (r: Vec<String>)
    ensures
        r.deep_view().to_multiset() == pool.deep_view().to_multiset(),
        r.deep_view().len() == pool.deep_view().len(),
{
    let mut pool = pool;
    rand::seq::SliceRandom::shuffle(pool.as_mut_slice(), &mut rand::rng());
    pool
}

} // verus!
