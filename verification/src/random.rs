//! Randomness from the thread-local generator of `rand`.
use rand::seq::SliceRandom;
use vstd::prelude::*;

verus! {

/// `n` random bytes (`RngCore::fill_bytes` on a zeroed buffer).
#[verifier::external_body]
pub(crate) fn random_bytes(n: usize) -> (res: Vec<u8>)
    ensures
        res@.len() == n,
{
    let mut v = vec![0u8; n];
    rand::RngCore::fill_bytes(&mut rand::rng(), &mut v[..]);
    v
}

/// A random index below `n` (`Rng::random_range(0..n)`, which panics on an
/// empty range).
#[verifier::external_body]
pub(crate) fn random_below(n: usize) -> (res: usize)
    requires
        n > 0,
    ensures
        res < n,
{
    rand::Rng::random_range(&mut rand::rng(), 0..n)
}

/// `SliceRandom::shuffle`: a random permutation of the elements.
#[verifier::external_body]
pub(crate) fn shuffle<T>(v: &mut Vec<T>)
    ensures
        final(v)@.to_multiset() == old(v)@.to_multiset(),
{
    let mut rng = rand::rng();
    v.shuffle(&mut rng);
}

} // verus!
