//! The random source of the perturbation search. Nothing here is proved:
//! each item states what the `rand` crate does.

use vstd::prelude::*;
use rand::rngs::StdRng;
use rand::seq::SliceRandom;
use rand::Rng;

verus! {

/// `rand::rngs::StdRng`, a seedable generator; opaque to the proofs.
#[verifier::external_type_specification]
#[verifier::external_body]
pub struct ExStdRng(rand::rngs::StdRng);

/// Calls `Rng::gen_range` on the half-open range `lo..hi`. The call panics
/// on an empty range, which `requires` leaves out; what it returns lies in
/// the range, and nothing more is claimed of it.
#[verifier::external_body]
pub(crate) fn random_index(rng: &mut StdRng, lo: usize, hi: usize) -> (r: usize)
    requires
        lo < hi,
    ensures
        lo <= r < hi,
{
    rng.gen_range(lo..hi)
}

/// Calls `SliceRandom::shuffle` on the entries of `path` at positions
/// `lo..hi`. The shuffle only swaps entries of that slice with each other:
/// the entries outside it stay where they are, and the slice holds the same
/// values as before, each as often as before, in some order.
#[verifier::external_body]
pub(crate) fn shuffle_window(rng: &mut StdRng, path: &mut Vec<usize>, lo: usize, hi: usize)
    requires
        lo <= hi <= old(path)@.len(),
    ensures
        final(path)@.len() == old(path)@.len(),
        forall|x: int|
            0 <= x < lo || hi <= x < old(path)@.len() ==> final(path)@[x] == old(path)@[x],
        final(path)@.subrange(lo as int, hi as int).to_multiset() == old(path)@.subrange(
            lo as int,
            hi as int,
        ).to_multiset(),
{
    path[lo..hi].shuffle(rng);
}

} // verus!
