//! The thread's random generator, as the games draw from it.

use vstd::prelude::*;
use rand::Rng;

verus! {

#[verifier::external_type_specification]
#[verifier::external_body]
pub struct ExThreadRng(rand::rngs::ThreadRng);

/// `rand::thread_rng`: a handle on the thread's random generator. Nothing is
/// stated of what it will produce.
#[verifier::external_body]
pub(crate) fn thread_rng() -> rand::rngs::ThreadRng {
    rand::thread_rng()
}

/// `Rng::gen::<usize>` on the thread's generator: any `usize` may come back,
/// so nothing is stated of the result.
#[verifier::external_body]
pub(crate) fn gen_usize(rng: &mut rand::rngs::ThreadRng) -> usize {
    rng.gen::<usize>()
}

/// `Rng::gen_range(0..n)`: a number below `n`, which must not be zero (the
/// range would be empty). Which number comes is not stated.
#[verifier::external_body]
pub(crate) fn gen_below(rng: &mut rand::rngs::ThreadRng, n: usize) -> (r: usize)
    requires
        n > 0,
    ensures
        r < n,
{
    rng.gen_range(0..n)
}

/// `Rng::gen_range(lo..hi)` for signed numbers: a number from `lo` up to but
/// not including `hi`, which must lie above `lo`. Which number comes is not
/// stated.
#[verifier::external_body]
pub(crate) fn gen_between(rng: &mut rand::rngs::ThreadRng, lo: isize, hi: isize) -> (r: isize)
    requires
        lo < hi,
    ensures
        lo <= r < hi,
{
    rng.gen_range(lo..hi)
}

/// `Rng::gen_ratio(1, 2)`: a fair coin. Nothing is stated of the result.
#[verifier::external_body]
pub(crate) fn gen_coin(rng: &mut rand::rngs::ThreadRng) -> bool {
    rng.gen_ratio(1, 2)
}

} // verus!
