//! Random choice.

use vstd::prelude::*;
use rand::Rng;

verus! {

/// `rand::thread_rng` and `rand::Rng::sample` with
/// `rand::distributions::Uniform::new(0, n)`: draws a number below `n`, each
/// with the same chance. `Uniform::new` does not accept an empty range, so
/// `n` must be above 0. Two draws need not agree.
#[verifier::external_body]
pub(crate) fn pick_index(n: usize) -> (i: usize)
    requires
        n > 0,
    ensures
        i < n,
{
    rand::thread_rng().sample(rand::distributions::Uniform::new(0, n))
}

} // verus!
