//! Choosing the faucet a new stream is drawn from.

use rand::rngs::StdRng;
use rand::Rng;
use vstd::prelude::*;

verus! {

/// `rand::rngs::StdRng`, the seeded generator all draws come from.
#[verifier::external_type_specification]
#[verifier::external_body]
pub struct ExStdRng(StdRng);

/// Calls `Rng::gen_range` on `0..bound`, which draws an index below `bound`
/// and advances the generator. It panics on an empty range, which the
/// precondition excludes. Which index comes back depends on the generator's
/// state, so only the range is claimed.
#[verifier::external_body]
fn draw_below(rng: &mut StdRng, bound: usize) -> (index: usize)
    requires
        bound > 0,
    ensures
        index < bound,
{
    rng.gen_range(0..bound)
}

/// Picks one of `faucets` uniformly at random by index, with one draw from
/// `rng`.
pub fn pick_faucet<'a, T>(rng: &mut StdRng, faucets: &'a [T]) -> (chosen: &'a T)
    requires
        faucets@.len() > 0,
    ensures
        exists|i: int| 0 <= i < faucets@.len() && *chosen == #[trigger] faucets@[i],
{
    let index = draw_below(rng, faucets.len());
    &faucets[index]
}

} // verus!
