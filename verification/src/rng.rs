use vstd::prelude::*;

verus! {

/// Relies on rand's `Rng::gen_range` over `0..bound`: the sample is drawn
/// from the given range, so it is strictly below `bound`. The range is
/// nonempty, so the call cannot panic.
#[verifier::external_body]
pub(crate) fn random_below(bound: usize) -> (r: usize)
    requires
        1 <= bound,
    ensures
        r < bound,
{
    rand::Rng::gen_range(&mut rand::thread_rng(), 0..bound)
}

} // verus!
