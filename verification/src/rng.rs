//! The caller-supplied source of randomness, behind a trusted boundary.
//!
//! Every randomized operation of the core draws through `sample_range`; the
//! contracts promise only the range of a draw, never its distribution, so all
//! downstream proofs hold whatever the generator returns.

use vstd::prelude::*;

verus! {

/// rand's per-thread generator, opaque to the verifier.
#[verifier::external_type_specification]
#[verifier::external_body]
pub struct ExThreadRng(rand::rngs::ThreadRng);

/// Relies on rand's `Rng::gen_range` over `lo..hi`: the sample lies in the
/// half-open range, and a non-empty range cannot make the call panic.
#[verifier::external_body]
pub(crate) fn sample_range(rng: &mut rand::rngs::ThreadRng, lo: i128, hi: i128) -> (r: i128)
    requires
        lo < hi,
    ensures
        lo <= r < hi,
{
    rand::Rng::gen_range(rng, lo..hi)
}

} // verus!
