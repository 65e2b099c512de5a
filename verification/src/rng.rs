//! Random draws, behind trusted wrappers around the `rand` crate.

use vstd::prelude::*;

verus! {

/// Relies on rand's `Rng::gen_range` over `0..n`: a draw below `n`,
/// uniform over the range. The range is non-empty, so the call cannot
/// panic; nothing more is assumed of which value comes back.
#[verifier::external_body]
pub(crate) fn random_below(n: usize) -> (r: usize)
    requires
        n > 0,
    ensures
        r < n,
{
    rand::Rng::gen_range(&mut rand::thread_rng(), 0..n)
}

/// Relies on rand's `Rng::gen_range` over `lo..=hi`: a draw from the
/// closed range, uniform over it. The range is non-empty, so the call
/// cannot panic; nothing more is assumed of which value comes back.
#[verifier::external_body]
pub(crate) fn random_in_range(lo: i64, hi: i64) -> (r: i64)
    requires
        lo <= hi,
    ensures
        lo <= r <= hi,
{
    rand::Rng::gen_range(&mut rand::thread_rng(), lo..=hi)
}

} // verus!
