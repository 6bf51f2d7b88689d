//! The corpus engine's only source of randomness: one draw of an index
//! below a bound. Nothing more than the bound is promised of the result;
//! every caller is verified for every value the draw could produce.

use vstd::prelude::*;
use rand::Rng;

verus! {

/// Relies on `rand::Rng::gen_range` over `0..n` with `rand::thread_rng`:
/// the result lies in the (non-empty) range. Which value comes back is
/// not stated; callers must be correct for all of them.
#[verifier::external_body]
pub fn random_below(n: usize) -> (r: usize)
    requires
        n > 0,
    ensures
        r < n,
{
    rand::thread_rng().gen_range(0..n)
}

} // verus!
