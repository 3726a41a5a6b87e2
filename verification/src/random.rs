//! The one place where chance comes in.

use rand::Rng;
use vstd::prelude::*;

verus! {

/// A number below `bound`: the call `rand::thread_rng().gen_range(0..bound)`.
/// `gen_range` panics on an empty range, which `bound > 0` rules out. All
/// that is claimed of the number is that it lies in the range, as
/// `gen_range` promises for `low..high`; which number it is depends on
/// chance, and two calls may differ.
#[verifier::external_body]
pub(crate) fn random_below(bound: u64) -> (n: u64)
    requires
        bound > 0,
    ensures
        n < bound,
{
    rand::thread_rng().gen_range(0..bound)
}

} // verus!
