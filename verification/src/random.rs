//! The one source of randomness: decoy-jump displacements.

use vstd::prelude::*;
use rand::Rng;

verus! {

/// Draws one displacement with `rand::thread_rng().gen_range(i8::MIN,
/// i8::MAX)`. The `rand` crate documents the range as inclusive of the low
/// end and exclusive of the high end, so the largest signed byte never
/// comes out; nothing else is known of the value, and two calls may differ.
/// The generator seeds itself from the operating system on first use and
/// panics if that fails.
/// Not proved: the contract is taken from the documentation of `gen_range`.
#[verifier::external_body]
pub(crate) fn random_displacement() -> (d: i8)
    ensures
        i8::MIN <= d < i8::MAX,
{
    rand::thread_rng().gen_range(i8::MIN, i8::MAX)
}

} // verus!
