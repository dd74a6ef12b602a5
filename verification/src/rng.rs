use vstd::prelude::*;
use rand::RngExt;

verus! {

/// Relies on rand::RngExt::random_range over rand::rng(): it returns a value
/// drawn from `0..n`, and panics only on an empty range, which `n >= 1` rules
/// out. Nothing is assumed about which value comes back.
#[verifier::external_body]
pub(crate) fn random_below(n: usize) -> (r: usize)
    requires
        n >= 1,
    ensures
        r < n,
{
    rand::rng().random_range(0..n)
}

} // verus!
