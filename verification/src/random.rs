//! Trusted wrappers around the `rand` crate. Nothing can be promised of a
//! drawn value beyond its range.

use vstd::prelude::*;

verus! {

/// Relies on `rand::random_range` over `0..n`: it panics only on an empty
/// range and returns a value of the range.
#[verifier::external_body]
pub fn random_below(n: u64) -> (r: u64)
    requires
        n >= 1,
    ensures
        r < n,
{
    rand::random_range(0..n)
}

/// Relies on `rand::random` for an arbitrary value; nothing is promised of
/// it.
#[verifier::external_body]
pub fn random_i32() -> i32 {
    rand::random::<i32>()
}

} // verus!
