//! The renderer's only sources of nondeterminism, each behind a small
//! trusted wrapper around the `rand` crate (or, for the worker count,
//! `num_cpus`). Nothing is promised of a random value beyond its
//! range; shuffling promises only to permute.

use vstd::prelude::*;
use rand::seq::SliceRandom;

verus! {

/// Relies on `rand::random_range` over `0..n`: the thread-local
/// generator returns a value strictly below `n` (it panics on an
/// empty range, so `n` must be positive).
#[verifier::external_body]
pub(crate) fn random_below(n: usize) -> (r: usize)
    requires
        n > 0,
    ensures
        r < n,
{
    rand::random_range(0..n)
}

/// Relies on `rand`'s `SliceRandom::shuffle`: a Fisher-Yates pass
/// that permutes the slice in place, keeping exactly its elements.
#[verifier::external_body]
pub(crate) fn shuffle_values<T>(v: &mut Vec<T>)
    ensures
        final(v)@.to_multiset() == old(v)@.to_multiset(),
        final(v)@.len() == old(v)@.len(),
{
    v.as_mut_slice().shuffle(&mut rand::rng());
}

/// Relies on `num_cpus::get`, which always reports at least one CPU.
#[verifier::external_body]
pub(crate) fn host_cpu_count() -> (n: usize)
    ensures
        n >= 1,
{
    num_cpus::get()
}

} // verus!
