//! The planners' source of randomness: thin trusted wrappers around
//! the `rand` crate.  Nothing is promised of a drawn value beyond its
//! range, so everything proved downstream holds for every outcome.
use vstd::prelude::*;
use rand::Rng;

verus! {

#[verifier::external_type_specification]
#[verifier::external_body]
pub struct ExThreadRng(rand::rngs::ThreadRng);

/// Relies on rand::thread_rng: a handle to the thread-local generator.
#[verifier::external_body]
pub fn new_rng() -> rand::rngs::ThreadRng {
    rand::thread_rng()
}

/// Relies on rand::Rng::gen_range on a half-open usize range: a value
/// uniformly drawn from `lo..hi`; panics only on an empty range, which
/// the precondition rules out.
#[verifier::external_body]
pub fn gen_range_usize(rng: &mut rand::rngs::ThreadRng, lo: usize, hi: usize) -> (r: usize)
    requires
        lo < hi,
    ensures
        lo <= r < hi,
{
    rng.gen_range(lo..hi)
}

/// Relies on rand::Rng::gen_range on a half-open i32 range.
#[verifier::external_body]
pub fn gen_range_i32(rng: &mut rand::rngs::ThreadRng, lo: i32, hi: i32) -> (r: i32)
    requires
        lo < hi,
    ensures
        lo <= r < hi,
{
    rng.gen_range(lo..hi)
}

/// Relies on rand::Rng::gen_range on a half-open u64 range.
#[verifier::external_body]
pub fn gen_range_u64(rng: &mut rand::rngs::ThreadRng, lo: u64, hi: u64) -> (r: u64)
    requires
        lo < hi,
    ensures
        lo <= r < hi,
{
    rng.gen_range(lo..hi)
}

/// Relies on rand::Rng::gen_range: a fixed-point draw from the unit
/// interval, in 2^32 steps.
#[verifier::external_body]
pub fn gen_unit(rng: &mut rand::rngs::ThreadRng) -> (r: u64)
    ensures
        r < 4294967296,
{
    rng.gen_range(0u64..4294967296u64)
}

} // verus!
