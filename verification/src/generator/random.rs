//! The generators of rand that the library draws from.
//!
//! Nothing here is proved: each function makes one call into rand, and its contract
//! says what the documentation and the source of rand show of that call.

#![allow(deprecated)]

use vstd::prelude::*;
use rand::distributions::{Distribution, Uniform};
use rand::rngs::OsRng;
use rand::seq::SliceRandom;
use rand::{RngCore, SeedableRng, XorShiftRng};
use crate::util::Vector;

verus! {

/// `OsRng` of rand, the random source of the operating system. The library carries it
/// from one call into rand to the next and looks at nothing inside.
#[verifier::external_type_specification]
#[verifier::external_body]
pub struct ExOsRng(OsRng);

/// `XorShiftRng` of rand, its xorshift generator. The library holds it and hands it to
/// rand and looks at nothing inside, so nothing is known of the numbers that it gives.
#[verifier::external_type_specification]
#[verifier::external_body]
pub struct ExXorShiftRng(XorShiftRng);

/// `OsRng::new` of rand opens the random source of the operating system. `None` stands
/// for its error. Nothing is claimed of the source.
#[verifier::external_body]
pub(crate) fn os_rng() -> (rng: Option<OsRng>) {
    OsRng::new().ok()
}

/// `RngCore::try_fill_bytes` of rand, on eight bytes that are then read as one number.
/// `None` stands for its error. Nothing is claimed of the number.
#[verifier::external_body]
pub(crate) fn os_seed(rng: &mut OsRng) -> (seed: Option<u64>) {
    let mut bytes = [0u8; 8];
    rng.try_fill_bytes(&mut bytes).ok().map(|_| u64::from_le_bytes(bytes))
}

/// `SeedableRng::from_rng` of rand for its xorshift generator: a generator seeded from
/// `source`. `None` stands for the error of the source.
#[verifier::external_body]
pub(crate) fn rng_from_os(source: &mut OsRng) -> (rng: Option<XorShiftRng>) {
    XorShiftRng::from_rng(source).ok()
}

/// `SeedableRng::from_seed` of rand for its xorshift generator.
#[verifier::external_body]
pub(crate) fn rng_from_seed(seed: [u8; 16]) -> (rng: XorShiftRng) {
    XorShiftRng::from_seed(seed)
}

/// `RngCore::next_u32` of rand on its xorshift generator. Nothing is claimed of the
/// number.
#[verifier::external_body]
pub(crate) fn rng_next_u32(rng: &mut XorShiftRng) -> (n: u32) {
    rng.next_u32()
}

/// `Uniform::new` of rand and `Distribution::sample` on what it made: a number from
/// `low` up to, and without, `high`. rand panics where `low` is not below `high`.
#[verifier::external_body]
pub(crate) fn rng_range(rng: &mut XorShiftRng, low: usize, high: usize) -> (n: usize)
    requires
        low < high,
    ensures
        low <= n < high,
{
    Uniform::new(low, high).sample(rng)
}

/// `SliceRandom::shuffle` of rand: the same items in another order.
#[verifier::external_body]
pub(crate) fn rng_shuffle(rng: &mut XorShiftRng, items: &mut Vec<Vector<usize>>)
    ensures
        final(items)@.to_multiset() == old(items)@.to_multiset(),
{
    items.shuffle(rng);
}

} // verus!
