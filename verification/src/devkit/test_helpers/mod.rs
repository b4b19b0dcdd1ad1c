//! Test helpers: deterministic fee sequence generator.

use rand::rngs::SmallRng;
use rand::{Rng, SeedableRng};
use vstd::prelude::*;

verus! {

#[verifier::external_type_specification]
#[verifier::external_body]
pub struct ExSmallRng(SmallRng);

/// `SmallRng::seed_from_u64` (rand): a generator seeded from `seed`. Nothing is stated
/// of its internal state.
#[verifier::external_body]
fn small_rng_from_seed(seed: u64) -> SmallRng {
    SmallRng::seed_from_u64(seed)
}

/// `Rng::gen_range(min..=max)` (rand) on a `SmallRng`: a value drawn from the inclusive
/// range, which must not be empty (rand panics on an empty range). Only the range of the
/// draw is stated; which value comes out depends on the generator's state.
#[verifier::external_body]
fn draw_in_range(rng: &mut SmallRng, min: u64, max: u64) -> (r: u64)
    requires
        min <= max,
    ensures
        min <= r <= max,
{
    rng.gen_range(min..=max)
}

/// Generates a deterministic fee sequence from a seed for repeatable tests.
pub struct FeeGenerator {
    rng: SmallRng,
}

impl FeeGenerator {
    /// Create a generator with the given seed.
    pub fn new(seed: u64) -> Self {
        Self { rng: small_rng_from_seed(seed) }
    }

    /// Generate `n` fee values in the range [min_fee, max_fee].
    pub fn generate(&mut self, n: usize, min_fee: u64, max_fee: u64) -> (r: Vec<u64>)
        requires
            n == 0 || min_fee <= max_fee,
        ensures
            r@.len() == n,
            forall|i: int| 0 <= i < n ==> min_fee <= #[trigger] r@[i] <= max_fee,
    {
        let mut out: Vec<u64> = Vec::with_capacity(n);
        let mut i: usize = 0;
        while i < n
            invariant
                n == 0 || min_fee <= max_fee,
                0 <= i <= n,
                out@.len() == i,
                forall|j: int| 0 <= j < i ==> min_fee <= #[trigger] out@[j] <= max_fee,
            decreases n - i,
        {
            let fee = draw_in_range(&mut self.rng, min_fee, max_fee);
            out.push(fee);
            i = i + 1;
        }
        out
    }

    /// Generate a flat sequence of `n` identical fees (useful for baseline tests).
    pub fn flat(fee: u64, n: usize) -> (r: Vec<u64>)
        ensures
            r@ == Seq::new(n as nat, |_i: int| fee),
    {
        let r = vec![fee; n];
        assert(r@ =~= Seq::new(n as nat, |_i: int| fee));
        r
    }
}

} // verus!
