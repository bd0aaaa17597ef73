//! The operating system's entropy source, and uniform sampling from a range.

use crate::natural::Natural;
use num_bigint::{BigUint, RandBigInt};
use rand::rngs::OsRng;
use vstd::arithmetic::power2::pow2;
use vstd::prelude::*;

verus! {

#[verifier::external_type_specification]
#[verifier::external_body]
pub struct ExOsRng(OsRng);

/// A handle on the operating system's secure random number generator, which
/// counts how many numbers were drawn through it.
pub struct EntropySource {
    rng: OsRng,
    draws: u64,
}

impl EntropySource {
    /// How many numbers were drawn so far (stops counting at `u64::MAX`).
    pub closed spec fn draw_count(&self) -> nat {
        self.draws as nat
    }

    /// The count after one more draw.
    pub open spec fn count_after_draw(n: nat) -> nat {
        if n < u64::MAX {
            n + 1
        } else {
            n
        }
    }

    /// Whether the count went from `before` to `after` through at least `k`
    /// draws, or reached the cap `u64::MAX`.
    pub open spec fn drew_at_least(before: nat, after: nat, k: nat) -> bool {
        after >= before + k || after >= u64::MAX
    }

    /// The count after `k` more draws.
    pub open spec fn count_after_draws(n: nat, k: nat) -> nat {
        if n + k <= u64::MAX {
            n + k
        } else {
            u64::MAX as nat
        }
    }

    /// The count never exceeds its cap.
    pub proof fn lemma_draw_count_bound(&self)
        ensures
            self.draw_count() <= u64::MAX,
    {
    }

    /// A fresh handle that has drawn nothing.
    pub fn new() -> (r: EntropySource)
        ensures
            r.draw_count() == 0,
    {
        EntropySource { rng: os_rng(), draws: 0 }
    }

    /// How many numbers were drawn so far (stops counting at `u64::MAX`).
    pub fn draws(&self) -> (r: u64)
        ensures
            r == self.draw_count(),
    {
        self.draws
    }

    fn count_draw(&mut self)
        ensures
            final(self).draw_count() == Self::count_after_draw(old(self).draw_count()),
    {
        self.draws = self.draws.saturating_add(1);
    }

    /// A number drawn uniformly from `[0, 2^bits)`.
    pub fn random_bits(&mut self, bits: u64) -> (r: Natural)
        ensures
            r.value() < pow2(bits as nat),
            final(self).draw_count() == Self::count_after_draw(old(self).draw_count()),
    {
        let r = draw_bits(&mut self.rng, bits);
        self.count_draw();
        r
    }
}

/// Relies on `rand::rngs::OsRng`, a unit struct with no state of its own.
#[verifier::external_body]
fn os_rng() -> OsRng {
    OsRng
}

/// Relies on `RandBigInt::gen_biguint`: a number below `2^bits`. `OsRng`
/// panics if the operating system cannot supply entropy.
#[verifier::external_body]
fn draw_bits(rng: &mut OsRng, bits: u64) -> (r: Natural)
    ensures
        r.value() < pow2(bits as nat),
{
    Natural { digits: rng.gen_biguint(bits).to_u32_digits() }
}

/// Relies on `RandBigInt::gen_biguint_range`: a number in `[low, high)`,
/// drawn by rejection sampling; it panics unless `low < high`, and `OsRng`
/// panics if the operating system cannot supply entropy.
#[verifier::external_body]
fn draw_in_range(rng: &mut OsRng, low: &Natural, high: &Natural) -> (r: Natural)
    requires
        low.value() < high.value(),
    ensures
        low.value() <= r.value() < high.value(),
{
    let low = BigUint::from_slice(&low.digits);
    let high = BigUint::from_slice(&high.digits);
    Natural { digits: rng.gen_biguint_range(&low, &high).to_u32_digits() }
}

/// A number drawn uniformly from the inclusive range `[low, high]`. When the
/// range holds one number it is returned and nothing is drawn.
pub fn random_range(low: &Natural, high: &Natural, entropy: &mut EntropySource) -> (r: Natural)
    requires
        low.value() <= high.value(),
    ensures
        low.value() <= r.value() <= high.value(),
        low.value() == high.value() ==> final(entropy).draw_count() == old(entropy).draw_count(),
        low.value() < high.value() ==> final(entropy).draw_count()
            == EntropySource::count_after_draw(old(entropy).draw_count()),
{
    if crate::natural::equal(low, high) {
        return low.copy();
    }
    let one = Natural::from_u64(1);
    let high_exclusive = crate::natural::sum(high, &one);
    let r = draw_in_range(&mut entropy.rng, low, &high_exclusive);
    entropy.count_draw();
    r
}

} // verus!
