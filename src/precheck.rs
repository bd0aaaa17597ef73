//! A cheap filter that rejects candidates with a small prime factor.

use crate::natural::{equal, remainder, Natural};
use vstd::prelude::*;

verus! {

/// The odd primes below 60, in increasing order.
pub open spec fn small_primes() -> Seq<nat> {
    seq![3, 5, 7, 11, 13, 17, 19, 23, 29, 31, 37, 41, 43, 47, 53, 59]
}

/// Whether `n` is one of the small primes.
pub open spec fn is_small_prime(n: nat) -> bool {
    exists|i: int| 0 <= i < small_primes().len() && small_primes()[i] == n
}

/// Whether some small prime divides `n`.
pub open spec fn has_small_factor(n: nat) -> bool {
    exists|i: int| 0 <= i < small_primes().len() && n % #[trigger] small_primes()[i] == 0
}

/// What the precheck decides: `1` fails, a small prime passes, and any other
/// number passes exactly when no small prime divides it.
pub open spec fn passes_precheck(n: nat) -> bool {
    n != 1 && (is_small_prime(n) || !has_small_factor(n))
}

/// Trial division by the odd primes below 60.
pub fn small_prime_precheck(n: &Natural) -> (r: bool)
    ensures
        r == passes_precheck(n.value()),
{
    let smalls: Vec<u64> = vec![3, 5, 7, 11, 13, 17, 19, 23, 29, 31, 37, 41, 43, 47, 53, 59];
    assert(smalls@.map_values(|p: u64| p as nat) =~= small_primes());
    assert forall|j: int| 0 <= j < small_primes().len() implies #[trigger] small_primes()[j] >= 3 by {
        assert(0 <= j < 16);
    }
    let one = Natural::from_u64(1);
    if equal(n, &one) {
        return false;
    }
    let mut i: usize = 0;
    while i < smalls.len()
        invariant
            i <= smalls.len(),
            smalls@.map_values(|p: u64| p as nat) == small_primes(),
            n.value() != 1,
            forall|j: int| 0 <= j < small_primes().len() ==> #[trigger] small_primes()[j] >= 3,
            forall|j: int|
                0 <= j < i ==> n.value() != small_primes()[j] && n.value() % #[trigger] small_primes()[j] != 0,
        decreases smalls.len() - i,
    {
        let p = Natural::from_u64(smalls[i]);
        assert(p.value() == small_primes()[i as int]) by {
            assert(smalls@.map_values(|p: u64| p as nat)[i as int] == smalls@[i as int] as nat);
        }
        if equal(n, &p) {
            return true;
        }
        let rem = remainder(n, &p);
        let zero = Natural::from_u64(0);
        if equal(&rem, &zero) {
            return false;
        }
        i = i + 1;
    }
    assert(!is_small_prime(n.value()));
    true
}

} // verus!
