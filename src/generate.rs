//! Generation of probable primes and safe primes of an exact bit length.

use crate::entropy::EntropySource;
use crate::miller_rabin::{
    is_probable_prime, passes_round, probable_prime, within_size_limit, witness_top,
};
use crate::natural::{bit_is_set, is_even, set_bit, shift_left, sum, Natural};
use crate::precheck::{passes_precheck, small_prime_precheck};
use vstd::arithmetic::power2::{lemma2_to64, lemma_pow2_strictly_increases, lemma_pow2_unfold, pow2};
use vstd::prelude::*;

verus! {

/// The smallest bit length that the generators accept.
pub const MIN_BITS: usize = 512;

/// Why no prime was returned.
#[derive(Debug, Clone, Copy, PartialEq, Eq, Structural)]
pub enum PrimeError {
    /// The requested bit length is below `MIN_BITS`.
    InvalidConfiguration,
    /// The cap on attempts was reached before a prime was found.
    AttemptsExhausted,
}

/// Whether `v` has exactly `bits` bits: its highest set bit is bit `bits - 1`.
pub open spec fn has_bit_length(v: nat, bits: nat) -> bool {
    bits >= 1 && pow2((bits - 1) as nat) <= v < pow2(bits)
}

/// What a returned safe prime `p` satisfies: `p` has exactly `bits` bits, is
/// odd, passes the precheck and is a probable prime after `rounds` rounds; `q = (p - 1) / 2` has
/// `bits - 1` bits, passes the precheck and is a probable prime after
/// `rounds` rounds of its own.
pub open spec fn is_safe_prime_result(p: nat, bits: nat, rounds: nat) -> bool {
    let q = (p - 1) as nat / 2;
    &&& has_bit_length(p, bits)
    &&& p % 2 == 1
    &&& p == 2 * q + 1
    &&& passes_precheck(p)
    &&& probable_prime(p, rounds)
    &&& has_bit_length(q, (bits - 1) as nat)
    &&& passes_precheck(q)
    &&& probable_prime(q, rounds)
}

/// A number of at most `u32::MAX` bits is small enough for the primality test.
proof fn lemma_bit_length_within_limit(v: nat, bits: nat)
    requires
        has_bit_length(v, bits),
        bits <= u32::MAX,
    ensures
        within_size_limit(v),
{
    if bits < u32::MAX {
        lemma_pow2_strictly_increases(bits, u32::MAX as nat);
    }
}

/// The candidate built from a drawn value `v` below `2^bits`: bit `bits - 1`
/// is set, and bit 0 too.
pub open spec fn forced_candidate(v: nat, bits: nat) -> nat {
    let t = if bit_is_set(v, (bits - 1) as nat) {
        v
    } else {
        v + pow2((bits - 1) as nat)
    };
    if t % 2 == 0 {
        t + 1
    } else {
        t
    }
}

/// The candidate of exactly `bits` bits made from the drawn value `r`: its
/// top bit is set, and it is made odd.
pub fn candidate_from_draw(r: Natural, bits: u64) -> (c: Natural)
    requires
        bits >= 1,
        r.value() < pow2(bits as nat),
    ensures
        c.value() == forced_candidate(r.value(), bits as nat),
        has_bit_length(c.value(), bits as nat),
        c.value() % 2 == 1,
{
    let mut n = r;
    let ghost n0 = n.value();
    let ghost m = pow2((bits - 1) as nat);
    proof {
        lemma_pow2_unfold(bits as nat);
    }
    set_bit(&mut n, bits - 1);
    proof {
        if bit_is_set(n0, (bits - 1) as nat) {
            assert(n0 >= m) by (nonlinear_arith)
                requires
                    (n0 / m) % 2 == 1,
                    m > 0,
            ;
        } else {
            assert(n0 < m) by (nonlinear_arith)
                requires
                    (n0 / m) % 2 == 0,
                    n0 < 2 * m,
                    m > 0,
            ;
        }
        lemma2_to64();
        assert(pow2(0) == 1);
        assert(n.value() / pow2(0) == n.value());
    }
    if is_even(&n) {
        set_bit(&mut n, 0);
    }
    n
}

/// A candidate of exactly `bits` bits built from one fresh draw.
fn next_candidate(bits: u64, entropy: &mut EntropySource) -> (r: Natural)
    requires
        bits >= 1,
    ensures
        exists|v: nat| v < pow2(bits as nat) && r.value() == #[trigger] forced_candidate(v, bits as nat),
        has_bit_length(r.value(), bits as nat),
        r.value() % 2 == 1,
        final(entropy).draw_count() == EntropySource::count_after_draw(old(entropy).draw_count()),
{
    let drawn = entropy.random_bits(bits);
    let ghost v = drawn.value();
    let c = candidate_from_draw(drawn, bits);
    assert(v < pow2(bits as nat) && c.value() == forced_candidate(v, bits as nat));
    c
}

/// Whether candidate `c` is turned away: by the precheck, or by a base in
/// the witness range that fails its round.
pub open spec fn rejected_candidate(c: nat) -> bool {
    !passes_precheck(c) || exists|a: nat|
        2 <= a <= witness_top(c) && !#[trigger] passes_round(c, a)
}

/// Whether every value of `cs` is an odd candidate of `bits` bits that was
/// turned away.
pub open spec fn rejected_candidates(cs: Seq<nat>, bits: nat) -> bool {
    forall|i: int|
        0 <= i < cs.len() ==> has_bit_length(#[trigger] cs[i], bits) && cs[i] % 2 == 1
            && rejected_candidate(cs[i])
}

/// Whether a search for a probable prime of `bits` bits went through `count`
/// candidates, each turned away.
pub open spec fn search_exhausted(bits: nat, count: nat) -> bool {
    exists|cs: Seq<nat>| cs.len() == count && #[trigger] rejected_candidates(cs, bits)
}

/// Whether every value `p` of `ps` has `bits` bits, is odd, was turned away,
/// and came from a `q = (p - 1) / 2` that the search for `bits - 1` bits returned.
pub open spec fn rejected_safe_candidates(ps: Seq<nat>, bits: nat, rounds: nat) -> bool {
    forall|i: int|
        0 <= i < ps.len() ==> {
            let q = (#[trigger] ps[i] - 1) as nat / 2;
            &&& has_bit_length(ps[i], bits)
            &&& ps[i] % 2 == 1
            &&& rejected_candidate(ps[i])
            &&& has_bit_length(q, (bits - 1) as nat)
            &&& passes_precheck(q)
            &&& probable_prime(q, rounds)
        }
}

/// Whether a search for a safe prime of `bits` bits gave up: a search for
/// `q` went through `count` candidates, or `count` values `p = 2q + 1` were
/// turned away.
pub open spec fn safe_search_exhausted(bits: nat, rounds: nat, count: nat) -> bool {
    search_exhausted((bits - 1) as nat, count) || exists|ps: Seq<nat>|
        ps.len() == count && #[trigger] rejected_safe_candidates(ps, bits, rounds)
}

/// Draws candidates of exactly `bits` bits until one passes the precheck
/// and `rounds` Miller–Rabin rounds, for at most `max_attempts` draws.
fn find_probable_prime(bits: u64, rounds: usize, max_attempts: u64, entropy: &mut EntropySource) -> (r:
    Option<Natural>)
    requires
        1 <= bits <= u32::MAX,
    ensures
        r matches Some(p) ==> has_bit_length(p.value(), bits as nat) && p.value() % 2 == 1
            && passes_precheck(p.value()) && probable_prime(p.value(), rounds as nat),
        max_attempts == 0 ==> r is None,
        r is Some ==> EntropySource::drew_at_least(
            old(entropy).draw_count(),
            final(entropy).draw_count(),
            1,
        ),
        r is None ==> EntropySource::drew_at_least(
            old(entropy).draw_count(),
            final(entropy).draw_count(),
            max_attempts as nat,
        ),
        r is None ==> search_exhausted(bits as nat, max_attempts as nat),
{
    let ghost start = entropy.draw_count();
    let ghost mut seen: Seq<nat> = Seq::empty();
    let mut left = max_attempts;
    while left > 0
        invariant
            1 <= bits <= u32::MAX,
            left <= max_attempts,
            start == old(entropy).draw_count(),
            EntropySource::drew_at_least(start, entropy.draw_count(), (max_attempts - left) as nat),
            seen.len() == max_attempts - left,
            rejected_candidates(seen, bits as nat),
        decreases left,
    {
        left = left - 1;
        let n = next_candidate(bits, entropy);
        proof {
            lemma_bit_length_within_limit(n.value(), bits as nat);
        }
        if small_prime_precheck(&n) && is_probable_prime(&n, rounds, entropy) {
            return Some(n);
        }
        proof {
            assert(rejected_candidate(n.value()));
            let next = seen.push(n.value());
            assert forall|j: int| 0 <= j < next.len() implies has_bit_length(#[trigger] next[j], bits as nat)
                && next[j] % 2 == 1 && rejected_candidate(next[j]) by {
                if j < seen.len() {
                    assert(next[j] == seen[j]);
                }
            }
            seen = next;
        }
    }
    assert(rejected_candidates(seen, bits as nat));
    None
}

/// A probable prime of exactly `bits` bits that passes the precheck and
/// `rounds` Miller–Rabin rounds, found within `max_attempts` candidates.
pub fn generate_probable_prime_within(
    bits: usize,
    rounds: usize,
    max_attempts: u64,
    entropy: &mut EntropySource,
) -> (r: Result<Natural, PrimeError>)
    requires
        bits <= u32::MAX,
    ensures
        bits < MIN_BITS <==> r == Err::<Natural, PrimeError>(PrimeError::InvalidConfiguration),
        bits >= MIN_BITS && max_attempts == 0 ==> r == Err::<Natural, PrimeError>(
            PrimeError::AttemptsExhausted,
        ),
        r matches Ok(p) ==> has_bit_length(p.value(), bits as nat) && p.value() % 2 == 1
            && passes_precheck(p.value()) && probable_prime(p.value(), rounds as nat),
        r == Err::<Natural, PrimeError>(PrimeError::AttemptsExhausted) ==> EntropySource::drew_at_least(
            old(entropy).draw_count(),
            final(entropy).draw_count(),
            max_attempts as nat,
        ),
        bits < MIN_BITS ==> final(entropy).draw_count() == old(entropy).draw_count(),
        r == Err::<Natural, PrimeError>(PrimeError::AttemptsExhausted) ==> search_exhausted(
            bits as nat,
            max_attempts as nat,
        ),
{
    if bits < MIN_BITS {
        return Err(PrimeError::InvalidConfiguration);
    }
    match find_probable_prime(bits as u64, rounds, max_attempts, entropy) {
        Some(p) => Ok(p),
        None => Err(PrimeError::AttemptsExhausted),
    }
}

/// A probable prime of exactly `bits` bits that passes the precheck and
/// `rounds` Miller–Rabin rounds. Candidates are drawn until one passes; the
/// search gives up only after `u64::MAX` of them.
pub fn generate_probable_prime(bits: usize, rounds: usize, entropy: &mut EntropySource) -> (r: Result<
    Natural,
    PrimeError,
>)
    requires
        bits <= u32::MAX,
    ensures
        bits < MIN_BITS <==> r == Err::<Natural, PrimeError>(PrimeError::InvalidConfiguration),
        r matches Ok(p) ==> has_bit_length(p.value(), bits as nat) && p.value() % 2 == 1
            && passes_precheck(p.value()) && probable_prime(p.value(), rounds as nat),
        r == Err::<Natural, PrimeError>(PrimeError::AttemptsExhausted) ==> EntropySource::drew_at_least(
            old(entropy).draw_count(),
            final(entropy).draw_count(),
            u64::MAX as nat,
        ),
        bits < MIN_BITS ==> final(entropy).draw_count() == old(entropy).draw_count(),
        r == Err::<Natural, PrimeError>(PrimeError::AttemptsExhausted) ==> search_exhausted(
            bits as nat,
            u64::MAX as nat,
        ),
{
    generate_probable_prime_within(bits, rounds, u64::MAX, entropy)
}

/// A safe prime `p = 2q + 1` of exactly `bits` bits: `q` is drawn as a
/// probable prime of `bits - 1` bits, and `p` must pass `rounds` Miller–Rabin
/// rounds; otherwise both are discarded and a fresh `q` is drawn. At most
/// `max_attempts` values of `q` are tried, each found within `max_attempts`
/// candidates.
pub fn generate_safe_prime_within(
    bits: usize,
    rounds: usize,
    max_attempts: u64,
    entropy: &mut EntropySource,
) -> (r: Result<Natural, PrimeError>)
    requires
        bits <= u32::MAX,
    ensures
        bits < MIN_BITS <==> r == Err::<Natural, PrimeError>(PrimeError::InvalidConfiguration),
        bits >= MIN_BITS && max_attempts == 0 ==> r == Err::<Natural, PrimeError>(
            PrimeError::AttemptsExhausted,
        ),
        r matches Ok(p) ==> is_safe_prime_result(p.value(), bits as nat, rounds as nat),
        r == Err::<Natural, PrimeError>(PrimeError::AttemptsExhausted) ==> EntropySource::drew_at_least(
            old(entropy).draw_count(),
            final(entropy).draw_count(),
            max_attempts as nat,
        ),
        bits < MIN_BITS ==> final(entropy).draw_count() == old(entropy).draw_count(),
        r == Err::<Natural, PrimeError>(PrimeError::AttemptsExhausted) ==> safe_search_exhausted(
            bits as nat,
            rounds as nat,
            max_attempts as nat,
        ),
{
    if bits < MIN_BITS {
        return Err(PrimeError::InvalidConfiguration);
    }
    let q_bits = (bits - 1) as u64;
    let one = Natural::from_u64(1);
    let ghost start = entropy.draw_count();
    let ghost mut turned_away: Seq<nat> = Seq::empty();
    let mut left = max_attempts;
    while left > 0
        invariant
            MIN_BITS <= bits <= u32::MAX,
            turned_away.len() == max_attempts - left,
            rejected_safe_candidates(turned_away, bits as nat, rounds as nat),
            q_bits == bits - 1,
            one.value() == 1,
            left <= max_attempts,
            start == old(entropy).draw_count(),
            EntropySource::drew_at_least(start, entropy.draw_count(), (max_attempts - left) as nat),
        decreases left,
    {
        left = left - 1;
        let q = match find_probable_prime(q_bits, rounds, max_attempts, entropy) {
            Some(q) => q,
            None => {
                return Err(PrimeError::AttemptsExhausted);
            },
        };
        let p = sum(&shift_left(&q, 1), &one);
        proof {
            lemma2_to64();
            lemma_pow2_unfold(bits as nat);
            lemma_pow2_unfold(q_bits as nat);
            assert(has_bit_length(p.value(), bits as nat));
            assert((p.value() - 1) as nat / 2 == q.value());
            lemma_bit_length_within_limit(p.value(), bits as nat);
        }
        if small_prime_precheck(&p) && is_probable_prime(&p, rounds, entropy) {
            return Ok(p);
        }
        proof {
            assert(rejected_candidate(p.value()));
            let next = turned_away.push(p.value());
            assert forall|j: int| 0 <= j < next.len() implies {
                let q = (#[trigger] next[j] - 1) as nat / 2;
                &&& has_bit_length(next[j], bits as nat)
                &&& next[j] % 2 == 1
                &&& rejected_candidate(next[j])
                &&& has_bit_length(q, (bits - 1) as nat)
                &&& passes_precheck(q)
                &&& probable_prime(q, rounds as nat)
            } by {
                if j < turned_away.len() {
                    assert(next[j] == turned_away[j]);
                }
            }
            turned_away = next;
        }
    }
    assert(rejected_safe_candidates(turned_away, bits as nat, rounds as nat));
    Err(PrimeError::AttemptsExhausted)
}

/// A safe prime of exactly `bits` bits; see `generate_safe_prime_within`.
/// Values of `q` are drawn until one gives a safe prime; the search gives up
/// only after `u64::MAX` of them.
pub fn generate_safe_prime(bits: usize, rounds: usize, entropy: &mut EntropySource) -> (r: Result<
    Natural,
    PrimeError,
>)
    requires
        bits <= u32::MAX,
    ensures
        bits < MIN_BITS <==> r == Err::<Natural, PrimeError>(PrimeError::InvalidConfiguration),
        r matches Ok(p) ==> is_safe_prime_result(p.value(), bits as nat, rounds as nat),
        r == Err::<Natural, PrimeError>(PrimeError::AttemptsExhausted) ==> EntropySource::drew_at_least(
            old(entropy).draw_count(),
            final(entropy).draw_count(),
            u64::MAX as nat,
        ),
        bits < MIN_BITS ==> final(entropy).draw_count() == old(entropy).draw_count(),
        r == Err::<Natural, PrimeError>(PrimeError::AttemptsExhausted) ==> safe_search_exhausted(
            bits as nat,
            rounds as nat,
            u64::MAX as nat,
        ),
{
    generate_safe_prime_within(bits, rounds, u64::MAX, entropy)
}

} // verus!
