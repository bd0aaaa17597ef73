//! The Miller–Rabin probabilistic primality test.

use crate::entropy::{random_range, EntropySource};
use crate::natural::{difference, equal, is_even, less_than, mod_pow, shift_right, Natural};
use vstd::arithmetic::div_mod::lemma_mul_mod_noop;
use vstd::arithmetic::power::{lemma_pow_adds, lemma_square_is_pow2, pow};
use vstd::arithmetic::power2::{lemma2_to64, lemma_pow2_strictly_increases, lemma_pow2_unfold, pow2};
use vstd::prelude::*;

verus! {

/// How many times 2 divides `m` (0 for `m == 0`).
pub open spec fn twos(m: nat) -> nat
    decreases m,
{
    if m > 0 && m % 2 == 0 {
        1 + twos(m / 2)
    } else {
        0
    }
}

/// `m` with every factor 2 taken out (0 for `m == 0`).
pub open spec fn odd_part(m: nat) -> nat
    decreases m,
{
    if m > 0 && m % 2 == 0 {
        odd_part(m / 2)
    } else {
        m
    }
}

/// Numbers below `2^(2^32 - 1)`, for which the count of factors 2 fits in a `u32`.
pub open spec fn within_size_limit(v: nat) -> bool {
    v < pow2(u32::MAX as nat)
}

/// Whether base `a` survives one Miller–Rabin round on odd `n`: with
/// `n - 1 == d * 2^s` and `d` odd, either `a^d == 1 (mod n)` or
/// `a^(d * 2^r) == n - 1 (mod n)` for some `r < s`.
pub open spec fn passes_round(n: nat, a: nat) -> bool {
    let d = odd_part((n - 1) as nat);
    let s = twos((n - 1) as nat);
    pow(a as int, d) % (n as int) == 1 || exists|r: nat|
        r < s && #[trigger] pow(a as int, d * pow2(r)) % (n as int) == n - 1
}

/// Taking the factors 2 out of any `m > 0` leaves an odd number `d` with
/// `d * 2^twos(m) == m`.
pub proof fn lemma_odd_part_round_trip(m: nat)
    requires
        m > 0,
    ensures
        odd_part(m) % 2 == 1,
        odd_part(m) * pow2(twos(m)) == m,
    decreases m,
{
    lemma2_to64();
    if m % 2 == 0 {
        lemma_odd_part_round_trip(m / 2);
        lemma_pow2_unfold(twos(m));
        assert(odd_part(m) * pow2(twos(m)) == m) by (nonlinear_arith)
            requires
                odd_part(m) == odd_part(m / 2),
                twos(m) == 1 + twos(m / 2),
                pow2(twos(m)) == 2 * pow2((twos(m) - 1) as nat),
                odd_part(m / 2) * pow2(twos(m / 2)) == m / 2,
                m % 2 == 0,
        ;
    } else {
        assert(twos(m) == 0 && odd_part(m) == m);
        assert(pow2(0) == 1);
        assert(m * pow2(0) == m);
    }
}

/// `n = d * 2^s` with `d` odd, returned as `(s, d)`.
pub fn factor_out_twos(n: &Natural) -> (r: (u32, Natural))
    requires
        n.value() > 0,
        within_size_limit(n.value()),
    ensures
        r.1.value() % 2 == 1,
        r.1.value() * pow2(r.0 as nat) == n.value(),
        r.0 == twos(n.value()),
        r.1.value() == odd_part(n.value()),
{
    let mut s: u32 = 0;
    let mut d = n.copy();
    let mut even = is_even(&d);
    proof {
        lemma2_to64();
    }
    while even
        invariant
            d.value() > 0,
            d.value() * pow2(s as nat) == n.value(),
            s + twos(d.value()) == twos(n.value()),
            odd_part(d.value()) == odd_part(n.value()),
            within_size_limit(n.value()),
            even == (d.value() % 2 == 0),
            pow2(1) == 2,
        decreases d.value(),
    {
        let ghost old_d = d.value();
        d = shift_right(&d, 1);
        proof {
            lemma_pow2_unfold(s as nat + 1);
            assert(d.value() * pow2(s as nat + 1) == n.value()) by (nonlinear_arith)
                requires
                    old_d % 2 == 0,
                    d.value() == old_d / 2,
                    pow2(s as nat + 1) == 2 * pow2(s as nat),
                    old_d * pow2(s as nat) == n.value(),
            ;
            assert(d.value() >= 1);
            assert(pow2(s as nat + 1) <= n.value()) by (nonlinear_arith)
                requires
                    d.value() >= 1,
                    d.value() * pow2(s as nat + 1) == n.value(),
            ;
            if s as nat + 1 >= u32::MAX as nat {
                if s as nat + 1 > u32::MAX as nat {
                    lemma_pow2_strictly_increases(u32::MAX as nat, s as nat + 1);
                }
                assert(false);
            }
        }
        s = s + 1;
        even = is_even(&d);
    }
    (s, d)
}

/// One more squaring modulo `n` moves from exponent `d * 2^r` to `d * 2^(r + 1)`.
proof fn lemma_square_step(a: int, d: nat, r: nat, n: int)
    requires
        n > 0,
    ensures
        pow(a, d * pow2(r + 1)) % n == (pow(a, d * pow2(r)) % n) * (pow(a, d * pow2(r)) % n) % n,
{
    let e = d * pow2(r);
    lemma_pow2_unfold(r + 1);
    assert(d * pow2(r + 1) == e + e) by (nonlinear_arith)
        requires
            pow2(r + 1) == 2 * pow2(r),
            e == d * pow2(r),
    ;
    lemma_pow_adds(a, e, e);
    lemma_mul_mod_noop(pow(a, e), pow(a, e), n);
}

/// Once a square chain modulo `n` reaches 1 it stays there.
proof fn lemma_stays_one(a: int, d: nat, i: nat, j: nat, n: int)
    requires
        n > 1,
        i <= j,
        pow(a, d * pow2(i)) % n == 1,
    ensures
        pow(a, d * pow2(j)) % n == 1,
    decreases j - i,
{
    if i < j {
        lemma_stays_one(a, d, i, (j - 1) as nat, n);
        lemma_square_step(a, d, (j - 1) as nat, n);
        assert(1int * 1int % n == 1) by (nonlinear_arith)
            requires
                n > 1,
        ;
    }
}

/// One Miller–Rabin round on odd `n >= 3` with base `a`, where
/// `n - 1 == d * 2^s` and `d` is odd.
fn witness_round(n: &Natural, n_minus_one: &Natural, d: &Natural, s: u32, a: &Natural) -> (r: bool)
    requires
        n.value() >= 3,
        n.value() % 2 == 1,
        n_minus_one.value() == n.value() - 1,
        d.value() == odd_part((n.value() - 1) as nat),
        s == twos((n.value() - 1) as nat),
    ensures
        r == passes_round(n.value(), a.value()),
{
    let ghost nn = n.value() as int;
    let ghost av = a.value() as int;
    let ghost dv = d.value();
    let one = Natural::from_u64(1);
    let two = Natural::from_u64(2);
    let mut x = mod_pow(a, d, n);
    proof {
        lemma2_to64();
        assert(dv * pow2(0) == dv);
    }
    if equal(&x, &one) {
        return true;
    }
    if equal(&x, n_minus_one) {
        assert(pow(av, dv * pow2(0)) % nn == nn - 1);
        return true;
    }
    let mut i: u32 = 1;
    while i < s
        invariant
            1 <= i,
            nn == n.value(),
            av == a.value(),
            dv == d.value(),
            dv == odd_part((nn - 1) as nat),
            s == twos((nn - 1) as nat),
            nn >= 3,
            n_minus_one.value() == nn - 1,
            one.value() == 1,
            two.value() == 2,
            x.value() == pow(av, dv * pow2((i - 1) as nat)) % nn,
            x.value() != 1,
            pow(av, dv) % nn != 1,
            forall|r: nat| r < i ==> #[trigger] pow(av, dv * pow2(r)) % nn != nn - 1,
        decreases s - i,
    {
        let ghost prev = x.value() as int;
        x = mod_pow(&x, &two, n);
        proof {
            lemma_square_is_pow2(prev);
            lemma_square_step(av, dv, (i - 1) as nat, nn);
        }
        if equal(&x, n_minus_one) {
            assert(pow(av, dv * pow2(i as nat)) % nn == nn - 1);
            return true;
        }
        if equal(&x, &one) {
            assert forall|r: nat| r < s implies #[trigger] pow(av, dv * pow2(r)) % nn != nn - 1 by {
                if r >= i {
                    lemma_stays_one(av, dv, i as nat, r, nn);
                }
            }
            return false;
        }
        i = i + 1;
    }
    false
}

/// Whether every base in `bases` survives a round on `n`.
pub open spec fn passes_all_rounds(n: nat, bases: Seq<nat>) -> bool {
    forall|i: int| 0 <= i < bases.len() ==> passes_round(n, #[trigger] bases[i])
}

/// The Miller–Rabin verdict on `n` with the given bases: numbers below 2
/// and even numbers other than 2 are rejected, 2 is accepted, and an odd
/// `n >= 3` is accepted exactly when every base survives its round.
pub open spec fn miller_rabin_verdict(n: nat, bases: Seq<nat>) -> bool {
    if n < 2 {
        false
    } else if n == 2 {
        true
    } else if n % 2 == 0 {
        false
    } else {
        passes_all_rounds(n, bases)
    }
}

/// The numbers that a sequence of naturals denotes.
pub open spec fn values_of(v: Seq<Natural>) -> Seq<nat> {
    v.map_values(|b: Natural| b.value())
}

/// The Miller–Rabin test on `n` with the given bases, one round per base.
pub fn miller_rabin_with_bases(n: &Natural, bases: &Vec<Natural>) -> (r: bool)
    requires
        within_size_limit(n.value()),
    ensures
        r == miller_rabin_verdict(n.value(), values_of(bases@)),
{
    let two = Natural::from_u64(2);
    if less_than(n, &two) {
        return false;
    }
    if equal(n, &two) {
        return true;
    }
    if is_even(n) {
        return false;
    }
    let one = Natural::from_u64(1);
    let n_minus_one = difference(n, &one);
    let (s, d) = factor_out_twos(&n_minus_one);
    let mut i: usize = 0;
    while i < bases.len()
        invariant
            i <= bases.len(),
            n.value() >= 3,
            n.value() % 2 == 1,
            n_minus_one.value() == n.value() - 1,
            d.value() == odd_part((n.value() - 1) as nat),
            s == twos((n.value() - 1) as nat),
            forall|j: int| 0 <= j < i ==> passes_round(n.value(), #[trigger] values_of(bases@)[j]),
        decreases bases.len() - i,
    {
        assert(values_of(bases@)[i as int] == bases@[i as int].value());
        if !witness_round(n, &n_minus_one, &d, s, &bases[i]) {
            return false;
        }
        i = i + 1;
    }
    true
}

/// The largest witness drawn for `n`: `n - 2`, or 2 where that range is empty.
pub open spec fn witness_top(n: nat) -> nat {
    if n >= 4 {
        (n - 2) as nat
    } else {
        2
    }
}

/// Whether `w` is a sequence of witnesses for `n`, each in `[2, witness_top(n)]`,
/// all of which survive their round.
pub open spec fn survives_witnesses(n: nat, w: Seq<nat>) -> bool {
    forall|i: int|
        0 <= i < w.len() ==> 2 <= #[trigger] w[i] <= witness_top(n) && passes_round(n, w[i])
}

/// What a `true` from `is_probable_prime(n, rounds)` establishes: `n` is 2, or
/// `n` is odd, at least 3, and survived `rounds` witnesses from the witness range.
pub open spec fn probable_prime(n: nat, rounds: nat) -> bool {
    n == 2 || (n >= 3 && n % 2 == 1 && exists|w: Seq<nat>|
        w.len() == rounds && #[trigger] survives_witnesses(n, w))
}

/// The Miller–Rabin test with `rounds` witnesses drawn uniformly from
/// `[2, n - 2]` (for `n == 3`, the witness 2). A prime is never rejected; a
/// composite is accepted with probability at most `4^-rounds`.
pub fn is_probable_prime(n: &Natural, rounds: usize, entropy: &mut EntropySource) -> (r: bool)
    requires
        within_size_limit(n.value()),
    ensures
        n.value() < 2 ==> !r,
        n.value() == 2 ==> r,
        n.value() > 2 && n.value() % 2 == 0 ==> !r,
        r ==> probable_prime(n.value(), rounds as nat),
        n.value() >= 3 && n.value() % 2 == 1 && rounds == 0 ==> r,
        n.value() >= 3 && n.value() % 2 == 1 && !r ==> exists|a: nat|
            2 <= a <= witness_top(n.value()) && !#[trigger] passes_round(n.value(), a),
        final(entropy).draw_count() >= old(entropy).draw_count(),
        n.value() <= 3 || n.value() % 2 == 0 ==> final(entropy).draw_count() == old(
            entropy,
        ).draw_count(),
        n.value() >= 5 && n.value() % 2 == 1 && r ==> final(entropy).draw_count()
            == EntropySource::count_after_draws(old(entropy).draw_count(), rounds as nat),
        n.value() >= 5 && n.value() % 2 == 1 && !r ==> final(entropy).draw_count()
            <= EntropySource::count_after_draws(old(entropy).draw_count(), rounds as nat),
{
    let two = Natural::from_u64(2);
    if less_than(n, &two) {
        return false;
    }
    if equal(n, &two) {
        return true;
    }
    if is_even(n) {
        return false;
    }
    let one = Natural::from_u64(1);
    let n_minus_one = difference(n, &one);
    let (s, d) = factor_out_twos(&n_minus_one);
    let three = Natural::from_u64(3);
    let top = if equal(n, &three) {
        two.copy()
    } else {
        difference(n, &two)
    };
    let ghost start = entropy.draw_count();
    proof {
        entropy.lemma_draw_count_bound();
    }
    let ghost mut drawn: Seq<nat> = Seq::empty();
    let mut i: usize = 0;
    while i < rounds
        invariant
            i <= rounds,
            n.value() >= 3,
            n.value() % 2 == 1,
            two.value() == 2,
            top.value() == witness_top(n.value()),
            n_minus_one.value() == n.value() - 1,
            d.value() == odd_part((n.value() - 1) as nat),
            s == twos((n.value() - 1) as nat),
            drawn.len() == i,
            survives_witnesses(n.value(), drawn),
            start == old(entropy).draw_count(),
            start <= u64::MAX,
            n.value() == 3 ==> entropy.draw_count() == start,
            n.value() >= 5 ==> entropy.draw_count() == EntropySource::count_after_draws(
                start,
                i as nat,
            ),
        decreases rounds - i,
    {
        let a = random_range(&two, &top, entropy);
        if !witness_round(n, &n_minus_one, &d, s, &a) {
            return false;
        }
        proof {
            let next = drawn.push(a.value());
            assert forall|j: int| 0 <= j < next.len() implies 2 <= #[trigger] next[j] <= witness_top(
                n.value(),
            ) && passes_round(n.value(), next[j]) by {
                if j < drawn.len() {
                    assert(next[j] == drawn[j]);
                }
            }
            drawn = next;
        }
        i = i + 1;
    }
    assert(survives_witnesses(n.value(), drawn));
    true
}

/// Whatever `is_probable_prime(n, rounds)` accepts, `miller_rabin_with_bases`
/// accepts too, for some `rounds` bases taken from the witness range.
pub proof fn lemma_probable_prime_has_accepting_bases(n: nat, rounds: nat)
    requires
        probable_prime(n, rounds),
    ensures
        exists|w: Seq<nat>|
            w.len() == rounds && (forall|i: int| 0 <= i < w.len() ==> 2 <= #[trigger] w[i] <= witness_top(n))
                && #[trigger] miller_rabin_verdict(n, w),
{
    if n == 2 {
        let w = Seq::new(rounds, |i: int| 2nat);
        assert(miller_rabin_verdict(n, w));
    } else {
        let w = choose|w: Seq<nat>| w.len() == rounds && #[trigger] survives_witnesses(n, w);
        assert(passes_all_rounds(n, w));
        assert(miller_rabin_verdict(n, w));
    }
}

} // verus!
