use find_big_prime::{
    candidate_from_draw,
    factor_out_twos, generate_probable_prime, generate_probable_prime_within,
    generate_safe_prime, generate_safe_prime_within, is_probable_prime, miller_rabin_with_bases,
    random_range, small_prime_precheck, EntropySource, Natural, PrimeError,
};
use num_bigint::BigUint;

fn num(v: u64) -> Natural {
    Natural::from_u64(v)
}

fn big(n: &Natural) -> BigUint {
    BigUint::from_slice(&n.to_digits())
}

fn small(n: &Natural) -> u64 {
    let digits = n.to_digits();
    let mut v: u64 = 0;
    for (i, d) in digits.iter().enumerate() {
        assert!(i < 2 || *d == 0);
        if i < 2 {
            v |= (*d as u64) << (32 * i);
        }
    }
    v
}

fn probable(v: u64, rounds: usize) -> bool {
    let mut e = EntropySource::new();
    is_probable_prime(&num(v), rounds, &mut e)
}

fn with_bases(v: u64, bases: &[u64]) -> bool {
    let bases: Vec<Natural> = bases.iter().map(|b| num(*b)).collect();
    miller_rabin_with_bases(&num(v), &bases)
}

#[test]
fn natural_round_trips_through_digits() {
    assert_eq!(big(&num(0)), BigUint::from(0u32));
    assert_eq!(big(&num(7919)), BigUint::from(7919u32));
    assert_eq!(big(&num(u64::MAX)), BigUint::from(u64::MAX));
    let n = Natural::from_digits(vec![5, 0, 1]);
    assert_eq!(big(&n), (BigUint::from(1u32) << 64usize) + BigUint::from(5u32));
    assert_eq!(big(&n.copy()), big(&n));
}

#[test]
fn precheck_rejects_one_and_zero() {
    assert!(!small_prime_precheck(&num(1)));
    assert!(!small_prime_precheck(&num(0)));
}

#[test]
fn precheck_accepts_the_small_primes_themselves() {
    for p in [3u64, 5, 7, 11, 13, 17, 19, 23, 29, 31, 37, 41, 43, 47, 53, 59] {
        assert!(small_prime_precheck(&num(p)), "{p}");
    }
}

#[test]
fn precheck_rejects_multiples_of_small_primes() {
    for n in [9u64, 15, 21, 25, 49, 121, 177, 59 * 59, 3 * 1_000_003] {
        assert!(!small_prime_precheck(&num(n)), "{n}");
    }
}

#[test]
fn precheck_accepts_numbers_without_small_factors() {
    assert!(small_prime_precheck(&num(2)));
    assert!(small_prime_precheck(&num(61)));
    assert!(small_prime_precheck(&num(7919)));
    // The filter is incomplete: a product of larger primes passes.
    assert!(small_prime_precheck(&num(61 * 67)));
    // Even numbers are not filtered by the odd primes.
    assert!(small_prime_precheck(&num(64)));
}

#[test]
fn factor_out_twos_splits_off_the_powers_of_two() {
    let (s, d) = factor_out_twos(&num(40));
    assert_eq!((s, small(&d)), (3, 5));
    let (s, d) = factor_out_twos(&num(96));
    assert_eq!((s, small(&d)), (5, 3));
    let (s, d) = factor_out_twos(&num(1));
    assert_eq!((s, small(&d)), (0, 1));
    let (s, d) = factor_out_twos(&num(7919));
    assert_eq!((s, small(&d)), (0, 7919));
}

#[test]
fn factor_out_twos_round_trips_on_large_values() {
    let n = Natural::from_digits(vec![0, 0, 0, 0x30]);
    let (s, d) = factor_out_twos(&n);
    assert_eq!(s, 100);
    assert_eq!(small(&d), 3);
    for v in [12u64, 1 << 40, 6_000_000_000, 7 << 33] {
        let (s, d) = factor_out_twos(&num(v));
        let dv = small(&d);
        assert_eq!(dv % 2, 1);
        assert_eq!(dv << s, v);
    }
}

#[test]
fn is_probable_prime_shortcuts() {
    for rounds in [0usize, 1, 5, 64] {
        assert!(probable(2, rounds));
        assert!(!probable(4, rounds));
        assert!(!probable(1, rounds));
        assert!(!probable(0, rounds));
        assert!(!probable(1 << 40, rounds));
    }
}

#[test]
fn is_probable_prime_accepts_known_small_primes() {
    for rounds in [1usize, 2, 20] {
        for p in [3u64, 5, 7, 11, 97, 7919] {
            assert!(probable(p, rounds), "{p} with {rounds} rounds");
        }
    }
    assert!(probable(4_294_967_291, 10));
    assert!(probable(18_446_744_073_709_551_557, 10));
}

#[test]
fn is_probable_prime_rejects_known_composites() {
    for n in [9u64, 15, 21, 561, 1105, 1729, 7917, 2047, 4_294_967_297] {
        assert!(!probable(n, 40), "{n}");
    }
}

#[test]
fn is_probable_prime_with_no_rounds_accepts_odd_numbers() {
    assert!(probable(561, 0));
}

#[test]
fn miller_rabin_with_bases_is_exact() {
    // 561 = 3 * 11 * 17 is a Carmichael number; base 2 exposes it.
    assert!(!with_bases(561, &[2]));
    // 2047 = 23 * 89 is a strong pseudoprime to base 2, but not to base 3.
    assert!(with_bases(2047, &[2]));
    assert!(!with_bases(2047, &[3]));
    assert!(!with_bases(2047, &[2, 3]));
    assert!(with_bases(7919, &[2, 3, 5, 7917]));
    assert!(with_bases(3, &[2]));
    assert!(with_bases(2, &[]));
    assert!(!with_bases(4, &[]));
    assert!(!with_bases(1, &[]));
    assert!(with_bases(9, &[]));
    assert!(!with_bases(9, &[2]));
    // n - 1 always survives a round.
    assert!(with_bases(561, &[560]));
}

#[test]
fn random_range_of_one_value_draws_nothing() {
    let mut e = EntropySource::new();
    for v in [0u64, 5, u64::MAX] {
        let r = random_range(&num(v), &num(v), &mut e);
        assert_eq!(small(&r), v);
    }
    assert_eq!(e.draws(), 0);
}

#[test]
fn random_range_stays_within_bounds() {
    let mut e = EntropySource::new();
    let low = num(1_000);
    let high = num(1_017);
    for _ in 0..10_000 {
        let r = small(&random_range(&low, &high, &mut e));
        assert!((1_000..=1_017).contains(&r));
    }
    assert_eq!(e.draws(), 10_000);
}

#[test]
fn random_range_is_roughly_uniform() {
    let mut e = EntropySource::new();
    let trials = 10_000u64;
    let mut counts = [0u64; 10];
    for _ in 0..trials {
        let r = small(&random_range(&num(0), &num(9), &mut e));
        counts[r as usize] += 1;
    }
    let expected = trials as f64 / 10.0;
    let chi: f64 = counts
        .iter()
        .map(|c| (*c as f64 - expected) * (*c as f64 - expected) / expected)
        .sum();
    // 9 degrees of freedom: the 0.9999 quantile is about 33.7.
    assert!(chi < 33.7, "chi-square {chi}, counts {counts:?}");
}

#[test]
fn random_bits_stay_below_the_power() {
    let mut e = EntropySource::new();
    for _ in 0..1_000 {
        let r = e.random_bits(10);
        assert!(small(&r) < 1024);
    }
    let r = e.random_bits(0);
    assert_eq!(small(&r), 0);
    assert_eq!(e.draws(), 1_001);
}

#[test]
fn generate_probable_prime_rejects_short_lengths() {
    let mut e = EntropySource::new();
    assert_eq!(generate_probable_prime(511, 20, &mut e).err(), Some(PrimeError::InvalidConfiguration));
    assert_eq!(generate_probable_prime(0, 20, &mut e).err(), Some(PrimeError::InvalidConfiguration));
    assert_eq!(generate_safe_prime(2, 20, &mut e).err(), Some(PrimeError::InvalidConfiguration));
    assert_eq!(generate_safe_prime(511, 20, &mut e).err(), Some(PrimeError::InvalidConfiguration));
    assert_eq!(e.draws(), 0);
}

#[test]
fn generation_without_attempts_is_exhausted() {
    let mut e = EntropySource::new();
    assert_eq!(
        generate_probable_prime_within(512, 20, 0, &mut e).err(),
        Some(PrimeError::AttemptsExhausted)
    );
    assert_eq!(
        generate_safe_prime_within(512, 20, 0, &mut e).err(),
        Some(PrimeError::AttemptsExhausted)
    );
}

#[test]
fn generate_probable_prime_512_bits_end_to_end() {
    let mut e = EntropySource::new();
    let p = generate_probable_prime(512, 20, &mut e).unwrap();
    let pb = big(&p);
    assert_eq!(pb.bits(), 512);
    assert!(pb.bit(0));
    assert!(small_prime_precheck(&p));
    assert!(is_probable_prime(&p, 20, &mut e));
    let q = generate_probable_prime(512, 20, &mut e).unwrap();
    assert_ne!(big(&q), pb);
}

#[test]
fn generate_probable_prime_other_lengths() {
    let mut e = EntropySource::new();
    for bits in [513usize, 576, 640] {
        let p = generate_probable_prime(bits, 8, &mut e).unwrap();
        let pb = big(&p);
        assert_eq!(pb.bits(), bits as u64);
        assert!(pb.bit(0));
    }
}

#[test]
fn generate_safe_prime_within_a_budget() {
    let mut e = EntropySource::new();
    match generate_safe_prime_within(512, 4, 40, &mut e) {
        Ok(p) => {
            let pb = big(&p);
            assert_eq!(pb.bits(), 512);
            assert!(pb.bit(0));
            let qb: BigUint = (&pb - BigUint::from(1u32)) >> 1usize;
            assert_eq!(qb.bits(), 511);
            let q = Natural::from_digits(qb.to_u32_digits());
            assert!(small_prime_precheck(&q));
            assert!(small_prime_precheck(&p));
            assert!(is_probable_prime(&q, 4, &mut e));
            assert!(is_probable_prime(&p, 4, &mut e));
        }
        Err(err) => assert_eq!(err, PrimeError::AttemptsExhausted),
    }
}

#[test]
fn candidate_from_draw_sets_top_and_low_bits() {
    assert_eq!(small(&candidate_from_draw(num(0), 8)), 129);
    assert_eq!(small(&candidate_from_draw(num(0b0010_1010), 8)), 0b1010_1011);
    assert_eq!(small(&candidate_from_draw(num(0b1111_1111), 8)), 0b1111_1111);
    assert_eq!(small(&candidate_from_draw(num(0b1000_0000), 8)), 0b1000_0001);
    assert_eq!(small(&candidate_from_draw(num(0), 1)), 1);
    let c = candidate_from_draw(num(6), 512);
    let expected = (BigUint::from(1u32) << 511usize) + BigUint::from(7u32);
    assert_eq!(big(&c), expected);
}

#[test]
fn is_probable_prime_draws_only_for_odd_numbers_from_five() {
    let mut e = EntropySource::new();
    for n in [0u64, 1, 2, 3, 4, 100] {
        is_probable_prime(&num(n), 7, &mut e);
    }
    assert_eq!(e.draws(), 0);
    assert!(is_probable_prime(&num(7919), 7, &mut e));
    assert_eq!(e.draws(), 7);
    assert!(!is_probable_prime(&num(561), 7, &mut e));
    assert!(e.draws() > 7 && e.draws() <= 14);
}
