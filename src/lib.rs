//! Generation of large probable primes and safe primes.
//!
//! Candidates are odd integers of an exact bit length, filtered first by trial
//! division against a fixed list of small primes and then by the Miller–Rabin
//! test with randomly drawn witnesses.

pub mod entropy;
pub mod generate;
pub mod miller_rabin;
pub mod natural;
pub mod precheck;

pub use entropy::{random_range, EntropySource};
pub use generate::{
    candidate_from_draw, generate_probable_prime, generate_probable_prime_within, generate_safe_prime,
    generate_safe_prime_within, PrimeError, MIN_BITS,
};
pub use miller_rabin::{factor_out_twos, is_probable_prime, miller_rabin_with_bases};
pub use natural::Natural;
pub use precheck::small_prime_precheck;
