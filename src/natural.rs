//! Arbitrary-precision natural numbers, stored as base 2^32 digits, least
//! significant first. Arithmetic is carried out by `num_bigint::BigUint`.

use num_bigint::BigUint;
use vstd::arithmetic::power::pow;
use vstd::arithmetic::power2::pow2;
use vstd::prelude::*;

verus! {

/// The base of one digit.
pub open spec fn digit_base() -> nat {
    0x1_0000_0000
}

/// The number that a little-endian sequence of base 2^32 digits denotes.
pub open spec fn digits_value(ds: Seq<u32>) -> nat
    decreases ds.len(),
{
    if ds.len() == 0 {
        0
    } else {
        ds[0] as nat + digit_base() * digits_value(ds.drop_first())
    }
}

/// Whether bit `k` of `v` is set.
pub open spec fn bit_is_set(v: nat, k: nat) -> bool {
    (v / pow2(k)) % 2 == 1
}

/// A natural number of any size.
pub struct Natural {
    pub(crate) digits: Vec<u32>,
}

impl Natural {
    /// The number this value denotes.
    pub closed spec fn value(&self) -> nat {
        digits_value(self.digits@)
    }

    /// Builds a number from its base 2^32 digits, least significant first.
    pub fn from_digits(digits: Vec<u32>) -> (r: Natural)
        ensures
            r.value() == digits_value(digits@),
    {
        Natural { digits }
    }

    /// The base 2^32 digits of this number, least significant first.
    pub fn to_digits(&self) -> (r: Vec<u32>)
        ensures
            digits_value(r@) == self.value(),
    {
        let r = self.digits.clone();
        assert(r@ =~= self.digits@);
        r
    }

    /// The number `v`.
    pub fn from_u64(v: u64) -> (r: Natural)
        ensures
            r.value() == v as nat,
    {
        let lo = (v % 0x1_0000_0000) as u32;
        let hi = (v / 0x1_0000_0000) as u32;
        let r = Natural { digits: vec![lo, hi] };
        assert(r.digits@.drop_first().drop_first() =~= Seq::<u32>::empty());
        reveal_with_fuel(digits_value, 3);
        r
    }

    /// A second value denoting the same number.
    pub fn copy(&self) -> (r: Natural)
        ensures
            r.value() == self.value(),
    {
        Natural { digits: self.to_digits() }
    }
}

/// Relies on `BigUint::modpow`: `(b ^ e) % m`; it panics on a zero modulus.
#[verifier::external_body]
pub(crate) fn mod_pow(b: &Natural, e: &Natural, m: &Natural) -> (r: Natural)
    requires
        m.value() > 0,
    ensures
        r.value() == pow(b.value() as int, e.value()) % (m.value() as int),
{
    let b = BigUint::from_slice(&b.digits);
    let e = BigUint::from_slice(&e.digits);
    let m = BigUint::from_slice(&m.digits);
    Natural { digits: b.modpow(&e, &m).to_u32_digits() }
}

/// Relies on `BigUint`'s `==`: equality of the numbers.
#[verifier::external_body]
pub(crate) fn equal(a: &Natural, b: &Natural) -> (r: bool)
    ensures
        r == (a.value() == b.value()),
{
    BigUint::from_slice(&a.digits) == BigUint::from_slice(&b.digits)
}

/// Relies on `BigUint`'s `<`: the order of the numbers.
#[verifier::external_body]
pub(crate) fn less_than(a: &Natural, b: &Natural) -> (r: bool)
    ensures
        r == (a.value() < b.value()),
{
    BigUint::from_slice(&a.digits) < BigUint::from_slice(&b.digits)
}

/// Relies on `num_integer::Integer::is_even` for `BigUint`.
#[verifier::external_body]
pub(crate) fn is_even(a: &Natural) -> (r: bool)
    ensures
        r == (a.value() % 2 == 0),
{
    num_integer::Integer::is_even(&BigUint::from_slice(&a.digits))
}

/// Relies on `BigUint`'s `+`.
#[verifier::external_body]
pub(crate) fn sum(a: &Natural, b: &Natural) -> (r: Natural)
    ensures
        r.value() == a.value() + b.value(),
{
    Natural { digits: (BigUint::from_slice(&a.digits) + BigUint::from_slice(&b.digits)).to_u32_digits() }
}

/// Relies on `BigUint`'s `-`, which panics when the result would be negative.
#[verifier::external_body]
pub(crate) fn difference(a: &Natural, b: &Natural) -> (r: Natural)
    requires
        b.value() <= a.value(),
    ensures
        r.value() == a.value() - b.value(),
{
    Natural { digits: (BigUint::from_slice(&a.digits) - BigUint::from_slice(&b.digits)).to_u32_digits() }
}

/// Relies on `BigUint`'s `%`, which panics on a zero divisor.
#[verifier::external_body]
pub(crate) fn remainder(a: &Natural, b: &Natural) -> (r: Natural)
    requires
        b.value() > 0,
    ensures
        r.value() == a.value() % b.value(),
{
    Natural { digits: (BigUint::from_slice(&a.digits) % BigUint::from_slice(&b.digits)).to_u32_digits() }
}

/// Relies on `BigUint`'s `<<` by a `usize`: multiplication by `2^k`.
#[verifier::external_body]
pub(crate) fn shift_left(a: &Natural, k: usize) -> (r: Natural)
    ensures
        r.value() == a.value() * pow2(k as nat),
{
    Natural { digits: (BigUint::from_slice(&a.digits) << k).to_u32_digits() }
}

/// Relies on `BigUint`'s `>>` by a `usize`: division by `2^k`, rounding down.
#[verifier::external_body]
pub(crate) fn shift_right(a: &Natural, k: usize) -> (r: Natural)
    ensures
        r.value() == a.value() / pow2(k as nat),
{
    Natural { digits: (BigUint::from_slice(&a.digits) >> k).to_u32_digits() }
}

/// Relies on `BigUint::set_bit` with `value == true`: bit `k` is set, and
/// no other bit changes.
#[verifier::external_body]
pub(crate) fn set_bit(a: &mut Natural, k: u64)
    ensures
        final(a).value() == if bit_is_set(old(a).value(), k as nat) {
            old(a).value()
        } else {
            old(a).value() + pow2(k as nat)
        },
{
    let mut v = BigUint::from_slice(&a.digits);
    v.set_bit(k, true);
    a.digits = v.to_u32_digits();
}

} // verus!
