//! Arbitrary-precision natural numbers held as big-endian bytes.
//!
//! The arithmetic itself is done by `num_bigint::BigUint`; each operation
//! used by the proof code has a contract over the numeric value of the bytes.

use num_bigint::BigUint;
use num_bigint::RandBigInt;
use vstd::arithmetic::power::pow;
use vstd::prelude::*;

verus! {

/// The number that a big-endian byte sequence denotes (leading zeros are
/// insignificant, the empty sequence is zero).
pub open spec fn be_value(s: Seq<u8>) -> nat
    decreases s.len(),
{
    if s.len() == 0 {
        0
    } else {
        be_value(s.drop_last()) * 256 + s.last() as nat
    }
}

/// `base` raised to `e`, reduced modulo `m`.
pub open spec fn pow_mod(base: nat, e: nat, m: nat) -> nat
    recommends
        m > 0,
{
    (pow(base as int, e) % (m as int)) as nat
}

/// A natural number of any size, stored as big-endian bytes.
#[derive(Debug)]
pub struct BigNat {
    digits: Vec<u8>,
}

impl View for BigNat {
    type V = nat;

    closed spec fn view(&self) -> nat {
        be_value(self.digits@)
    }
}

impl BigNat {
    /// The number whose big-endian encoding is `bytes`.
    pub fn from_bytes_be(bytes: Vec<u8>) -> (r: BigNat)
        ensures
            r@ == be_value(bytes@),
    {
        BigNat { digits: bytes }
    }

    /// A big-endian encoding of the number.
    pub fn to_bytes_be(&self) -> (r: Vec<u8>)
        ensures
            be_value(r@) == self@,
    {
        self.digits.clone()
    }

    /// The number `n`.
    pub fn from_u64(n: u64) -> (r: BigNat)
        ensures
            r@ == n,
    {
        BigNat::of_u64(n)
    }

    /// Relies on `BigUint::from(u64)` and `BigUint::to_bytes_be`: the bytes
    /// encode the same number.
    #[verifier::external_body]
    fn of_u64(n: u64) -> (r: BigNat)
        ensures
            r@ == n,
    {
        BigNat { digits: BigUint::from(n).to_bytes_be() }
    }

    /// Relies on `BigUint::modpow`: `(self ^ e) % m`; it panics when `m` is zero.
    #[verifier::external_body]
    pub(crate) fn modpow(&self, e: &BigNat, m: &BigNat) -> (r: BigNat)
        requires
            m@ > 0,
        ensures
            r@ == pow_mod(self@, e@, m@),
    {
        let b = BigUint::from_bytes_be(&self.digits);
        let r = b.modpow(&BigUint::from_bytes_be(&e.digits), &BigUint::from_bytes_be(&m.digits));
        BigNat { digits: r.to_bytes_be() }
    }

    /// Relies on `BigUint * BigUint`: the product.
    #[verifier::external_body]
    pub(crate) fn mul(&self, o: &BigNat) -> (r: BigNat)
        ensures
            r@ == self@ * o@,
    {
        let r = BigUint::from_bytes_be(&self.digits) * BigUint::from_bytes_be(&o.digits);
        BigNat { digits: r.to_bytes_be() }
    }

    /// Relies on `BigUint + BigUint`: the sum.
    #[verifier::external_body]
    pub(crate) fn add(&self, o: &BigNat) -> (r: BigNat)
        ensures
            r@ == self@ + o@,
    {
        let r = BigUint::from_bytes_be(&self.digits) + BigUint::from_bytes_be(&o.digits);
        BigNat { digits: r.to_bytes_be() }
    }

    /// Relies on `BigUint - BigUint`: the difference; it panics when it
    /// would be negative.
    #[verifier::external_body]
    pub(crate) fn sub(&self, o: &BigNat) -> (r: BigNat)
        requires
            self@ >= o@,
        ensures
            r@ == self@ - o@,
    {
        let r = BigUint::from_bytes_be(&self.digits) - BigUint::from_bytes_be(&o.digits);
        BigNat { digits: r.to_bytes_be() }
    }

    /// Relies on `BigUint % BigUint`: the remainder; it panics when `m` is zero.
    #[verifier::external_body]
    pub(crate) fn rem(&self, m: &BigNat) -> (r: BigNat)
        requires
            m@ > 0,
        ensures
            r@ == self@ % m@,
    {
        let r = BigUint::from_bytes_be(&self.digits) % BigUint::from_bytes_be(&m.digits);
        BigNat { digits: r.to_bytes_be() }
    }

    /// Relies on `PartialEq for BigUint`: equality of the numbers.
    #[verifier::external_body]
    pub(crate) fn same_value(&self, o: &BigNat) -> (r: bool)
        ensures
            r == (self@ == o@),
    {
        BigUint::from_bytes_be(&self.digits) == BigUint::from_bytes_be(&o.digits)
    }

    /// Relies on `RandBigInt::gen_biguint_below` over `rand::thread_rng`: a
    /// number drawn below `limit`; it panics when `limit` is zero.
    #[verifier::external_body]
    pub(crate) fn random_below(limit: &BigNat) -> (r: BigNat)
        requires
            limit@ > 0,
        ensures
            r@ < limit@,
    {
        let r = rand::thread_rng().gen_biguint_below(&BigUint::from_bytes_be(&limit.digits));
        BigNat { digits: r.to_bytes_be() }
    }
}

impl Clone for BigNat {
    fn clone(&self) -> (r: BigNat)
        ensures
            r@ == self@,
    {
        BigNat { digits: self.digits.clone() }
    }
}

impl PartialEq for BigNat {
    fn eq(&self, o: &BigNat) -> (r: bool)
        ensures
            r == (self@ == o@),
    {
        self.same_value(o)
    }
}

impl vstd::std_specs::cmp::PartialEqSpecImpl for BigNat {
    open spec fn obeys_eq_spec() -> bool {
        true
    }

    open spec fn eq_spec(&self, o: &BigNat) -> bool {
        self@ == o@
    }
}

} // verus!
