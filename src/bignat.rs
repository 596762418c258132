//! Natural numbers of any size, as base-2^32 digits, whose arithmetic is done
//! by `num`'s `BigUint`.
use vstd::prelude::*;

use crate::uint::u256_max_value;
use primitive_types::U256;
use num::BigUint;

verus! {

/// Value of little-endian base-2^32 digits.
pub open spec fn digits_val(d: Seq<u32>) -> nat
    decreases d.len(),
{
    if d.len() == 0 {
        0
    } else {
        d[0] as nat + 0x1_0000_0000 * digits_val(d.drop_first())
    }
}

/// A natural number; its digits are kept least significant first.
pub struct BigNat {
    digits: Vec<u32>,
}

impl BigNat {
    pub closed spec fn val(&self) -> nat {
        digits_val(self.digits@)
    }

    /// The number with the given digits, least significant first.
    pub fn from_digits(digits: Vec<u32>) -> (r: BigNat)
        ensures
            r.val() == digits_val(digits@),
    {
        BigNat { digits }
    }

    /// Its digits, least significant first.
    pub fn digits(&self) -> (r: Vec<u32>)
        ensures
            digits_val(r@) == self.val(),
    {
        self.digits.clone()
    }

    pub fn zero() -> (r: BigNat)
        ensures
            r.val() == 0,
    {
        BigNat { digits: Vec::new() }
    }

    pub fn from_u32(v: u32) -> (r: BigNat)
        ensures
            r.val() == v as nat,
    {
        let digits = vec![v];
        proof {
            assert(digits@.drop_first() =~= Seq::<u32>::empty());
            assert(digits_val(digits@.drop_first()) == 0);
            assert(digits_val(digits@) == v as nat + 0x1_0000_0000 * digits_val(digits@.drop_first()));
        }
        BigNat { digits }
    }

    pub fn duplicate(&self) -> (r: BigNat)
        ensures
            r.val() == self.val(),
    {
        let mut digits: Vec<u32> = Vec::new();
        let mut i: usize = 0;
        while i < self.digits.len()
            invariant
                0 <= i <= self.digits@.len(),
                digits@ == self.digits@.subrange(0, i as int),
            decreases self.digits@.len() - i,
        {
            digits.push(self.digits[i]);
            assert(digits@ =~= self.digits@.subrange(0, i + 1));
            i = i + 1;
        }
        assert(digits@ =~= self.digits@);
        BigNat { digits }
    }

    pub fn is_zero(&self) -> (r: bool)
        ensures
            r == (self.val() == 0),
    {
        let z = BigNat::zero();
        nat_le(self, &z)
    }
}

/// Relies on `BigUint * BigUint`: the exact product. Here and below the
/// digits go in and out through `BigUint::new` and `BigUint::to_u32_digits`,
/// least significant first.
#[verifier::external_body]
pub(crate) fn nat_mul(a: &BigNat, b: &BigNat) -> (r: BigNat)
    ensures
        r.val() == a.val() * b.val(),
{
    BigNat { digits: (BigUint::new(a.digits.clone()) * BigUint::new(b.digits.clone())).to_u32_digits() }
}

/// Relies on `BigUint + BigUint`: the exact sum.
#[verifier::external_body]
pub(crate) fn nat_add(a: &BigNat, b: &BigNat) -> (r: BigNat)
    ensures
        r.val() == a.val() + b.val(),
{
    BigNat { digits: (BigUint::new(a.digits.clone()) + BigUint::new(b.digits.clone())).to_u32_digits() }
}

/// Relies on `BigUint - BigUint`, which panics below zero.
#[verifier::external_body]
pub(crate) fn nat_sub(a: &BigNat, b: &BigNat) -> (r: BigNat)
    requires
        b.val() <= a.val(),
    ensures
        r.val() == a.val() - b.val(),
{
    BigNat { digits: (BigUint::new(a.digits.clone()) - BigUint::new(b.digits.clone())).to_u32_digits() }
}

/// Relies on `BigUint / BigUint`: the quotient rounded down; it panics on a
/// zero divisor.
#[verifier::external_body]
pub(crate) fn nat_div(a: &BigNat, b: &BigNat) -> (r: BigNat)
    requires
        b.val() > 0,
    ensures
        r.val() == a.val() / b.val(),
{
    BigNat { digits: (BigUint::new(a.digits.clone()) / BigUint::new(b.digits.clone())).to_u32_digits() }
}

/// Relies on `BigUint`'s `Ord`: numeric order.
#[verifier::external_body]
pub(crate) fn nat_le(a: &BigNat, b: &BigNat) -> (r: bool)
    ensures
        r == (a.val() <= b.val()),
{
    BigUint::new(a.digits.clone()) <= BigUint::new(b.digits.clone())
}

/// Relies on `U256::to_little_endian` and `BigUint::from_bytes_le`: the same
/// number.
#[verifier::external_body]
pub(crate) fn nat_from_u256(x: &U256) -> (r: BigNat)
    ensures
        r.val() == crate::uint::u256_val(*x),
{
    let mut bytes = [0u8; 32];
    x.to_little_endian(&mut bytes);
    BigNat { digits: BigUint::from_bytes_le(&bytes).to_u32_digits() }
}

/// Relies on `BigUint::to_bytes_le` and `U256::from_little_endian`, which
/// panics on more than 32 bytes.
#[verifier::external_body]
fn u256_from_nat_unchecked(n: &BigNat) -> (r: U256)
    requires
        n.val() < crate::uint::u256_modulus(),
    ensures
        crate::uint::u256_val(r) == n.val(),
{
    U256::from_little_endian(&BigUint::new(n.digits.clone()).to_bytes_le())
}

/// The number as a `U256`, or `None` when it does not fit.
pub fn u256_from_nat(n: &BigNat) -> (r: Option<U256>)
    ensures
        n.val() < crate::uint::u256_modulus() <==> r.is_some(),
        r.is_some() ==> crate::uint::u256_val(r.unwrap()) == n.val(),
{
    let max = nat_from_u256(&u256_max_value());
    if nat_le(n, &max) {
        Some(u256_from_nat_unchecked(n))
    } else {
        None
    }
}

}
