//! 256-bit unsigned integers and 20-byte addresses, as given by
//! `primitive_types`, with their value in specifications.
use vstd::prelude::*;

use primitive_types::{H160, U256};

verus! {

/// `primitive_types::U256`, with its public field of four little-endian
/// 64-bit words.
#[verifier::external_type_specification]
pub struct ExU256(primitive_types::U256);

/// `primitive_types::H160`, with its public field of 20 bytes.
#[verifier::external_type_specification]
pub struct ExH160(primitive_types::H160);

/// Relies on `U256`'s `Clone`, a copy.
pub assume_specification[ <primitive_types::U256 as core::clone::Clone>::clone ](x: &primitive_types::U256) -> (r: primitive_types::U256)
    ensures
        r == *x,
;

/// Relies on `H160`'s `Clone`, a copy.
pub assume_specification[ <primitive_types::H160 as core::clone::Clone>::clone ](x: &primitive_types::H160) -> (r: primitive_types::H160)
    ensures
        r == *x,
;

pub open spec fn pow64() -> nat {
    0x1_0000_0000_0000_0000
}

/// 2^256.
pub open spec fn u256_modulus() -> nat {
    pow64() * pow64() * pow64() * pow64()
}

/// The value of a little-endian four-word integer.
pub open spec fn u256_val(x: U256) -> nat {
    x.0[0] as nat + pow64() * (x.0[1] as nat + pow64() * (x.0[2] as nat + pow64() * x.0[3] as nat))
}

/// Relies on `U256::checked_add`: the sum, or `None` when it does not fit.
pub assume_specification[ primitive_types::U256::checked_add ](a: U256, b: U256) -> (r: Option<U256>)
    ensures
        u256_val(a) + u256_val(b) < u256_modulus() <==> r.is_some(),
        r.is_some() ==> u256_val(r.unwrap()) == u256_val(a) + u256_val(b),
;

/// Relies on `U256::checked_sub`: the difference, or `None` below zero.
pub assume_specification[ primitive_types::U256::checked_sub ](a: U256, b: U256) -> (r: Option<U256>)
    ensures
        u256_val(b) <= u256_val(a) <==> r.is_some(),
        r.is_some() ==> u256_val(r.unwrap()) == u256_val(a) - u256_val(b),
;

/// Relies on `U256::checked_mul`: the product, or `None` when it does not fit.
pub assume_specification[ primitive_types::U256::checked_mul ](a: U256, b: U256) -> (r: Option<U256>)
    ensures
        u256_val(a) * u256_val(b) < u256_modulus() <==> r.is_some(),
        r.is_some() ==> u256_val(r.unwrap()) == u256_val(a) * u256_val(b),
;

/// Relies on `U256::checked_div`: the quotient rounded down, or `None` for a
/// zero divisor.
pub assume_specification[ primitive_types::U256::checked_div ](a: U256, b: U256) -> (r: Option<U256>)
    ensures
        u256_val(b) != 0 <==> r.is_some(),
        r.is_some() ==> u256_val(r.unwrap()) == u256_val(a) / u256_val(b),
;

/// Relies on `U256::saturating_add`: the sum, or `U256::MAX` when it does not
/// fit.
pub assume_specification[ primitive_types::U256::saturating_add ](a: U256, b: U256) -> (r: U256)
    ensures
        u256_val(r) == if u256_val(a) + u256_val(b) < u256_modulus() {
            u256_val(a) + u256_val(b)
        } else {
            (u256_modulus() - 1) as nat
        },
;

/// Relies on `U256::saturating_sub`: the difference, or zero below zero.
pub assume_specification[ primitive_types::U256::saturating_sub ](a: U256, b: U256) -> (r: U256)
    ensures
        u256_val(r) == if u256_val(b) <= u256_val(a) {
            (u256_val(a) - u256_val(b)) as nat
        } else {
            0
        },
;

/// Relies on `U256::saturating_mul`: the product, or `U256::MAX` when it does
/// not fit.
pub assume_specification[ primitive_types::U256::saturating_mul ](a: U256, b: U256) -> (r: U256)
    ensures
        u256_val(r) == if u256_val(a) * u256_val(b) < u256_modulus() {
            u256_val(a) * u256_val(b)
        } else {
            (u256_modulus() - 1) as nat
        },
;

pub open spec fn u256_max() -> nat {
    (u256_modulus() - 1) as nat
}

/// Splitting off the lowest word keeps the order of the rest.
proof fn lemma_split_order(l1: nat, h1: nat, l2: nat, h2: nat)
    requires
        l1 < pow64(),
        l2 < pow64(),
    ensures
        (l1 + pow64() * h1 < l2 + pow64() * h2) <==> (h1 < h2 || (h1 == h2 && l1 < l2)),
        (l1 + pow64() * h1 == l2 + pow64() * h2) <==> (h1 == h2 && l1 == l2),
{
    if h1 < h2 {
        assert(pow64() * h1 + pow64() <= pow64() * h2) by (nonlinear_arith)
            requires h1 < h2;
    } else if h2 < h1 {
        assert(pow64() * h2 + pow64() <= pow64() * h1) by (nonlinear_arith)
            requires h2 < h1;
    }
}

pub proof fn lemma_u256_bounds(x: U256)
    ensures
        u256_val(x) < u256_modulus(),
{
    let b = pow64();
    let a0 = x.0[0] as nat;
    let a1 = x.0[1] as nat;
    let a2 = x.0[2] as nat;
    let a3 = x.0[3] as nat;
    assert(a2 + b * a3 < b * b) by (nonlinear_arith)
        requires a2 < b, a3 < b;
    assert(a1 + b * (a2 + b * a3) < b * (b * b)) by (nonlinear_arith)
        requires a1 < b, a2 + b * a3 < b * b;
    assert(a0 + b * (a1 + b * (a2 + b * a3)) < b * (b * (b * b))) by (nonlinear_arith)
        requires a0 < b, a1 + b * (a2 + b * a3) < b * (b * b);
    assert(b * (b * (b * b)) == b * b * b * b) by (nonlinear_arith);
}

/// The integer with value `v`.
pub fn u256_from_u64(v: u64) -> (r: U256)
    ensures
        u256_val(r) == v as nat,
{
    U256([v, 0, 0, 0])
}

/// The largest value, `2^256 - 1`.
pub fn u256_max_value() -> (r: U256)
    ensures
        u256_val(r) == u256_max(),
{
    let r = U256([u64::MAX, u64::MAX, u64::MAX, u64::MAX]);
    let ghost b = pow64();
    assert(u256_val(r) == (b - 1) + b * ((b - 1) + b * ((b - 1) + b * (b - 1))));
    assert((b - 1) + b * ((b - 1) + b * ((b - 1) + b * (b - 1))) == b * b * b * b - 1)
        by (nonlinear_arith);
    r
}

pub fn u256_is_zero(a: &U256) -> (r: bool)
    ensures
        r == (u256_val(*a) == 0),
{
    a.0[0] == 0 && a.0[1] == 0 && a.0[2] == 0 && a.0[3] == 0
}

/// Numeric equality, word by word.
pub fn u256_eq(a: &U256, b: &U256) -> (r: bool)
    ensures
        r == (u256_val(*a) == u256_val(*b)),
{
    let ghost b2a = a.0[2] as nat + pow64() * a.0[3] as nat;
    let ghost b2b = b.0[2] as nat + pow64() * b.0[3] as nat;
    proof {
        lemma_split_order(a.0[2] as nat, a.0[3] as nat, b.0[2] as nat, b.0[3] as nat);
        lemma_split_order(a.0[1] as nat, b2a, b.0[1] as nat, b2b);
        lemma_split_order(
            a.0[0] as nat,
            a.0[1] as nat + pow64() * b2a,
            b.0[0] as nat,
            b.0[1] as nat + pow64() * b2b,
        );
    }
    a.0[0] == b.0[0] && a.0[1] == b.0[1] && a.0[2] == b.0[2] && a.0[3] == b.0[3]
}

/// Numeric order, from the most significant word down.
pub fn u256_lt(a: &U256, b: &U256) -> (r: bool)
    ensures
        r == (u256_val(*a) < u256_val(*b)),
{
    let ghost b2a = a.0[2] as nat + pow64() * a.0[3] as nat;
    let ghost b2b = b.0[2] as nat + pow64() * b.0[3] as nat;
    proof {
        lemma_split_order(a.0[2] as nat, a.0[3] as nat, b.0[2] as nat, b.0[3] as nat);
        lemma_split_order(a.0[1] as nat, b2a, b.0[1] as nat, b2b);
        lemma_split_order(
            a.0[0] as nat,
            a.0[1] as nat + pow64() * b2a,
            b.0[0] as nat,
            b.0[1] as nat + pow64() * b2b,
        );
    }
    if a.0[3] != b.0[3] {
        a.0[3] < b.0[3]
    } else if a.0[2] != b.0[2] {
        a.0[2] < b.0[2]
    } else if a.0[1] != b.0[1] {
        a.0[1] < b.0[1]
    } else {
        a.0[0] < b.0[0]
    }
}

/// Addresses compare byte by byte.
pub fn h160_eq(a: &H160, b: &H160) -> (r: bool)
    ensures
        r == (a.0@ == b.0@),
{
    let mut i: usize = 0;
    while i < 20
        invariant
            0 <= i <= 20,
            forall|j: int| 0 <= j < i ==> a.0[j] == b.0[j],
        decreases 20 - i,
    {
        if a.0[i] != b.0[i] {
            assert(a.0@[i as int] != b.0@[i as int]);
            return false;
        }
        i = i + 1;
    }
    assert(a.0@ =~= b.0@);
    true
}

/// Integers of the same value are the same.
pub proof fn lemma_u256_injective(a: U256, b: U256)
    requires
        u256_val(a) == u256_val(b),
    ensures
        a == b,
{
    let ha = a.0[2] as nat + pow64() * a.0[3] as nat;
    let hb = b.0[2] as nat + pow64() * b.0[3] as nat;
    lemma_split_order(a.0[2] as nat, a.0[3] as nat, b.0[2] as nat, b.0[3] as nat);
    lemma_split_order(a.0[1] as nat, ha, b.0[1] as nat, hb);
    lemma_split_order(a.0[0] as nat, a.0[1] as nat + pow64() * ha, b.0[0] as nat, b.0[1] as nat + pow64() * hb);
    assert(a.0 =~= b.0);
}

}
