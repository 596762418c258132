//! Prices of tokens in the native token, as an auction gives them: a price
//! of `10^18` stands for one native unit per token unit.
use vstd::prelude::*;

use crate::bignat::{nat_div, nat_from_u256, nat_mul, BigNat};
use crate::uint::{h160_eq, u256_eq, u256_from_u64};
use primitive_types::{H160, U256};

verus! {

/// The denominator of every auction price.
pub const PRICE_UNIT: u64 = 1_000_000_000_000_000_000;

/// The placeholder address that stands for the chain's native token.
pub open spec fn buy_eth_spec() -> H160 {
    H160([0xeeu8; 20usize])
}

/// The placeholder address that stands for the chain's native token.
pub fn buy_eth_address() -> (r: H160)
    ensures
        r == buy_eth_spec(),
{
    H160([0xee; 20])
}

/// The price of `token`: the first entry that names it.
pub open spec fn price_in(prices: Seq<(H160, U256)>, token: Seq<u8>) -> Option<nat>
    decreases prices.len(),
{
    if prices.len() == 0 {
        None
    } else if prices[0].0.0@ == token {
        Some(crate::uint::u256_val(prices[0].1))
    } else {
        price_in(prices.drop_first(), token)
    }
}

/// What `try_from_auction_prices` makes of `prices`: the native token and the
/// placeholder get a price of one native unit where they have none.
pub open spec fn with_native_prices(
    prices: Seq<(H160, U256)>,
    native_token: H160,
) -> Seq<(H160, U256)> {
    let eth = buy_eth_spec();
    let with_native = if price_in(prices, native_token.0@) is Some {
        prices
    } else {
        prices.push((native_token, U256([PRICE_UNIT, 0, 0, 0])))
    };
    if price_in(with_native, eth.0@) is Some {
        with_native
    } else {
        with_native.push((eth, U256([PRICE_UNIT, 0, 0, 0])))
    }
}

/// Why a set of auction prices was refused.
#[derive(Debug, Clone, Copy, PartialEq, Eq)]
pub enum PriceError {
    /// The native token, or its placeholder, is priced at other than one
    /// native unit.
    NativePriceNotOne,
}

/// Token prices in the native token.
pub struct ExternalPrices {
    prices: Vec<(H160, U256)>,
}

impl ExternalPrices {
    pub closed spec fn entries(&self) -> Seq<(H160, U256)> {
        self.prices@
    }

    /// The auction price of `token`, over `PRICE_UNIT`.
    pub open spec fn price(&self, token: Seq<u8>) -> Option<nat> {
        price_in(self.entries(), token)
    }

    /// Takes auction prices. The native token and the placeholder address
    /// must be priced at `PRICE_UNIT` or not at all; a missing one gets that
    /// price.
    pub fn try_from_auction_prices(native_token: H160, prices: Vec<(H160, U256)>) -> (r: Result<
        ExternalPrices,
        PriceError,
    >)
        ensures
            r is Err <==> {
                ||| price_in(prices@, native_token.0@) matches Some(p) && p != PRICE_UNIT as nat
                ||| price_in(prices@, buy_eth_spec().0@) matches Some(p) && p != PRICE_UNIT as nat
            },
            r matches Ok(e) ==> e.entries() == with_native_prices(prices@, native_token),
    {
        let mut prices = prices;
        let ghost p0 = prices@;
        let unit = u256_from_u64(PRICE_UNIT);
        match find_price(&prices, &native_token) {
            Some(p) => {
                if !u256_eq(&p, &unit) {
                    return Err(PriceError::NativePriceNotOne);
                }
            },
            None => {
                prices.push((native_token, U256([PRICE_UNIT, 0, 0, 0])));
                proof {
                    lemma_price_in_push(p0, (native_token, U256([PRICE_UNIT, 0, 0, 0])));
                }
            },
        }
        let eth = buy_eth_address();
        match find_price(&prices, &eth) {
            Some(p) => {
                if !u256_eq(&p, &unit) {
                    proof {
                        lemma_price_in_push_other(p0, (native_token, U256([PRICE_UNIT, 0, 0, 0])), eth.0@);
                    }
                    return Err(PriceError::NativePriceNotOne);
                }
                proof {
                    lemma_price_in_push_other(p0, (native_token, U256([PRICE_UNIT, 0, 0, 0])), eth.0@);
                }
            },
            None => {
                proof {
                    lemma_price_in_push_other(p0, (native_token, U256([PRICE_UNIT, 0, 0, 0])), eth.0@);
                }
                prices.push((eth, U256([PRICE_UNIT, 0, 0, 0])));
            },
        }
        Ok(ExternalPrices { prices })
    }

    /// The auction price of `token`, if it has one.
    pub fn get(&self, token: &H160) -> (r: Option<U256>)
        ensures
            r is Some <==> self.price(token.0@) is Some,
            r matches Some(p) ==> self.price(token.0@) == Some(crate::uint::u256_val(p)),
    {
        find_price(&self.prices, token)
    }

    /// `numer / denom` units of `token` in the native token, rounded down:
    /// `numer * price / (denom * PRICE_UNIT)`. `None` where `token` has no
    /// price.
    pub fn native_amount_floor(&self, token: &H160, numer: &BigNat, denom: &BigNat) -> (r: Option<
        BigNat,
    >)
        requires
            denom.val() > 0,
        ensures
            r is Some <==> self.price(token.0@) is Some,
            r matches Some(n) ==> n.val() == numer.val() * self.price(token.0@).unwrap() / (
            denom.val() * (PRICE_UNIT as nat)),
    {
        match find_price(&self.prices, token) {
            None => None,
            Some(p) => {
                let price = nat_from_u256(&p);
                let unit = nat_from_u256(&u256_from_u64(PRICE_UNIT));
                let top = nat_mul(numer, &price);
                let bottom = nat_mul(denom, &unit);
                proof {
                    vstd::arithmetic::mul::lemma_mul_strictly_positive(denom.val() as int, PRICE_UNIT as int);
                }
                Some(nat_div(&top, &bottom))
            },
        }
    }
}

proof fn lemma_price_in_push(s: Seq<(H160, U256)>, e: (H160, U256))
    ensures
        price_in(s, e.0.0@) is None ==> price_in(s.push(e), e.0.0@) == Some(crate::uint::u256_val(e.1)),
    decreases s.len(),
{
    if s.len() > 0 {
        assert(s.push(e).drop_first() =~= s.drop_first().push(e));
        assert(s.push(e)[0] == s[0]);
        lemma_price_in_push(s.drop_first(), e);
    } else {
        assert(s.push(e)[0] == e);
    }
}

proof fn lemma_price_in_push_other(s: Seq<(H160, U256)>, e: (H160, U256), t: Seq<u8>)
    ensures
        e.0.0@ != t ==> price_in(s.push(e), t) == price_in(s, t),
        price_in(s, t) is Some ==> price_in(s.push(e), t) == price_in(s, t),
    decreases s.len(),
{
    if s.len() > 0 {
        assert(s.push(e).drop_first() =~= s.drop_first().push(e));
        assert(s.push(e)[0] == s[0]);
        lemma_price_in_push_other(s.drop_first(), e, t);
    } else {
        assert(s.push(e)[0] == e);
        assert(s.push(e).drop_first() =~= Seq::<(H160, U256)>::empty());
        assert(price_in(s.push(e).drop_first(), t) is None);
    }
}

/// The first price listed for `token`.
fn find_price(prices: &Vec<(H160, U256)>, token: &H160) -> (r: Option<U256>)
    ensures
        r is Some <==> price_in(prices@, token.0@) is Some,
        r matches Some(p) ==> price_in(prices@, token.0@) == Some(crate::uint::u256_val(p)),
{
    let mut i: usize = 0;
    assert(prices@.subrange(0, prices@.len() as int) =~= prices@);
    while i < prices.len()
        invariant
            0 <= i <= prices.len(),
            price_in(prices@, token.0@) == price_in(prices@.subrange(i as int, prices@.len() as int), token.0@),
        decreases prices.len() - i,
    {
        let ghost rest = prices@.subrange(i as int, prices@.len() as int);
        assert(rest.drop_first() =~= prices@.subrange(i + 1, prices@.len() as int));
        assert(rest[0] == prices@[i as int]);
        if h160_eq(&prices[i].0, token) {
            return Some(prices[i].1);
        }
        i = i + 1;
    }
    assert(prices@.subrange(i as int, prices@.len() as int).len() == 0);
    None
}

}
