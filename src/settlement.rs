//! A decoded settlement and the accounting done on it: the surplus that its
//! trades gave users and the fees that solvers charged, in the native token.
use vstd::prelude::*;

use crate::bignat::{nat_from_u256, nat_le, nat_mul, nat_sub, u256_from_nat, BigNat};
use crate::external_prices::{ExternalPrices, PRICE_UNIT};
use crate::uint::{h160_eq, u256_eq, u256_from_u64};
use primitive_types::{H160, U256};

verus! {

/// Number of bytes that may follow the arguments of a `settle` call to carry
/// an auction id.
pub const META_DATA_LEN: usize = 8;

/// The side of an order whose amount is fixed.
#[derive(Debug, Clone, Copy, PartialEq, Eq, Structural)]
pub enum OrderKind {
    Buy,
    Sell,
}

/// The 56-byte identifier of an order.
#[derive(Debug, Clone, Copy, PartialEq, Eq)]
pub struct OrderUid(pub [u8; 56]);

impl Default for OrderUid {
    fn default() -> (r: OrderUid)
        ensures
            r.0@ == Seq::new(56, |i: int| 0u8),
    {
        let r = OrderUid([0u8; 56]);
        assert(r.0@ =~= Seq::new(56, |i: int| 0u8));
        r
    }
}

/// The flags of a trade, packed in a 256-bit word: bit 0 is set for buy
/// orders, bit 1 for partially fillable ones.
#[derive(Debug, Clone, Copy, PartialEq, Eq)]
pub struct TradeFlags(pub U256);

impl TradeFlags {
    pub open spec fn kind(&self) -> OrderKind {
        if self.0.0[0] % 2 == 1 {
            OrderKind::Buy
        } else {
            OrderKind::Sell
        }
    }

    pub open spec fn is_partially_fillable(&self) -> bool {
        (self.0.0[0] / 2) % 2 == 1
    }

    /// The least significant byte.
    pub fn as_u8(&self) -> (r: u8)
        ensures
            r as u64 == self.0.0[0] % 256,
    {
        let w: u64 = self.0.0[0];
        assert(w & 0xff == w % 256) by (bit_vector);
        (w & 0xff) as u8
    }

    pub fn order_kind(&self) -> (r: OrderKind)
        ensures
            r == self.kind(),
    {
        let b = self.as_u8();
        assert(b & 1 == b % 2) by (bit_vector);
        if b & 0b1 == 0 {
            OrderKind::Sell
        } else {
            OrderKind::Buy
        }
    }

    pub fn partially_fillable(&self) -> (r: bool)
        ensures
            r == self.is_partially_fillable(),
    {
        let b = self.as_u8();
        assert(b & 2 == 0 <==> (b / 2) % 2 == 0) by (bit_vector);
        b & 0b10 != 0
    }
}

impl From<U256> for TradeFlags {
    fn from(value: U256) -> (r: TradeFlags)
        ensures
            r.0 == value,
    {
        TradeFlags(value)
    }
}

impl vstd::std_specs::convert::FromSpecImpl<U256> for TradeFlags {
    open spec fn obeys_from_spec() -> bool {
        true
    }

    open spec fn from_spec(v: U256) -> TradeFlags {
        TradeFlags(v)
    }
}

/// One trade of a settlement; its tokens are indices into the settlement's
/// token list.
#[derive(Debug, Clone, PartialEq, Eq)]
pub struct DecodedTrade {
    pub sell_token_index: U256,
    pub buy_token_index: U256,
    pub receiver: H160,
    pub sell_amount: U256,
    pub buy_amount: U256,
    pub valid_to: u32,
    pub app_data: [u8; 32],
    pub fee_amount: U256,
    pub flags: TradeFlags,
    pub executed_amount: U256,
    pub signature: Vec<u8>,
}

/// A call made by a settlement.
#[derive(Debug, Clone, PartialEq, Eq)]
pub struct DecodedInteraction {
    pub target: H160,
    pub value: U256,
    pub call_data: Vec<u8>,
}

/// The arguments of a `settle` call, and the metadata appended to them.
#[derive(Debug, Clone, PartialEq, Eq)]
pub struct DecodedSettlement {
    pub tokens: Vec<H160>,
    pub clearing_prices: Vec<U256>,
    pub trades: Vec<DecodedTrade>,
    pub interactions: [Vec<DecodedInteraction>; 3],
    /// Bytes appended to the call data that tie the settlement to an
    /// auction.
    pub metadata: Option<[u8; 8]>,
}

/// One fill of an order, as recorded when the settlement was observed.
#[derive(Debug, Clone)]
pub struct OrderExecution {
    pub order_uid: OrderUid,
    pub executed_solver_fee: Option<U256>,
    pub sell_token: H160,
    pub buy_token: H160,
    pub sell_amount: U256,
    pub buy_amount: U256,
    pub executed_amount: U256,
    /// The signature as the settlement contract receives it.
    pub signature: Vec<u8>,
    /// Set for limit orders, whose fee the solver chooses.
    pub solver_determines_fee: bool,
}

/// The fee of one order, in its sell token and in the native token.
#[derive(Debug, Clone)]
pub struct Fees {
    pub order: OrderUid,
    pub sell: U256,
    pub native: U256,
}

impl Fees {
    /// `(order, in sell token, in native token)`.
    pub open spec fn view(&self) -> (OrderUid, nat, nat) {
        (self.order, crate::uint::u256_val(self.sell), crate::uint::u256_val(self.native))
    }
}

/// A non-negative fraction `numer / denom` with `denom > 0`.
pub struct Fraction {
    pub numer: BigNat,
    pub denom: BigNat,
}

pub open spec fn sat_add(a: nat, b: nat) -> nat {
    if a + b < crate::uint::u256_modulus() {
        a + b
    } else {
        crate::uint::u256_max()
    }
}

impl DecodedTrade {
    /// The execution belongs to this trade: same signature and, for a
    /// partially fillable order, the same executed amount.
    pub open spec fn matches(&self, order: OrderExecution) -> bool {
        &&& self.signature@ == order.signature@
        &&& (!self.flags.is_partially_fillable() || crate::uint::u256_val(self.executed_amount) == crate::uint::u256_val(
            order.executed_amount,
        ))
    }

    pub fn matches_execution(&self, order: &OrderExecution) -> (r: bool)
        ensures
            r == self.matches(*order),
    {
        let matches_order = bytes_eq(&self.signature, &order.signature);
        // the executed amount of a fill-or-kill order is ignored on chain
        let matches_execution = !self.flags.partially_fillable() || u256_eq(
            &self.executed_amount,
            &order.executed_amount,
        );
        matches_order && matches_execution
    }
}

pub fn bytes_eq(a: &Vec<u8>, b: &Vec<u8>) -> (r: bool)
    ensures
        r == (a@ == b@),
{
    if a.len() != b.len() {
        return false;
    }
    let mut i: usize = 0;
    while i < a.len()
        invariant
            0 <= i <= a.len(),
            a.len() == b.len(),
            forall|j: int| 0 <= j < i ==> a@[j] == b@[j],
        decreases a.len() - i,
    {
        if a[i] != b[i] {
            return false;
        }
        i = i + 1;
    }
    assert(a@ =~= b@);
    true
}

/// `x` as an index below `len`, if it is one.
pub fn u256_index(x: &U256, len: usize) -> (r: Option<usize>)
    ensures
        r is Some <==> crate::uint::u256_val(*x) < len,
        r matches Some(i) ==> i as nat == crate::uint::u256_val(*x),
{
    let ghost b = crate::uint::pow64();
    let ghost rest = x.0[1] as nat + b * (x.0[2] as nat + b * x.0[3] as nat);
    assert(crate::uint::u256_val(*x) == x.0[0] as nat + b * rest);
    if x.0[1] == 0 && x.0[2] == 0 && x.0[3] == 0 {
        assert(rest == 0);
        if (x.0[0] as u128) < (len as u128) {
            Some(x.0[0] as usize)
        } else {
            None
        }
    } else {
        assert(rest > 0);
        assert(b * rest >= b) by (nonlinear_arith)
            requires rest > 0;
        assert(len < b);
        None
    }
}

/// Surplus of a sell order, as `(numer, denom)`: what the executed sell
/// amount is worth at the sell token's price, less what the limit buy amount
/// for it is worth at the buy token's price. `None` where either limit is
/// zero or the surplus is negative.
pub open spec fn sell_order_surplus_spec(sp: nat, bp: nat, sl: nat, bl: nat, exec: nat) -> Option<
    (nat, nat),
> {
    if sl == 0 || bl == 0 {
        None
    } else if exec * sp * sl < exec * bl * bp {
        None
    } else {
        Some(((exec * sp * sl - exec * bl * bp) as nat, sl))
    }
}

/// Surplus of a buy order, as `(numer, denom)`: what the limit sell amount
/// for the executed buy amount is worth at the sell token's price, less what
/// the executed buy amount is worth at the buy token's price. `None` where
/// either limit is zero or the surplus is negative.
pub open spec fn buy_order_surplus_spec(sp: nat, bp: nat, sl: nat, bl: nat, exec: nat) -> Option<
    (nat, nat),
> {
    if sl == 0 || bl == 0 {
        None
    } else if exec * sl * sp < exec * bp * bl {
        None
    } else {
        Some(((exec * sl * sp - exec * bp * bl) as nat, bl))
    }
}

pub open spec fn trade_surplus_spec(
    kind: OrderKind,
    sl: nat,
    bl: nat,
    exec: nat,
    sp: nat,
    bp: nat,
) -> Option<(nat, nat)> {
    match kind {
        OrderKind::Buy => buy_order_surplus_spec(sp, bp, sl, bl, exec),
        OrderKind::Sell => sell_order_surplus_spec(sp, bp, sl, bl, exec),
    }
}

pub open spec fn fraction_is(f: Fraction, v: (nat, nat)) -> bool {
    f.numer.val() == v.0 && f.denom.val() == v.1
}

/// The surplus of a trade in the reference unit of the clearing prices, as
/// an exact fraction.
pub fn trade_surplus(
    kind: OrderKind,
    sell_amount: &U256,
    buy_amount: &U256,
    executed_amount: &U256,
    sell_token_price: &U256,
    buy_token_price: &U256,
) -> (r: Option<Fraction>)
    ensures
        r is Some <==> trade_surplus_spec(
            kind,
            crate::uint::u256_val(*sell_amount),
            crate::uint::u256_val(*buy_amount),
            crate::uint::u256_val(*executed_amount),
            crate::uint::u256_val(*sell_token_price),
            crate::uint::u256_val(*buy_token_price),
        ) is Some,
        r matches Some(f) ==> fraction_is(
            f,
            trade_surplus_spec(
                kind,
                crate::uint::u256_val(*sell_amount),
                crate::uint::u256_val(*buy_amount),
                crate::uint::u256_val(*executed_amount),
                crate::uint::u256_val(*sell_token_price),
                crate::uint::u256_val(*buy_token_price),
            ).unwrap(),
        ),
{
    let sp = nat_from_u256(sell_token_price);
    let bp = nat_from_u256(buy_token_price);
    let sl = nat_from_u256(sell_amount);
    let bl = nat_from_u256(buy_amount);
    let exec = nat_from_u256(executed_amount);
    match kind {
        OrderKind::Buy => buy_order_surplus(&sp, &bp, &sl, &bl, &exec),
        OrderKind::Sell => sell_order_surplus(&sp, &bp, &sl, &bl, &exec),
    }
}

/// See `buy_order_surplus_spec`.
pub fn buy_order_surplus(
    sell_token_price: &BigNat,
    buy_token_price: &BigNat,
    sell_amount_limit: &BigNat,
    buy_amount_limit: &BigNat,
    executed_buy_amount: &BigNat,
) -> (r: Option<Fraction>)
    ensures
        r is Some <==> buy_order_surplus_spec(
            sell_token_price.val(),
            buy_token_price.val(),
            sell_amount_limit.val(),
            buy_amount_limit.val(),
            executed_buy_amount.val(),
        ) is Some,
        r matches Some(f) ==> fraction_is(
            f,
            buy_order_surplus_spec(
                sell_token_price.val(),
                buy_token_price.val(),
                sell_amount_limit.val(),
                buy_amount_limit.val(),
                executed_buy_amount.val(),
            ).unwrap(),
        ),
{
    if buy_amount_limit.is_zero() || sell_amount_limit.is_zero() {
        return None;
    }
    let limit_sell = nat_mul(&nat_mul(executed_buy_amount, sell_amount_limit), sell_token_price);
    let paid = nat_mul(&nat_mul(executed_buy_amount, buy_token_price), buy_amount_limit);
    if !nat_le(&paid, &limit_sell) {
        return None;
    }
    let numer = nat_sub(&limit_sell, &paid);
    let denom = buy_amount_limit.duplicate();
    Some(Fraction { numer, denom })
}

/// See `sell_order_surplus_spec`.
pub fn sell_order_surplus(
    sell_token_price: &BigNat,
    buy_token_price: &BigNat,
    sell_amount_limit: &BigNat,
    buy_amount_limit: &BigNat,
    executed_sell_amount: &BigNat,
) -> (r: Option<Fraction>)
    ensures
        r is Some <==> sell_order_surplus_spec(
            sell_token_price.val(),
            buy_token_price.val(),
            sell_amount_limit.val(),
            buy_amount_limit.val(),
            executed_sell_amount.val(),
        ) is Some,
        r matches Some(f) ==> fraction_is(
            f,
            sell_order_surplus_spec(
                sell_token_price.val(),
                buy_token_price.val(),
                sell_amount_limit.val(),
                buy_amount_limit.val(),
                executed_sell_amount.val(),
            ).unwrap(),
        ),
{
    if sell_amount_limit.is_zero() || buy_amount_limit.is_zero() {
        return None;
    }
    let proceeds = nat_mul(&nat_mul(executed_sell_amount, sell_token_price), sell_amount_limit);
    let limit_buy = nat_mul(&nat_mul(executed_sell_amount, buy_amount_limit), buy_token_price);
    if !nat_le(&limit_buy, &proceeds) {
        return None;
    }
    let numer = nat_sub(&proceeds, &limit_buy);
    let denom = sell_amount_limit.duplicate();
    Some(Fraction { numer, denom })
}

/// The surplus of `trade` in the native token, rounded down; `None` where a
/// price or token is missing, the clearing price of the limited side is
/// zero, the surplus is negative or the result does not fit 256 bits.
pub open spec fn surplus_spec(
    trade: DecodedTrade,
    tokens: Seq<H160>,
    clearing_prices: Seq<U256>,
    external_prices: ExternalPrices,
) -> Option<nat> {
    let si = crate::uint::u256_val(trade.sell_token_index);
    let bi = crate::uint::u256_val(trade.buy_token_index);
    if si >= clearing_prices.len() || bi >= clearing_prices.len() {
        None
    } else {
        let sp = crate::uint::u256_val(clearing_prices[si as int]);
        let bp = crate::uint::u256_val(clearing_prices[bi as int]);
        let kind = trade.flags.kind();
        let side_price = if kind == OrderKind::Sell { bp } else { sp };
        let side_token = if kind == OrderKind::Sell { bi } else { si };
        if side_price == 0 {
            None
        } else {
            match trade_surplus_spec(
                kind,
                crate::uint::u256_val(trade.sell_amount),
                crate::uint::u256_val(trade.buy_amount),
                crate::uint::u256_val(trade.executed_amount),
                sp,
                bp,
            ) {
                None => None,
                Some(s) => if side_token >= tokens.len() {
                    None
                } else {
                    match external_prices.price(tokens[side_token as int].0@) {
                        None => None,
                        Some(p) => {
                            let v = s.0 * p / (s.1 * side_price * (PRICE_UNIT as nat));
                            if v < crate::uint::u256_modulus() {
                                Some(v)
                            } else {
                                None
                            }
                        },
                    }
                },
            }
        }
    }
}

/// See `surplus_spec`.
pub fn surplus(
    trade: &DecodedTrade,
    tokens: &Vec<H160>,
    clearing_prices: &Vec<U256>,
    external_prices: &ExternalPrices,
) -> (r: Option<U256>)
    ensures
        r is Some <==> surplus_spec(*trade, tokens@, clearing_prices@, *external_prices) is Some,
        r matches Some(v) ==> crate::uint::u256_val(v) == surplus_spec(
            *trade,
            tokens@,
            clearing_prices@,
            *external_prices,
        ).unwrap(),
{
    let si = match u256_index(&trade.sell_token_index, clearing_prices.len()) {
        Some(i) => i,
        None => return None,
    };
    let bi = match u256_index(&trade.buy_token_index, clearing_prices.len()) {
        Some(i) => i,
        None => return None,
    };
    let sell_price = clearing_prices[si];
    let buy_price = clearing_prices[bi];
    let kind = trade.flags.order_kind();
    let (side_price, side_token) = match kind {
        OrderKind::Sell => (buy_price, bi),
        OrderKind::Buy => (sell_price, si),
    };
    if crate::uint::u256_is_zero(&side_price) {
        return None;
    }
    let s = match trade_surplus(
        kind,
        &trade.sell_amount,
        &trade.buy_amount,
        &trade.executed_amount,
        &sell_price,
        &buy_price,
    ) {
        Some(s) => s,
        None => return None,
    };
    if side_token >= tokens.len() {
        return None;
    }
    let side = nat_from_u256(&side_price);
    let denom = nat_mul(&s.denom, &side);
    proof {
        vstd::arithmetic::mul::lemma_mul_strictly_positive(s.denom.val() as int, side.val() as int);
        vstd::arithmetic::mul::lemma_mul_is_associative(s.denom.val() as int, side.val() as int, PRICE_UNIT as int);
    }
    let native = match external_prices.native_amount_floor(&tokens[side_token], &s.numer, &denom) {
        Some(n) => n,
        None => return None,
    };
    u256_from_nat(&native)
}

impl DecodedSettlement {
    /// The summed surplus of the first `n` trades, each counted as zero where
    /// it cannot be computed; the sum stops at `U256::MAX`.
    pub open spec fn total_surplus_upto(&self, external_prices: ExternalPrices, n: nat) -> nat
        decreases n,
    {
        if n == 0 {
            0
        } else {
            let prev = self.total_surplus_upto(external_prices, (n - 1) as nat);
            let s = match surplus_spec(
                self.trades@[n - 1],
                self.tokens@,
                self.clearing_prices@,
                external_prices,
            ) {
                Some(v) => v,
                None => 0,
            };
            sat_add(prev, s)
        }
    }

    /// The total surplus of the settlement's trades in the native token.
    pub fn total_surplus(&self, external_prices: &ExternalPrices) -> (r: U256)
        ensures
            crate::uint::u256_val(r) == self.total_surplus_upto(*external_prices, self.trades@.len()),
    {
        let mut acc = u256_from_u64(0);
        let mut i: usize = 0;
        while i < self.trades.len()
            invariant
                0 <= i <= self.trades.len(),
                crate::uint::u256_val(acc) == self.total_surplus_upto(*external_prices, i as nat),
            decreases self.trades.len() - i,
        {
            let s = match surplus(&self.trades[i], &self.tokens, &self.clearing_prices, external_prices) {
                Some(s) => s,
                None => u256_from_u64(0),
            };
            acc = acc.saturating_add(s);
            i = i + 1;
        }
        acc
    }
}

/// Index of the first occurrence of `token`.
pub open spec fn first_index(tokens: Seq<H160>, token: H160) -> Option<nat>
    decreases tokens.len(),
{
    if tokens.len() == 0 {
        None
    } else if tokens[0].0@ == token.0@ {
        Some(0)
    } else {
        match first_index(tokens.drop_first(), token) {
            Some(i) => Some(i + 1),
            None => None,
        }
    }
}

/// `a * b / c` in 256-bit checked arithmetic.
pub open spec fn checked_mul_div(a: nat, b: nat, c: nat) -> Option<nat> {
    if a * b >= crate::uint::u256_modulus() || c == 0 {
        None
    } else {
        Some(a * b / c)
    }
}

/// The fee of a buy order, in its sell token: the sell amount required at
/// the adjusted prices less that at the uniform prices.
pub open spec fn buy_fee_spec(exec: nat, adj_sell: nat, adj_buy: nat, uni_sell: nat, uni_buy: nat) -> Option<nat> {
    match (checked_mul_div(exec, adj_buy, adj_sell), checked_mul_div(exec, uni_buy, uni_sell)) {
        (Some(at_adjusted), Some(at_uniform)) => if at_uniform <= at_adjusted {
            Some((at_adjusted - at_uniform) as nat)
        } else {
            None
        },
        _ => None,
    }
}

/// The fee of a sell order, in its sell token: the executed amount less the
/// sell amount that the received buy amount needs at the uniform prices.
pub open spec fn sell_fee_spec(exec: nat, adj_sell: nat, adj_buy: nat, uni_sell: nat, uni_buy: nat) -> Option<nat> {
    match checked_mul_div(exec, adj_sell, adj_buy) {
        Some(received) => match checked_mul_div(received, uni_buy, uni_sell) {
            Some(needed) => if needed <= exec {
                Some((exec - needed) as nat)
            } else {
                None
            },
            None => None,
        },
        None => None,
    }
}

impl DecodedSettlement {
    /// The fee that the solver charged for `order`, in its sell token: the
    /// recorded one, or else what the gap between the uniform clearing prices
    /// (those of the order's tokens) and the adjusted ones (those at the
    /// trade's indices) implies.
    pub open spec fn solver_fee_spec(&self, order: OrderExecution, trade: DecodedTrade) -> Option<nat> {
        let prices = self.clearing_prices@;
        match order.executed_solver_fee {
            Some(f) => Some(crate::uint::u256_val(f)),
            None => match (first_index(self.tokens@, order.sell_token), first_index(self.tokens@, order.buy_token)) {
                (Some(us), Some(ub)) => {
                    let asi = crate::uint::u256_val(trade.sell_token_index);
                    let abi = crate::uint::u256_val(trade.buy_token_index);
                    if us >= prices.len() || ub >= prices.len() || asi >= prices.len() || abi >= prices.len() {
                        None
                    } else {
                        let exec = crate::uint::u256_val(trade.executed_amount);
                        let us_p = crate::uint::u256_val(prices[us as int]);
                        let ub_p = crate::uint::u256_val(prices[ub as int]);
                        let as_p = crate::uint::u256_val(prices[asi as int]);
                        let ab_p = crate::uint::u256_val(prices[abi as int]);
                        match trade.flags.kind() {
                            OrderKind::Buy => buy_fee_spec(exec, as_p, ab_p, us_p, ub_p),
                            OrderKind::Sell => sell_fee_spec(exec, as_p, ab_p, us_p, ub_p),
                        }
                    }
                },
                _ => None,
            },
        }
    }

    /// The fee as `(in sell token, in native token rounded down)`.
    pub open spec fn fee_spec(&self, external_prices: ExternalPrices, order: OrderExecution, trade: DecodedTrade) -> Option<(nat, nat)> {
        match self.solver_fee_spec(order, trade) {
            None => None,
            Some(f) => match external_prices.price(order.sell_token.0@) {
                None => None,
                Some(p) => {
                    let native = f * p / (PRICE_UNIT as nat);
                    if native < crate::uint::u256_modulus() {
                        Some((f, native))
                    } else {
                        None
                    }
                },
            },
        }
    }

    /// See `fee_spec`.
    pub fn fee(&self, external_prices: &ExternalPrices, order: &OrderExecution, trade: &DecodedTrade) -> (r: Option<Fees>)
        ensures
            r is Some <==> self.fee_spec(*external_prices, *order, *trade) is Some,
            r matches Some(f) ==> {
                &&& f.order == order.order_uid
                &&& (crate::uint::u256_val(f.sell), crate::uint::u256_val(f.native)) == self.fee_spec(*external_prices, *order, *trade).unwrap()
            },
    {
        let solver_fee = match order.executed_solver_fee {
            Some(f) => f,
            None => match self.computed_solver_fee(order, trade) {
                Some(f) => f,
                None => return None,
            },
        };
        let numer = nat_from_u256(&solver_fee);
        let one = BigNat::from_u32(1);
        let native = match external_prices.native_amount_floor(&order.sell_token, &numer, &one) {
            Some(n) => n,
            None => return None,
        };
        match u256_from_nat(&native) {
            Some(n) => Some(Fees { order: order.order_uid, sell: solver_fee, native: n }),
            None => None,
        }
    }

    fn computed_solver_fee(&self, order: &OrderExecution, trade: &DecodedTrade) -> (r: Option<U256>)
        requires
            order.executed_solver_fee is None,
        ensures
            r is Some <==> self.solver_fee_spec(*order, *trade) is Some,
            r matches Some(f) ==> crate::uint::u256_val(f) == self.solver_fee_spec(*order, *trade).unwrap(),
    {
        let n = self.clearing_prices.len();
        let us = match position(&self.tokens, &order.sell_token) {
            Some(i) => i,
            None => return None,
        };
        let ub = match position(&self.tokens, &order.buy_token) {
            Some(i) => i,
            None => return None,
        };
        if us >= n || ub >= n {
            return None;
        }
        let asi = match u256_index(&trade.sell_token_index, n) {
            Some(i) => i,
            None => return None,
        };
        let abi = match u256_index(&trade.buy_token_index, n) {
            Some(i) => i,
            None => return None,
        };
        let uniform_sell_price = self.clearing_prices[us];
        let uniform_buy_price = self.clearing_prices[ub];
        let adjusted_sell_price = self.clearing_prices[asi];
        let adjusted_buy_price = self.clearing_prices[abi];
        let exec = trade.executed_amount;
        match trade.flags.order_kind() {
            OrderKind::Buy => {
                let required = match checked_mul_div_u256(exec, adjusted_buy_price, adjusted_sell_price) {
                    Some(v) => v,
                    None => return None,
                };
                let required_with_ucp = match checked_mul_div_u256(exec, uniform_buy_price, uniform_sell_price) {
                    Some(v) => v,
                    None => return None,
                };
                required.checked_sub(required_with_ucp)
            },
            OrderKind::Sell => {
                let received = match checked_mul_div_u256(exec, adjusted_sell_price, adjusted_buy_price) {
                    Some(v) => v,
                    None => return None,
                };
                let needed_with_ucp = match checked_mul_div_u256(received, uniform_buy_price, uniform_sell_price) {
                    Some(v) => v,
                    None => return None,
                };
                exec.checked_sub(needed_with_ucp)
            },
        }
    }
}

fn checked_mul_div_u256(a: U256, b: U256, c: U256) -> (r: Option<U256>)
    ensures
        r is Some <==> checked_mul_div(crate::uint::u256_val(a), crate::uint::u256_val(b), crate::uint::u256_val(c)) is Some,
        r matches Some(v) ==> crate::uint::u256_val(v) == checked_mul_div(crate::uint::u256_val(a), crate::uint::u256_val(b), crate::uint::u256_val(c)).unwrap(),
{
    match a.checked_mul(b) {
        Some(p) => p.checked_div(c),
        None => None,
    }
}

/// Index of the first occurrence of `token` in `tokens`.
pub fn position(tokens: &Vec<H160>, token: &H160) -> (r: Option<usize>)
    ensures
        r is Some <==> first_index(tokens@, *token) is Some,
        r matches Some(i) ==> i as nat == first_index(tokens@, *token).unwrap() && i < tokens@.len(),
{
    let mut i: usize = 0;
    while i < tokens.len()
        invariant
            0 <= i <= tokens.len(),
            forall|j: int| 0 <= j < i ==> tokens@[j].0@ != token.0@,
        decreases tokens.len() - i,
    {
        if h160_eq(&tokens[i], token) {
            proof {
                lemma_first_index_at(tokens@, *token, i as int);
            }
            return Some(i);
        }
        i = i + 1;
    }
    proof {
        lemma_first_index_none(tokens@, *token);
    }
    None
}

proof fn lemma_first_index_at(s: Seq<H160>, t: H160, i: int)
    requires
        0 <= i < s.len(),
        s[i].0@ == t.0@,
        forall|j: int| 0 <= j < i ==> s[j].0@ != t.0@,
    ensures
        first_index(s, t) == Some(i as nat),
    decreases i,
{
    if i > 0 {
        assert forall|j: int| 0 <= j < i - 1 implies s.drop_first()[j].0@ != t.0@ by {
            assert(s.drop_first()[j] == s[j + 1]);
        }
        assert(s.drop_first()[i - 1] == s[i]);
        lemma_first_index_at(s.drop_first(), t, i - 1);
    }
}

proof fn lemma_first_index_none(s: Seq<H160>, t: H160)
    requires
        forall|j: int| 0 <= j < s.len() ==> s[j].0@ != t.0@,
    ensures
        first_index(s, t) is None,
    decreases s.len(),
{
    if s.len() > 0 {
        assert forall|j: int| 0 <= j < s.len() - 1 implies s.drop_first()[j].0@ != t.0@ by {
            assert(s.drop_first()[j] == s[j + 1]);
        }
        lemma_first_index_none(s.drop_first(), t);
    }
}

/// Index of the first execution that belongs to `trade`.
pub open spec fn first_match(orders: Seq<OrderExecution>, trade: DecodedTrade) -> Option<nat>
    decreases orders.len(),
{
    if orders.len() == 0 {
        None
    } else if trade.matches(orders[0]) {
        Some(0)
    } else {
        match first_match(orders.drop_first(), trade) {
            Some(i) => Some(i + 1),
            None => None,
        }
    }
}

/// `Vec::swap_remove` on a sequence.
pub open spec fn swap_removed<T>(s: Seq<T>, i: int) -> Seq<T> {
    s.update(i, s.last()).drop_last()
}

/// The state after the first `n` trades have each taken the first execution
/// that belongs to them: the executions left, their positions in the
/// list handed in, and the positions of the executions taken, in order.
pub open spec fn execution_walk(
    trades: Seq<DecodedTrade>,
    orders: Seq<OrderExecution>,
    n: nat,
) -> (Seq<OrderExecution>, Seq<int>, Seq<int>)
    decreases n,
{
    if n == 0 {
        (orders, Seq::new(orders.len(), |i: int| i), Seq::empty())
    } else {
        let (left, positions, taken) = execution_walk(trades, orders, (n - 1) as nat);
        if n - 1 >= trades.len() {
            (left, positions, taken)
        } else {
            match first_match(left, trades[n - 1]) {
                None => (left, positions, taken),
                Some(i) => (
                    swap_removed(left, i as int),
                    swap_removed(positions, i as int),
                    taken.push(positions[i as int]),
                ),
            }
        }
    }
}

impl DecodedSettlement {
    /// The fee of trade `n - 1` added to that of the trades before it, where
    /// an execution belongs to it; a fee that cannot be computed counts as
    /// zero and the sum stops at `U256::MAX`.
    pub open spec fn total_fees_upto(
        &self,
        external_prices: ExternalPrices,
        orders: Seq<OrderExecution>,
        n: nat,
    ) -> nat
        decreases n,
    {
        if n == 0 {
            0
        } else {
            let prev = self.total_fees_upto(external_prices, orders, (n - 1) as nat);
            let left = execution_walk(self.trades@, orders, (n - 1) as nat).0;
            let trade = self.trades@[n - 1];
            match first_match(left, trade) {
                None => prev,
                Some(i) => {
                    let fee = match self.fee_spec(external_prices, left[i as int], trade) {
                        Some(f) => f.1,
                        None => 0,
                    };
                    sat_add(prev, fee)
                },
            }
        }
    }

    /// The fees of the first `n` trades whose execution has a fee chosen by
    /// the solver, as `(order, in sell token, in native token)`.
    pub open spec fn order_executions_upto(
        &self,
        external_prices: ExternalPrices,
        orders: Seq<OrderExecution>,
        n: nat,
    ) -> Seq<(OrderUid, nat, nat)>
        decreases n,
    {
        if n == 0 {
            Seq::empty()
        } else {
            let prev = self.order_executions_upto(external_prices, orders, (n - 1) as nat);
            let left = execution_walk(self.trades@, orders, (n - 1) as nat).0;
            let trade = self.trades@[n - 1];
            match first_match(left, trade) {
                None => prev,
                Some(i) => if !left[i as int].solver_determines_fee {
                    prev
                } else {
                    match self.fee_spec(external_prices, left[i as int], trade) {
                        Some(f) => prev.push((left[i as int].order_uid, f.0, f.1)),
                        None => prev,
                    }
                },
            }
        }
    }

    /// The total solver fee of the settlement in the native token. Each
    /// trade takes the first execution in `orders` that belongs to it, and
    /// each execution is taken at most once.
    pub fn total_fees(&self, external_prices: &ExternalPrices, orders: Vec<OrderExecution>) -> (r: U256)
        ensures
            crate::uint::u256_val(r) == self.total_fees_upto(*external_prices, orders@, self.trades@.len()),
    {
        let ghost orders0 = orders@;
        let mut orders = orders;
        let mut acc = u256_from_u64(0);
        let mut i: usize = 0;
        while i < self.trades.len()
            invariant
                0 <= i <= self.trades.len(),
                orders@ == execution_walk(self.trades@, orders0, i as nat).0,
                crate::uint::u256_val(acc) == self.total_fees_upto(*external_prices, orders0, i as nat),
            decreases self.trades.len() - i,
        {
            let trade = &self.trades[i];
            match find_match(&orders, trade) {
                Some(k) => {
                    let order = orders.swap_remove(k);
                    let fee = match self.fee(external_prices, &order, trade) {
                        Some(f) => f.native,
                        None => u256_from_u64(0),
                    };
                    acc = acc.saturating_add(fee);
                },
                None => {},
            }
            i = i + 1;
        }
        acc
    }

    /// The fees of the executions whose fee the solver chose (limit orders),
    /// in the order of the trades, matched as `total_fees` matches them.
    pub fn order_executions(&self, external_prices: &ExternalPrices, orders: Vec<OrderExecution>) -> (r: Vec<Fees>)
        ensures
            r@.map_values(|f: Fees| f.view()) == self.order_executions_upto(
                *external_prices,
                orders@,
                self.trades@.len(),
            ),
    {
        let ghost orders0 = orders@;
        let mut orders = orders;
        let mut result: Vec<Fees> = Vec::new();
        let mut i: usize = 0;
        while i < self.trades.len()
            invariant
                0 <= i <= self.trades.len(),
                orders@ == execution_walk(self.trades@, orders0, i as nat).0,
                result@.map_values(|f: Fees| f.view()) == self.order_executions_upto(
                    *external_prices,
                    orders0,
                    i as nat,
                ),
            decreases self.trades.len() - i,
        {
            let trade = &self.trades[i];
            match find_match(&orders, trade) {
                Some(k) => {
                    let order = orders.swap_remove(k);
                    if order.solver_determines_fee {
                        match self.fee(external_prices, &order, trade) {
                            Some(f) => {
                                let ghost before = result@;
                                result.push(f);
                                assert(result@.map_values(|f: Fees| f.view()) =~= before.map_values(
                                    |f: Fees| f.view(),
                                ).push(f.view()));
                            },
                            None => {},
                        }
                    }
                },
                None => {},
            }
            i = i + 1;
        }
        result
    }
}

/// Index of the first execution in `orders` that belongs to `trade`.
pub fn find_match(orders: &Vec<OrderExecution>, trade: &DecodedTrade) -> (r: Option<usize>)
    ensures
        r is Some <==> first_match(orders@, *trade) is Some,
        r matches Some(i) ==> i as nat == first_match(orders@, *trade).unwrap() && i < orders@.len(),
{
    let mut i: usize = 0;
    while i < orders.len()
        invariant
            0 <= i <= orders.len(),
            forall|j: int| 0 <= j < i ==> !trade.matches(orders@[j]),
        decreases orders.len() - i,
    {
        if trade.matches_execution(&orders[i]) {
            proof {
                lemma_first_match_at(orders@, *trade, i as int);
            }
            return Some(i);
        }
        i = i + 1;
    }
    proof {
        lemma_first_match_none(orders@, *trade);
    }
    None
}

proof fn lemma_first_match_at(s: Seq<OrderExecution>, t: DecodedTrade, i: int)
    requires
        0 <= i < s.len(),
        t.matches(s[i]),
        forall|j: int| 0 <= j < i ==> !t.matches(s[j]),
    ensures
        first_match(s, t) == Some(i as nat),
    decreases i,
{
    if i > 0 {
        assert forall|j: int| 0 <= j < i - 1 implies !t.matches(s.drop_first()[j]) by {
            assert(s.drop_first()[j] == s[j + 1]);
        }
        assert(s.drop_first()[i - 1] == s[i]);
        lemma_first_match_at(s.drop_first(), t, i - 1);
    }
}

proof fn lemma_first_match_none(s: Seq<OrderExecution>, t: DecodedTrade)
    requires
        forall|j: int| 0 <= j < s.len() ==> !t.matches(s[j]),
    ensures
        first_match(s, t) is None,
    decreases s.len(),
{
    if s.len() > 0 {
        assert forall|j: int| 0 <= j < s.len() - 1 implies !t.matches(s.drop_first()[j]) by {
            assert(s.drop_first()[j] == s[j + 1]);
        }
        lemma_first_match_none(s.drop_first(), t);
    }
}

proof fn lemma_first_match_bound(s: Seq<OrderExecution>, t: DecodedTrade)
    ensures
        first_match(s, t) matches Some(i) ==> i < s.len(),
    decreases s.len(),
{
    if s.len() > 0 {
        lemma_first_match_bound(s.drop_first(), t);
    }
}

/// What holds of every state of `execution_walk`.
pub open spec fn walk_invariant(orders: Seq<OrderExecution>, w: (Seq<OrderExecution>, Seq<int>, Seq<int>)) -> bool {
    let (left, positions, taken) = w;
    &&& left.len() == positions.len()
    &&& forall|k: int|
        0 <= k < positions.len() ==> 0 <= #[trigger] positions[k] < orders.len() && left[k] == orders[positions[k]]
    &&& forall|a: int, b: int| 0 <= a < b < positions.len() ==> positions[a] != positions[b]
    &&& forall|a: int| 0 <= a < taken.len() ==> 0 <= #[trigger] taken[a] < orders.len()
    &&& forall|a: int, b: int| 0 <= a < b < taken.len() ==> taken[a] != taken[b]
    &&& forall|a: int, k: int| 0 <= a < taken.len() && 0 <= k < positions.len() ==> taken[a] != positions[k]
}

proof fn lemma_walk_invariant(trades: Seq<DecodedTrade>, orders: Seq<OrderExecution>, n: nat)
    ensures
        walk_invariant(orders, execution_walk(trades, orders, n)),
    decreases n,
{
    if n > 0 {
        lemma_walk_invariant(trades, orders, (n - 1) as nat);
        let (left, positions, taken) = execution_walk(trades, orders, (n - 1) as nat);
        if n - 1 < trades.len() {
            lemma_first_match_bound(left, trades[n - 1]);
            if let Some(i) = first_match(left, trades[n - 1]) {
                let i = i as int;
                let last = positions.len() - 1;
                let np = swap_removed(positions, i);
                let nl = swap_removed(left, i);
                let nt = taken.push(positions[i]);
                assert forall|k: int| 0 <= k < np.len() implies np[k] == (if k == i {
                    positions[last]
                } else {
                    positions[k]
                }) && nl[k] == (if k == i {
                    left[last]
                } else {
                    left[k]
                }) by {}
                assert forall|k: int| 0 <= k < np.len() implies 0 <= #[trigger] np[k] < orders.len()
                    && nl[k] == orders[np[k]] by {
                    if k == i {
                        assert(0 <= positions[last] < orders.len());
                    } else {
                        assert(0 <= positions[k] < orders.len());
                    }
                }
                assert forall|a: int, b: int| 0 <= a < b < np.len() implies np[a] != np[b] by {
                    if a == i {
                        assert(positions[last] != positions[b]);
                    } else if b == i {
                        assert(positions[a] != positions[last]);
                    } else {
                        assert(positions[a] != positions[b]);
                    }
                }
                assert forall|a: int| 0 <= a < nt.len() implies 0 <= #[trigger] nt[a] < orders.len() by {
                    if a < taken.len() {
                        assert(nt[a] == taken[a]);
                    } else {
                        assert(nt[a] == positions[i]);
                    }
                }
                assert forall|a: int, b: int| 0 <= a < b < nt.len() implies nt[a] != nt[b] by {
                    if b < taken.len() {
                        assert(nt[a] == taken[a] && nt[b] == taken[b]);
                    } else {
                        assert(nt[a] == taken[a] && nt[b] == positions[i]);
                    }
                }
                assert forall|a: int, k: int| 0 <= a < nt.len() && 0 <= k < np.len() implies nt[a] != np[k] by {
                    let pk = if k == i { last } else { k };
                    assert(np[k] == positions[pk]);
                    if a < taken.len() {
                        assert(nt[a] == taken[a]);
                    } else {
                        assert(nt[a] == positions[i]);
                        assert(pk != i);
                    }
                }
            }
        }
    }
}

/// Each execution handed to `total_fees` or `order_executions` is taken by
/// at most one trade: the positions, in the list handed in, of the executions that the
/// trades take are distinct positions of `orders`.
pub proof fn lemma_each_execution_taken_at_most_once(settlement: DecodedSettlement, orders: Seq<OrderExecution>)
    ensures
        ({
            let taken = execution_walk(settlement.trades@, orders, settlement.trades@.len()).2;
            &&& forall|a: int| 0 <= a < taken.len() ==> 0 <= #[trigger] taken[a] < orders.len()
            &&& forall|a: int, b: int| 0 <= a < b < taken.len() ==> taken[a] != taken[b]
        }),
{
    lemma_walk_invariant(settlement.trades@, orders, settlement.trades@.len());
}

/// A trade with a zero sell limit or a zero buy limit has no surplus; a
/// trade that executed nothing, with both limits set, has a surplus of zero.
pub proof fn lemma_surplus_of_zero_limit_or_execution(
    kind: OrderKind,
    sell_limit: nat,
    buy_limit: nat,
    executed: nat,
    sell_price: nat,
    buy_price: nat,
)
    ensures
        sell_limit == 0 || buy_limit == 0 ==> trade_surplus_spec(
            kind,
            sell_limit,
            buy_limit,
            executed,
            sell_price,
            buy_price,
        ) is None,
        executed == 0 && sell_limit != 0 && buy_limit != 0 ==> (trade_surplus_spec(
            kind,
            sell_limit,
            buy_limit,
            executed,
            sell_price,
            buy_price,
        ) matches Some(v) && v.0 == 0),
{
    if executed == 0 {
        assert(executed * sell_price * sell_limit == 0);
        assert(executed * buy_limit * buy_price == 0);
        assert(executed * sell_limit * sell_price == 0);
        assert(executed * buy_price * buy_limit == 0);
    }
}

/// The execution that trade `n - 1` takes, whose fee `total_fees_upto` and
/// `order_executions_upto` count, is the one of `orders` at the position
/// that the walk records as taken by it; a trade that takes none records
/// none.
pub proof fn lemma_fee_uses_taken_execution(trades: Seq<DecodedTrade>, orders: Seq<OrderExecution>, n: nat)
    requires
        1 <= n <= trades.len(),
    ensures
        ({
            let (left, _, taken) = execution_walk(trades, orders, (n - 1) as nat);
            let taken_after = execution_walk(trades, orders, n).2;
            match first_match(left, trades[n - 1]) {
                Some(i) => taken_after.len() == taken.len() + 1 && left[i as int] == orders[taken_after.last()],
                None => taken_after == taken,
            }
        }),
{
    lemma_walk_invariant(trades, orders, (n - 1) as nat);
    let (left, positions, taken) = execution_walk(trades, orders, (n - 1) as nat);
    lemma_first_match_bound(left, trades[n - 1]);
    if let Some(i) = first_match(left, trades[n - 1]) {
        assert(execution_walk(trades, orders, n).2 == taken.push(positions[i as int]));
    }
}

}
