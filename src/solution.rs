//! Solutions as solvers propose them: their user trades, their clearing
//! prices with the native-token price filled in, the approvals they need,
//! and the small value types around them.
use vstd::prelude::*;

use crate::external_prices::buy_eth_address;
use crate::uint::h160_eq;
use primitive_types::{H160, U256};

verus! {

/// A token and an amount of it.
#[derive(Debug, Clone, Copy, PartialEq, Eq)]
pub struct Asset {
    pub token: H160,
    pub amount: U256,
}

/// Clearing prices of a solution, by token, in a unit the solver chose:
/// `amount_x * price_x == amount_y * price_y`. A token listed twice has the
/// first of its prices.
#[derive(Debug)]
pub struct ClearingPrices {
    prices: Vec<Asset>,
}

/// No token is listed twice.
pub open spec fn tokens_distinct(s: Seq<Asset>) -> bool {
    forall|i: int, j: int| #![trigger s[i], s[j]] 0 <= i < j < s.len() ==> s[i].token.0@ != s[j].token.0@
}

/// The first price listed for each token, in order.
pub open spec fn first_prices(s: Seq<Asset>) -> Seq<Asset>
    decreases s.len(),
{
    if s.len() == 0 {
        s
    } else {
        let prev = first_prices(s.drop_last());
        if exists|i: int| 0 <= i < prev.len() && (#[trigger] prev[i]).token.0@ == s.last().token.0@ {
            prev
        } else {
            prev.push(s.last())
        }
    }
}

impl ClearingPrices {
    #[verifier::type_invariant]
    spec fn distinct(&self) -> bool {
        tokens_distinct(self.prices@)
    }

    pub closed spec fn entries(&self) -> Seq<Asset> {
        self.prices@
    }

    /// The prices, keeping the first one listed for each token.
    pub fn new(prices: Vec<Asset>) -> (r: ClearingPrices)
        ensures
            r.entries() == first_prices(prices@),
    {
        let mut kept: Vec<Asset> = Vec::new();
        let mut i: usize = 0;
        assert(prices@.subrange(0, 0) =~= Seq::<Asset>::empty());
        while i < prices.len()
            invariant
                0 <= i <= prices@.len(),
                kept@ == first_prices(prices@.subrange(0, i as int)),
                tokens_distinct(kept@),
            decreases prices@.len() - i,
        {
            let a = prices[i];
            let ghost next = prices@.subrange(0, i + 1);
            assert(next.drop_last() =~= prices@.subrange(0, i as int));
            assert(next.last() == a);
            let mut listed = false;
            let mut k: usize = 0;
            while k < kept.len()
                invariant
                    0 <= k <= kept@.len(),
                    !listed ==> forall|j: int| 0 <= j < k ==> (#[trigger] kept@[j]).token.0@ != a.token.0@,
                    listed ==> exists|j: int| 0 <= j < kept@.len() && (#[trigger] kept@[j]).token.0@ == a.token.0@,
                decreases kept@.len() - k,
            {
                if !listed && h160_eq(&kept[k].token, &a.token) {
                    listed = true;
                    assert(kept@[k as int].token.0@ == a.token.0@);
                }
                k = k + 1;
            }
            if !listed {
                let ghost before = kept@;
                kept.push(a);
                proof {
                    assert(kept@ == before.push(a));
                    assert forall|x: int, y: int| #![trigger kept@[x], kept@[y]] 0 <= x < y < kept@.len() implies kept@[x].token.0@
                        != kept@[y].token.0@ by {
                        if y == kept@.len() - 1 {
                            assert(before[x].token.0@ != a.token.0@);
                        } else {
                            assert(before[x].token.0@ != before[y].token.0@);
                        }
                    }
                }
            }
            i = i + 1;
        }
        assert(prices@.subrange(0, prices@.len() as int) =~= prices@);
        ClearingPrices { prices: kept }
    }

    /// The prices; no token is listed twice.
    pub fn assets(&self) -> (r: &Vec<Asset>)
        ensures
            r@ == self.entries(),
            tokens_distinct(r@),
    {
        proof {
            use_type_invariant(self);
        }
        &self.prices
    }
}

/// The class of the order that a trade fills.
#[derive(Debug, Clone, Copy, PartialEq, Eq, Structural)]
pub enum OrderClass {
    Market,
    Limit,
    Liquidity,
}

/// A trade that fills an order of the auction.
#[derive(Debug, Clone, Copy, PartialEq, Eq)]
pub struct Fulfillment {
    pub class: OrderClass,
    pub sell_token: H160,
    pub buy_token: H160,
}

/// A trade of a solution.
#[derive(Debug, Clone, Copy, PartialEq, Eq)]
pub enum Trade {
    Fulfillment(Fulfillment),
    /// A just-in-time liquidity order of the solver.
    Jit,
}

/// A unique id of a solution, within one round of the competition.
#[derive(Debug, Clone, Copy, PartialEq, Eq, Hash)]
pub struct Id(pub u64);

impl From<u64> for Id {
    fn from(value: u64) -> (r: Id)
        ensures
            r.0 == value,
    {
        Id(value)
    }
}

impl vstd::std_specs::convert::FromSpecImpl<u64> for Id {
    open spec fn obeys_from_spec() -> bool {
        true
    }

    open spec fn from_spec(v: u64) -> Id {
        Id(v)
    }
}

/// The score of a solution, often called its objective value.
#[derive(Debug, Clone, Copy, PartialEq, Eq)]
pub struct Score(pub U256);

impl From<U256> for Score {
    fn from(value: U256) -> (r: Score)
        ensures
            r.0 == value,
    {
        Score(value)
    }
}

impl vstd::std_specs::convert::FromSpecImpl<U256> for Score {
    open spec fn obeys_from_spec() -> bool {
        true
    }

    open spec fn from_spec(v: U256) -> Score {
        Score(v)
    }
}

/// The risk, estimated by the solver, that the settlement reverts; it is
/// taken off the score.
#[derive(Debug, Clone, Copy, PartialEq, Eq)]
pub struct Risk(pub U256);

impl From<U256> for Risk {
    fn from(value: U256) -> (r: Risk)
        ensures
            r.0 == value,
    {
        Risk(value)
    }
}

impl vstd::std_specs::convert::FromSpecImpl<U256> for Risk {
    open spec fn obeys_from_spec() -> bool {
        true
    }

    open spec fn from_spec(v: U256) -> Risk {
        Risk(v)
    }
}

impl Risk {
    /// Two risks combined: their sum.
    pub fn merge(self, other: Risk) -> (r: Risk)
        requires
            crate::uint::u256_val(self.0) + crate::uint::u256_val(other.0) < crate::uint::u256_modulus(),
        ensures
            crate::uint::u256_val(r.0) == crate::uint::u256_val(self.0) + crate::uint::u256_val(other.0),
    {
        Risk(self.0.checked_add(other.0).unwrap())
    }
}

/// What can go wrong with a solution.
#[derive(Debug, Clone, Copy, PartialEq, Eq)]
pub enum Error {
    Blockchain,
    Boundary,
    /// An order buys the native token but there is no clearing price for its
    /// wrapped token.
    MissingWethClearingPrice,
    Simulation,
    /// Token amounts entering the settlement do not equal those leaving it.
    AssetFlow,
    /// The solution internalizes interactions with untrusted tokens.
    UntrustedInternalization,
    /// The solution fails to simulate without internalization.
    FailingInternalization,
    /// The solver account cannot pay for the gas.
    InsufficientBalance,
    /// Settlements of different solvers cannot be merged.
    DifferentSolvers,
}

/// A solution of a solver for an auction.
#[derive(Debug)]
pub struct Solution {
    pub id: Id,
    pub trades: Vec<Trade>,
    pub prices: ClearingPrices,
    /// The wrapped native token of the chain.
    pub weth: H160,
    pub risk: Risk,
}

/// Trades that fill orders of users: market and limit orders.
pub open spec fn user_trades(trades: Seq<Trade>) -> Seq<Fulfillment>
    decreases trades.len(),
{
    if trades.len() == 0 {
        Seq::empty()
    } else {
        let prev = user_trades(trades.drop_last());
        match trades.last() {
            Trade::Fulfillment(f) => if f.class != OrderClass::Liquidity {
                prev.push(f)
            } else {
                prev
            },
            Trade::Jit => prev,
        }
    }
}

/// The first price listed for `token`.
pub open spec fn price_of(prices: Seq<Asset>, token: Seq<u8>) -> Option<U256>
    decreases prices.len(),
{
    if prices.len() == 0 {
        None
    } else if prices[0].token.0@ == token {
        Some(prices[0].amount)
    } else {
        price_of(prices.drop_first(), token)
    }
}

/// `prices` without the entries of `token`.
pub open spec fn without_token(prices: Seq<Asset>, token: Seq<u8>) -> Seq<Asset>
    decreases prices.len(),
{
    if prices.len() == 0 {
        prices
    } else {
        let prev = without_token(prices.drop_last(), token);
        if prices.last().token.0@ == token {
            prev
        } else {
            prev.push(prices.last())
        }
    }
}

/// The trade sells or buys `token`.
pub open spec fn touches(f: Fulfillment, token: H160) -> bool {
    f.sell_token.0@ == token.0@ || f.buy_token.0@ == token.0@
}

/// The trade buys the native token.
pub open spec fn buys_native(f: Fulfillment) -> bool {
    f.buy_token.0@ == crate::external_prices::buy_eth_spec().0@
}

impl Solution {
    pub open spec fn buys_eth(&self) -> bool {
        exists|i: int| 0 <= i < user_trades(self.trades@).len() && buys_native(#[trigger] user_trades(self.trades@)[i])
    }

    pub open spec fn trades_weth(&self) -> bool {
        exists|i: int| 0 <= i < user_trades(self.trades@).len() && touches(#[trigger] user_trades(self.trades@)[i], self.weth)
    }

    /// The clearing prices to encode. Where a user order buys the native
    /// token, its placeholder gets the price of the wrapped token, which
    /// must be there; the wrapped token's own price is then left out unless
    /// a user trade sells or buys it.
    pub open spec fn prices_spec(&self) -> Result<Seq<Asset>, Error> {
        let prices = self.prices.entries();
        if self.buys_eth() {
            match price_of(prices, self.weth.0@) {
                None => Err(Error::MissingWethClearingPrice),
                Some(p) => {
                    let kept = if self.trades_weth() {
                        prices
                    } else {
                        without_token(prices, self.weth.0@)
                    };
                    Ok(kept.push(Asset { token: crate::external_prices::buy_eth_spec(), amount: p }))
                },
            }
        } else {
            Ok(prices)
        }
    }

    /// The trades that fill orders of users.
    pub fn user_trades(&self) -> (r: Vec<Fulfillment>)
        ensures
            r@ == user_trades(self.trades@),
    {
        let mut r: Vec<Fulfillment> = Vec::new();
        let mut i: usize = 0;
        assert(self.trades@.subrange(0, 0) =~= Seq::<Trade>::empty());
        while i < self.trades.len()
            invariant
                0 <= i <= self.trades@.len(),
                r@ == user_trades(self.trades@.subrange(0, i as int)),
            decreases self.trades@.len() - i,
        {
            let ghost next = self.trades@.subrange(0, i + 1);
            assert(next.drop_last() =~= self.trades@.subrange(0, i as int));
            assert(next.last() == self.trades@[i as int]);
            match self.trades[i] {
                Trade::Fulfillment(f) => {
                    if f.class != OrderClass::Liquidity {
                        r.push(f);
                    }
                },
                Trade::Jit => {},
            }
            i = i + 1;
        }
        assert(self.trades@.subrange(0, self.trades@.len() as int) =~= self.trades@);
        r
    }

    /// A solution without user trades is empty.
    pub fn is_empty(&self) -> (r: bool)
        ensures
            r == (user_trades(self.trades@).len() == 0),
    {
        self.user_trades().len() == 0
    }

    /// See `prices_spec`.
    pub fn prices(&self) -> (r: Result<Vec<Asset>, Error>)
        ensures
            match self.prices_spec() {
                Ok(s) => r matches Ok(v) && v@ == s,
                Err(e) => r == Err::<Vec<Asset>, Error>(e),
            },
    {
        let trades = self.user_trades();
        let eth = buy_eth_address();
        let mut buys_eth = false;
        let mut trades_weth = false;
        let mut i: usize = 0;
        while i < trades.len()
            invariant
                0 <= i <= trades@.len(),
                trades@ == user_trades(self.trades@),
                eth == crate::external_prices::buy_eth_spec(),
                buys_eth == exists|j: int| 0 <= j < i && buys_native(#[trigger] trades@[j]),
                trades_weth == exists|j: int| 0 <= j < i && touches(#[trigger] trades@[j], self.weth),
            decreases trades@.len() - i,
        {
            let t = trades[i];
            let ghost b0 = buys_eth;
            let ghost w0 = trades_weth;
            if h160_eq(&t.buy_token, &eth) {
                buys_eth = true;
            }
            if h160_eq(&t.sell_token, &self.weth) || h160_eq(&t.buy_token, &self.weth) {
                trades_weth = true;
            }
            proof {
                assert(trades@[i as int] == t);
                if buys_eth && !b0 {
                    assert(buys_native(trades@[i as int]));
                }
                if !buys_eth {
                    assert forall|j: int| 0 <= j < i + 1 implies !buys_native(#[trigger] trades@[j]) by {
                        if j < i {
                        }
                    }
                }
                if b0 {
                    let j = choose|j: int| 0 <= j < i && buys_native(#[trigger] trades@[j]);
                    assert(0 <= j < i + 1);
                }
                if trades_weth && !w0 {
                    assert(touches(trades@[i as int], self.weth));
                }
                if w0 {
                    let j = choose|j: int| 0 <= j < i && touches(#[trigger] trades@[j], self.weth);
                    assert(0 <= j < i + 1);
                }
                if !trades_weth {
                    assert forall|j: int| 0 <= j < i + 1 implies !touches(#[trigger] trades@[j], self.weth) by {
                        if j < i {
                        }
                    }
                }
            }
            i = i + 1;
        }
        assert(buys_eth == self.buys_eth());
        proof {
            if trades_weth {
                let j = choose|j: int| 0 <= j < i && touches(#[trigger] trades@[j], self.weth);
                assert(touches(user_trades(self.trades@)[j], self.weth));
            }
            if self.trades_weth() {
                let j = choose|j: int| 0 <= j < user_trades(self.trades@).len() && touches(#[trigger] user_trades(self.trades@)[j], self.weth);
                assert(touches(trades@[j], self.weth));
            }
            if buys_eth {
                let j = choose|j: int| 0 <= j < i && buys_native(#[trigger] trades@[j]);
                assert(buys_native(user_trades(self.trades@)[j]));
            }
            if self.buys_eth() {
                let j = choose|j: int| 0 <= j < user_trades(self.trades@).len() && buys_native(#[trigger] user_trades(self.trades@)[j]);
                assert(buys_native(trades@[j]));
            }
        }
        if !buys_eth {
            return Ok(copy_assets(self.prices.assets()));
        }
        let weth_price = match find_asset(self.prices.assets(), &self.weth) {
            Some(p) => p,
            None => return Err(Error::MissingWethClearingPrice),
        };
        let mut kept = if trades_weth {
            copy_assets(self.prices.assets())
        } else {
            strip_token(self.prices.assets(), &self.weth)
        };
        kept.push(Asset { token: eth, amount: weth_price });
        assert(eth.0@ =~= crate::external_prices::buy_eth_spec().0@);
        assert(eth.0 =~= crate::external_prices::buy_eth_spec().0);
        Ok(kept)
    }

    /// The clearing price of `token`; the native token's placeholder has the
    /// price of the wrapped token.
    pub fn price(&self, token: &H160) -> (r: Option<U256>)
        ensures
            r == price_of(
                self.prices.entries(),
                if token.0@ == crate::external_prices::buy_eth_spec().0@ {
                    self.weth.0@
                } else {
                    token.0@
                },
            ),
    {
        let eth = buy_eth_address();
        if h160_eq(token, &eth) {
            find_asset(self.prices.assets(), &self.weth)
        } else {
            find_asset(self.prices.assets(), token)
        }
    }
}

fn copy_assets(prices: &Vec<Asset>) -> (r: Vec<Asset>)
    ensures
        r@ == prices@,
{
    let mut r: Vec<Asset> = Vec::new();
    let mut i: usize = 0;
    while i < prices.len()
        invariant
            0 <= i <= prices@.len(),
            r@ == prices@.subrange(0, i as int),
        decreases prices@.len() - i,
    {
        r.push(prices[i]);
        assert(r@ =~= prices@.subrange(0, i + 1));
        i = i + 1;
    }
    assert(r@ =~= prices@);
    r
}

fn strip_token(prices: &Vec<Asset>, token: &H160) -> (r: Vec<Asset>)
    ensures
        r@ == without_token(prices@, token.0@),
{
    let mut r: Vec<Asset> = Vec::new();
    let mut i: usize = 0;
    assert(prices@.subrange(0, 0) =~= Seq::<Asset>::empty());
    while i < prices.len()
        invariant
            0 <= i <= prices@.len(),
            r@ == without_token(prices@.subrange(0, i as int), token.0@),
        decreases prices@.len() - i,
    {
        let ghost next = prices@.subrange(0, i + 1);
        assert(next.drop_last() =~= prices@.subrange(0, i as int));
        assert(next.last() == prices@[i as int]);
        if !h160_eq(&prices[i].token, token) {
            r.push(prices[i]);
        }
        i = i + 1;
    }
    assert(prices@.subrange(0, prices@.len() as int) =~= prices@);
    r
}

fn find_asset(prices: &Vec<Asset>, token: &H160) -> (r: Option<U256>)
    ensures
        r == price_of(prices@, token.0@),
{
    let mut i: usize = 0;
    assert(prices@.subrange(0, prices@.len() as int) =~= prices@);
    while i < prices.len()
        invariant
            0 <= i <= prices@.len(),
            price_of(prices@, token.0@) == price_of(prices@.subrange(i as int, prices@.len() as int), token.0@),
        decreases prices@.len() - i,
    {
        let ghost rest = prices@.subrange(i as int, prices@.len() as int);
        assert(rest.drop_first() =~= prices@.subrange(i + 1, prices@.len() as int));
        assert(rest[0] == prices@[i as int]);
        if h160_eq(&prices[i].token, token) {
            return Some(prices[i].amount);
        }
        i = i + 1;
    }
    assert(prices@.subrange(i as int, prices@.len() as int).len() == 0);
    None
}

/// Who may spend which token for the settlement contract.
#[derive(Debug, Clone, Copy, PartialEq, Eq)]
pub struct Spender {
    pub address: H160,
    pub token: H160,
}

/// An amount that a spender needs to be allowed.
#[derive(Debug, Clone, Copy, PartialEq, Eq)]
pub struct Allowance {
    pub spender: Spender,
    pub amount: U256,
}

pub open spec fn same_spender(a: Spender, b: Spender) -> bool {
    a.address.0@ == b.address.0@ && a.token.0@ == b.token.0@
}

/// The required allowances with one entry per spender, in order of first
/// appearance, each the sum of that spender's amounts, stopping at
/// `U256::MAX`.
pub open spec fn normalized_allowances(s: Seq<Allowance>) -> Seq<(Spender, nat)>
    decreases s.len(),
{
    if s.len() == 0 {
        Seq::empty()
    } else {
        let prev = normalized_allowances(s.drop_last());
        let a = s.last();
        if exists|i: int| 0 <= i < prev.len() && same_spender(#[trigger] prev[i].0, a.spender) {
            let i = choose|i: int| 0 <= i < prev.len() && same_spender(#[trigger] prev[i].0, a.spender);
            prev.update(i, (prev[i].0, crate::settlement::sat_add(prev[i].1, crate::uint::u256_val(a.amount))))
        } else {
            prev.push((a.spender, crate::uint::u256_val(a.amount)))
        }
    }
}

pub open spec fn allowance_view(a: Allowance) -> (Spender, nat) {
    (a.spender, crate::uint::u256_val(a.amount))
}

fn find_spender(allowances: &Vec<Allowance>, spender: &Spender) -> (r: Option<usize>)
    ensures
        r matches Some(k) ==> k < allowances@.len() && same_spender(allowances@[k as int].spender, *spender),
        r is None ==> forall|j: int| 0 <= j < allowances@.len() ==> !same_spender(#[trigger] allowances@[j].spender, *spender),
{
    let mut k: usize = 0;
    while k < allowances.len()
        invariant
            0 <= k <= allowances@.len(),
            forall|j: int| 0 <= j < k ==> !same_spender(#[trigger] allowances@[j].spender, *spender),
        decreases allowances@.len() - k,
    {
        if h160_eq(&allowances[k].spender.address, &spender.address) && h160_eq(&allowances[k].spender.token, &spender.token) {
            return Some(k);
        }
        k = k + 1;
    }
    None
}

/// See `normalized_allowances`.
pub fn normalize_allowances(allowances: &Vec<Allowance>) -> (r: Vec<Allowance>)
    ensures
        r@.map_values(|a: Allowance| allowance_view(a)) == normalized_allowances(allowances@),
{
    let mut r: Vec<Allowance> = Vec::new();
    let mut i: usize = 0;
    assert(allowances@.subrange(0, 0) =~= Seq::<Allowance>::empty());
    while i < allowances.len()
        invariant
            0 <= i <= allowances@.len(),
            r@.map_values(|a: Allowance| allowance_view(a)) == normalized_allowances(allowances@.subrange(0, i as int)),
            forall|x: int, y: int| 0 <= x < y < r@.len() ==> !same_spender(#[trigger] r@[x].spender, #[trigger] r@[y].spender),
        decreases allowances@.len() - i,
    {
        let a = allowances[i];
        let ghost next = allowances@.subrange(0, i + 1);
        assert(next.drop_last() =~= allowances@.subrange(0, i as int));
        assert(next.last() == a);
        let ghost before = r@;
        let ghost prev = before.map_values(|a: Allowance| allowance_view(a));
        let found_at = find_spender(&r, &a.spender);
        if let Some(k) = found_at {
            let old_entry = r[k];
            let sum = old_entry.amount.saturating_add(a.amount);
            r.set(k, Allowance { spender: old_entry.spender, amount: sum });
            proof {
                assert(same_spender(prev[k as int].0, a.spender));
                let c = choose|c: int| 0 <= c < prev.len() && same_spender(#[trigger] prev[c].0, a.spender);
                assert(prev[c].0 == before[c].spender);
                if c != k {
                    assert(same_spender(before[c as int].spender, before[k as int].spender));
                    if c < k {
                        assert(!same_spender(before[c].spender, before[k as int].spender));
                    } else {
                        assert(!same_spender(before[k as int].spender, before[c].spender));
                    }
                }
                assert(r@.map_values(|a: Allowance| allowance_view(a)) =~= prev.update(k as int, (prev[k as int].0, crate::settlement::sat_add(prev[k as int].1, crate::uint::u256_val(a.amount)))));
            }
        } else {
            r.push(a);
            proof {
                assert(!(exists|c: int| 0 <= c < prev.len() && same_spender(#[trigger] prev[c].0, a.spender))) by {
                    if exists|c: int| 0 <= c < prev.len() && same_spender(#[trigger] prev[c].0, a.spender) {
                        let c = choose|c: int| 0 <= c < prev.len() && same_spender(#[trigger] prev[c].0, a.spender);
                        assert(prev[c].0 == before[c].spender);
                        assert(!same_spender(before[c].spender, a.spender));
                    }
                }
                assert(r@.map_values(|a: Allowance| allowance_view(a)) =~= prev.push((a.spender, crate::uint::u256_val(a.amount))));
                assert forall|x: int, y: int| 0 <= x < y < r@.len() implies !same_spender(#[trigger] r@[x].spender, #[trigger] r@[y].spender) by {
                    if y == r@.len() - 1 {
                        assert(r@[x] == before[x]);
                        assert(!same_spender(before[x].spender, a.spender));
                    } else {
                        assert(r@[x] == before[x] && r@[y] == before[y]);
                    }
                }
            }
        }
        i = i + 1;
    }
    assert(allowances@.subrange(0, allowances@.len() as int) =~= allowances@);
    r
}

/// The time, in milliseconds, that a solver is given for an auction.
#[derive(Debug, Clone, Copy, PartialEq, Eq)]
pub struct SolverTimeout(pub u64);

impl SolverTimeout {
    /// The time left before `deadline`, less `buffer` for the work that
    /// follows solving, all in milliseconds; `None` where nothing is left
    /// (or more than `u64` holds).
    pub fn new(deadline: i64, buffer: i64, now: i64) -> (r: Option<SolverTimeout>)
        ensures
            r is Some <==> 0 < deadline - now - buffer <= u64::MAX,
            r matches Some(t) ==> t.0 == deadline - now - buffer,
    {
        let left: i128 = deadline as i128 - now as i128 - buffer as i128;
        if left <= 0 || left > u64::MAX as i128 {
            None
        } else {
            Some(SolverTimeout(left as u64))
        }
    }

    /// The moment, in milliseconds, by which the solver must answer.
    pub fn deadline(self, now: i64) -> (r: i64)
        requires
            now + self.0 <= i64::MAX,
        ensures
            r == now + self.0,
    {
        (now as i128 + self.0 as i128) as i64
    }
}

/// Reserves of a constant-product pool: two tokens and their amounts.
pub struct Reserves(pub [Asset; 2]);

impl Reserves {
    pub fn assets(&self) -> (r: &[Asset; 2])
        ensures
            *r == self.0,
    {
        &self.0
    }
}

/// A pool of Uniswap-v2 kind: its reserves, and its fee as a fraction.
pub struct Pool {
    pub reserves: Reserves,
    pub fee: crate::score::Rational,
}

}
