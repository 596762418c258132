//! The decisions of the alerter, which watches the order book and raises an
//! alert when no trade has been seen for a while although some open order
//! could be settled at the market price. Its queries and its clock are
//! outside: times are milliseconds on a monotonic clock.
use vstd::prelude::*;

use crate::external_prices::buy_eth_address;
use crate::settlement::{OrderKind, OrderUid};
use crate::uint::{h160_eq, u256_lt};
use primitive_types::{H160, U256};

verus! {

/// The status of an order in the order book.
#[derive(Debug, Clone, Copy, PartialEq, Eq, Structural)]
pub enum OrderStatus {
    PresignaturePending,
    Open,
    Fulfilled,
    Cancelled,
    Expired,
}

/// The class of an order in the order book.
#[derive(Debug, Clone, Copy, PartialEq, Eq, Structural)]
pub enum OrderClass {
    Market,
    Liquidity,
    Limit,
}

/// An order as the order book lists it.
#[derive(Debug, Clone, Copy, PartialEq, Eq)]
pub struct Order {
    pub kind: OrderKind,
    pub buy_token: H160,
    pub buy_amount: U256,
    pub sell_token: H160,
    pub sell_amount: U256,
    pub uid: OrderUid,
    pub status: OrderStatus,
    pub partially_fillable: bool,
    pub is_liquidity_order: bool,
    pub class: OrderClass,
}

/// The wrapped native token of mainnet.
pub open spec fn weth_spec() -> H160 {
    H160([0xc0u8, 0x2au8, 0xaau8, 0x39u8, 0xb2u8, 0x23u8, 0xfeu8, 0x8du8, 0x0au8, 0x0eu8, 0x5cu8, 0x4fu8, 0x27u8, 0xeau8, 0xd9u8, 0x08u8, 0x3cu8, 0x75u8, 0x6cu8, 0xc2u8])
}

/// The native token's placeholder becomes the wrapped native token; other
/// addresses stay.
pub fn convert_eth_to_weth(token: H160) -> (r: H160)
    ensures
        r == if token.0@ == crate::external_prices::buy_eth_spec().0@ {
            weth_spec()
        } else {
            token
        },
{
    let eth = buy_eth_address();
    if h160_eq(&token, &eth) {
        H160([0xc0, 0x2a, 0xaa, 0x39, 0xb2, 0x23, 0xfe, 0x8d, 0x0a, 0x0e, 0x5c, 0x4f, 0x27, 0xea, 0xd9, 0x08, 0x3c, 0x75, 0x6c, 0xc2])
    } else {
        token
    }
}

/// What to ask a price oracle for an order: the price of its fixed amount,
/// the buy amount of a buy order or the sell amount of a sell order.
#[derive(Debug, Clone, Copy, PartialEq, Eq)]
pub struct PriceQuery {
    pub sell_token: H160,
    pub buy_token: H160,
    /// Which amount is given.
    pub kind: OrderKind,
    pub amount: U256,
}

pub fn price_query(order: &Order) -> (r: PriceQuery)
    ensures
        r.sell_token == order.sell_token,
        r.buy_token == if order.buy_token.0@ == crate::external_prices::buy_eth_spec().0@ {
            weth_spec()
        } else {
            order.buy_token
        },
        r.kind == order.kind,
        r.amount == match order.kind {
            OrderKind::Buy => order.buy_amount,
            OrderKind::Sell => order.sell_amount,
        },
{
    let amount = match order.kind {
        OrderKind::Buy => order.buy_amount,
        OrderKind::Sell => order.sell_amount,
    };
    PriceQuery { sell_token: order.sell_token, buy_token: convert_eth_to_weth(order.buy_token), kind: order.kind, amount }
}

/// The oracle's quote meets the order's limits: it sells no more and buys
/// no less.
pub fn can_be_settled(order: &Order, quoted_sell_amount: &U256, quoted_buy_amount: &U256) -> (r: bool)
    ensures
        r == (crate::uint::u256_val(*quoted_sell_amount) <= crate::uint::u256_val(order.sell_amount) && crate::uint::u256_val(*quoted_buy_amount) >= crate::uint::u256_val(
            order.buy_amount,
        )),
{
    !u256_lt(&order.sell_amount, quoted_sell_amount) && !u256_lt(quoted_buy_amount, &order.buy_amount)
}

pub fn uid_eq(a: &OrderUid, b: &OrderUid) -> (r: bool)
    ensures
        r == (a.0@ == b.0@),
{
    let mut i: usize = 0;
    while i < 56
        invariant
            0 <= i <= 56,
            forall|j: int| 0 <= j < i ==> a.0[j] == b.0[j],
        decreases 56 - i,
    {
        if a.0[i] != b.0[i] {
            assert(a.0@[i as int] != b.0@[i as int]);
            return false;
        }
        i = i + 1;
    }
    assert(a.0@ =~= b.0@);
    true
}

/// When to alert, in milliseconds.
#[derive(Debug, Clone, Copy)]
pub struct AlertConfig {
    /// Alert only if no trade was seen for longer than this.
    pub time_without_trade: u64,
    /// Alert only about an order matchable for longer than this.
    pub min_order_solvable_time: u64,
    /// Alert at most once in this long.
    pub min_alert_interval: u64,
}

/// The alerter's memory: the open orders, each with the time since which it
/// has been matchable, the time of the last observed trade and of the last
/// alert.
pub struct Alerter {
    pub config: AlertConfig,
    pub last_observed_trade: u64,
    pub last_alert: Option<u64>,
    pub open_orders: Vec<(Order, Option<u64>)>,
}

/// Orders that the alerter watches: neither liquidity orders nor partially
/// fillable ones.
pub open spec fn watched(o: Order) -> bool {
    !o.is_liquidity_order && !o.partially_fillable
}

/// The watched orders among `s`, in order.
pub open spec fn watched_orders(s: Seq<Order>) -> Seq<Order>
    decreases s.len(),
{
    if s.len() == 0 {
        s
    } else {
        let prev = watched_orders(s.drop_last());
        if watched(s.last()) {
            prev.push(s.last())
        } else {
            prev
        }
    }
}

/// The time since which the first of `orders` with `uid` has been
/// matchable; `None` if there is none.
pub open spec fn since_of(orders: Seq<(Order, Option<u64>)>, uid: OrderUid) -> Option<u64>
    decreases orders.len(),
{
    if orders.len() == 0 {
        None
    } else if orders[0].0.uid.0@ == uid.0@ {
        orders[0].1
    } else {
        since_of(orders.drop_first(), uid)
    }
}

pub open spec fn uid_in(orders: Seq<(Order, Option<u64>)>, uid: OrderUid) -> bool {
    exists|i: int| 0 <= i < orders.len() && (#[trigger] orders[i]).0.uid.0@ == uid.0@
}

pub open spec fn saturating_sub(a: u64, b: u64) -> u64 {
    if a >= b {
        (a - b) as u64
    } else {
        0
    }
}

impl Alerter {
    pub fn new(config: AlertConfig, now: u64) -> (r: Alerter)
        ensures
            r.last_observed_trade == now,
            r.last_alert is None,
            r.open_orders@.len() == 0,
    {
        Alerter { config, last_observed_trade: now, last_alert: None, open_orders: Vec::new() }
    }

    /// Takes the open orders of the order book: the watched ones become the
    /// open orders, in order, each keeping the time since which it was
    /// matchable if it was open before. Returns the orders that were open
    /// before and are not any more, whose status is to be checked.
    pub fn update_open_orders(&mut self, orders: Vec<Order>) -> (closed: Vec<Order>)
        ensures
            final(self).open_orders@.map_values(|p: (Order, Option<u64>)| p.0) == watched_orders(orders@),
            forall|i: int| 0 <= i < final(self).open_orders@.len() ==> (#[trigger] final(self).open_orders@[i]).1 == since_of(
                old(self).open_orders@,
                final(self).open_orders@[i].0.uid,
            ),
            forall|i: int| 0 <= i < closed@.len() ==> !uid_in(final(self).open_orders@, #[trigger] closed@[i].uid) && uid_in(
                old(self).open_orders@,
                closed@[i].uid,
            ),
            forall|i: int| 0 <= i < old(self).open_orders@.len() && !uid_in(final(self).open_orders@, #[trigger] old(self).open_orders@[i].0.uid) ==> closed@.contains(
                old(self).open_orders@[i].0,
            ),
            final(self).last_observed_trade == old(self).last_observed_trade,
            final(self).last_alert == old(self).last_alert,
            final(self).config == old(self).config,
    {
        let mut next: Vec<(Order, Option<u64>)> = Vec::new();
        let mut i: usize = 0;
        assert(orders@.subrange(0, 0) =~= Seq::<Order>::empty());
        while i < orders.len()
            invariant
                0 <= i <= orders@.len(),
                next@.map_values(|p: (Order, Option<u64>)| p.0) == watched_orders(orders@.subrange(0, i as int)),
                forall|j: int| 0 <= j < next@.len() ==> (#[trigger] next@[j]).1 == since_of(self.open_orders@, next@[j].0.uid),
            decreases orders@.len() - i,
        {
            let o = orders[i];
            let ghost prefix = orders@.subrange(0, i + 1);
            assert(prefix.drop_last() =~= orders@.subrange(0, i as int));
            assert(prefix.last() == o);
            if !o.is_liquidity_order && !o.partially_fillable {
                let since = self.matchable_since_of(&o.uid);
                let ghost before = next@;
                next.push((o, since));
                assert(next@.map_values(|p: (Order, Option<u64>)| p.0) =~= before.map_values(|p: (Order, Option<u64>)| p.0).push(o));
            }
            i = i + 1;
        }
        assert(orders@.subrange(0, orders@.len() as int) =~= orders@);
        let mut previous = next;
        std::mem::swap(&mut self.open_orders, &mut previous);
        let mut closed: Vec<Order> = Vec::new();
        let mut k: usize = 0;
        while k < previous.len()
            invariant
                0 <= k <= previous@.len(),
                forall|j: int| 0 <= j < closed@.len() ==> !uid_in(self.open_orders@, #[trigger] closed@[j].uid) && uid_in(
                    previous@,
                    closed@[j].uid,
                ),
                forall|j: int| 0 <= j < k && !uid_in(self.open_orders@, #[trigger] previous@[j].0.uid) ==> closed@.contains(previous@[j].0),
            decreases previous@.len() - k,
        {
            let o = previous[k].0;
            let ghost before = closed@;
            if !contains_uid(&self.open_orders, &o.uid) {
                closed.push(o);
                proof {
                    assert(closed@[closed@.len() - 1] == o);
                    assert(uid_in(previous@, o.uid)) by {
                        assert(previous@[k as int].0.uid.0@ == o.uid.0@);
                    }
                    assert forall|j: int| 0 <= j < k && !uid_in(self.open_orders@, #[trigger] previous@[j].0.uid) implies closed@.contains(previous@[j].0) by {
                        let m = choose|m: int| 0 <= m < before.len() && before[m] == previous@[j].0;
                        assert(closed@[m] == previous@[j].0);
                    }
                    assert(closed@.contains(previous@[k as int].0)) by {
                        assert(closed@[closed@.len() - 1] == previous@[k as int].0);
                    }
                }
            }
            k = k + 1;
        }
        closed
    }

    /// The time since which the open order `uid` has been matchable.
    fn matchable_since_of(&self, uid: &OrderUid) -> (r: Option<u64>)
        ensures
            r == since_of(self.open_orders@, *uid),
    {
        let mut i: usize = 0;
        assert(self.open_orders@.subrange(0, self.open_orders@.len() as int) =~= self.open_orders@);
        while i < self.open_orders.len()
            invariant
                0 <= i <= self.open_orders@.len(),
                since_of(self.open_orders@, *uid) == since_of(
                    self.open_orders@.subrange(i as int, self.open_orders@.len() as int),
                    *uid,
                ),
            decreases self.open_orders@.len() - i,
        {
            let ghost rest = self.open_orders@.subrange(i as int, self.open_orders@.len() as int);
            assert(rest.drop_first() =~= self.open_orders@.subrange(i + 1, self.open_orders@.len() as int));
            assert(rest[0] == self.open_orders@[i as int]);
            if uid_eq(&self.open_orders[i].0.uid, uid) {
                return self.open_orders[i].1;
            }
            i = i + 1;
        }
        None
    }

    /// Takes the status of an order that closed; a fulfilled one is a trade
    /// seen `now`. Returns whether it was one.
    pub fn observe_closed_order(&mut self, status: OrderStatus, now: u64) -> (r: bool)
        ensures
            r == (status == OrderStatus::Fulfilled),
            final(self).last_observed_trade == if r {
                now
            } else {
                old(self).last_observed_trade
            },
            final(self).open_orders@ == old(self).open_orders@,
            final(self).last_alert == old(self).last_alert,
    {
        if status == OrderStatus::Fulfilled {
            self.last_observed_trade = now;
            true
        } else {
            false
        }
    }

    /// Whether a trade was seen recently enough that no alert is due. If so
    /// every open order forgets since when it was matchable: it was not
    /// checked while trades were happening.
    pub fn traded_recently(&mut self, now: u64) -> (r: bool)
        ensures
            r == (saturating_sub(now, old(self).last_observed_trade) <= old(self).config.time_without_trade),
            final(self).open_orders@.len() == old(self).open_orders@.len(),
            forall|i: int| 0 <= i < final(self).open_orders@.len() ==> (#[trigger] final(self).open_orders@[i]).0 == old(self).open_orders@[i].0
                && final(self).open_orders@[i].1 == if r {
                None
            } else {
                old(self).open_orders@[i].1
            },
            final(self).last_observed_trade == old(self).last_observed_trade,
            final(self).last_alert == old(self).last_alert,
            final(self).config == old(self).config,
    {
        let elapsed = if now >= self.last_observed_trade {
            now - self.last_observed_trade
        } else {
            0
        };
        if elapsed > self.config.time_without_trade {
            return false;
        }
        let mut i: usize = 0;
        let ghost start = self.open_orders@;
        while i < self.open_orders.len()
            invariant
                0 <= i <= self.open_orders@.len(),
                self.open_orders@.len() == start.len(),
                forall|j: int| 0 <= j < self.open_orders@.len() ==> (#[trigger] self.open_orders@[j]).0 == start[j].0 && self.open_orders@[j].1 == if j < i {
                    None
                } else {
                    start[j].1
                },
                self.last_alert == old(self).last_alert,
                self.config == old(self).config,
                self.last_observed_trade == old(self).last_observed_trade,
            decreases self.open_orders@.len() - i,
        {
            let o = self.open_orders[i].0;
            self.open_orders.set(i, (o, None));
            i = i + 1;
        }
        true
    }

    /// Takes the oracle's verdict on open order `index` at `now`: a matchable
    /// order keeps (or starts) the time since which it has been matchable and
    /// returns for how long it has been; any other forgets it.
    pub fn record_matchability(&mut self, index: usize, matchable: bool, now: u64) -> (r: Option<u64>)
        requires
            index < old(self).open_orders@.len(),
        ensures
            final(self).open_orders@.len() == old(self).open_orders@.len(),
            forall|i: int| 0 <= i < final(self).open_orders@.len() && i != index ==> #[trigger] final(self).open_orders@[i] == old(self).open_orders@[i],
            final(self).open_orders@[index as int].0 == old(self).open_orders@[index as int].0,
            final(self).open_orders@[index as int].1 == if matchable {
                match old(self).open_orders@[index as int].1 {
                    Some(t) => Some(t),
                    None => Some(now),
                }
            } else {
                None
            },
            r == if matchable {
                Some(saturating_sub(now, final(self).open_orders@[index as int].1.unwrap()))
            } else {
                None
            },
            final(self).last_observed_trade == old(self).last_observed_trade,
            final(self).last_alert == old(self).last_alert,
            final(self).config == old(self).config,
    {
        let (o, since) = self.open_orders[index];
        if matchable {
            let start = match since {
                Some(t) => t,
                None => now,
            };
            self.open_orders.set(index, (o, Some(start)));
            Some(if now >= start { now - start } else { 0 })
        } else {
            self.open_orders.set(index, (o, None));
            None
        }
    }

    /// Takes the matchable orders with how long each has been matchable.
    /// The first that has been for longer than the minimal time is alerted
    /// about, unless the last alert is too recent; returns it if so.
    pub fn decide_alert(&mut self, matchable: &Vec<(Order, u64)>, now: u64) -> (r: Option<Order>)
        ensures
            r matches Some(o) ==> exists|i: int| 0 <= i < matchable@.len() && (#[trigger] matchable@[i]).0 == o
                && matchable@[i].1 > old(self).config.min_order_solvable_time,
            r is Some ==> match old(self).last_alert {
                None => true,
                Some(t) => saturating_sub(now, t) >= old(self).config.min_alert_interval,
            },
            (exists|i: int| 0 <= i < matchable@.len() && (#[trigger] matchable@[i]).1 > old(self).config.min_order_solvable_time)
                && match old(self).last_alert {
                None => true,
                Some(t) => saturating_sub(now, t) >= old(self).config.min_alert_interval,
            } ==> r is Some,
            final(self).last_alert == if r is Some {
                Some(now)
            } else {
                old(self).last_alert
            },
            final(self).open_orders@ == old(self).open_orders@,
            final(self).last_observed_trade == old(self).last_observed_trade,
            final(self).config == old(self).config,
    {
        let mut i: usize = 0;
        while i < matchable.len()
            invariant
                0 <= i <= matchable@.len(),
                forall|j: int| 0 <= j < i ==> (#[trigger] matchable@[j]).1 <= self.config.min_order_solvable_time,
                self.last_alert == old(self).last_alert,
                self.config == old(self).config,
                self.open_orders@ == old(self).open_orders@,
                self.last_observed_trade == old(self).last_observed_trade,
            decreases matchable@.len() - i,
        {
            if matchable[i].1 > self.config.min_order_solvable_time {
                assert(matchable@[i as int].1 > old(self).config.min_order_solvable_time);
                let due = match self.last_alert {
                    None => true,
                    Some(t) => (if now >= t { now - t } else { 0 }) >= self.config.min_alert_interval,
                };
                if due {
                    self.last_alert = Some(now);
                    let o = matchable[i].0;
                    assert(matchable@[i as int].0 == o);
                    return Some(o);
                }
                return None;
            }
            i = i + 1;
        }
        None
    }
}

fn contains_uid(orders: &Vec<(Order, Option<u64>)>, uid: &OrderUid) -> (r: bool)
    ensures
        r == uid_in(orders@, *uid),
{
    let mut i: usize = 0;
    while i < orders.len()
        invariant
            0 <= i <= orders@.len(),
            forall|j: int| 0 <= j < i ==> (#[trigger] orders@[j]).0.uid.0@ != uid.0@,
        decreases orders@.len() - i,
    {
        if uid_eq(&orders[i].0.uid, uid) {
            return true;
        }
        i = i + 1;
    }
    false
}

}
