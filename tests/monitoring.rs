//! The alerter's decisions and the bad-token verdict.
use batch_auction::alerter::{
    can_be_settled, convert_eth_to_weth, price_query, AlertConfig, Alerter, Order, OrderClass, OrderStatus,
};
use batch_auction::bad_token::{
    create_trace_request, handle_response, retry_after, BadTokenReason, CallTrace, DetectError, TokenQuality, TransactionOutcome,
};
use batch_auction::settlement::{OrderKind, OrderUid};
use primitive_types::{H160, U256};

fn addr(text: &str) -> H160 {
    H160::from_slice(&hex::decode(text).unwrap())
}

fn order(id: u8, kind: OrderKind) -> Order {
    Order {
        kind,
        buy_token: addr("eeeeeeeeeeeeeeeeeeeeeeeeeeeeeeeeeeeeeeee"),
        buy_amount: U256::from(100),
        sell_token: addr("6b175474e89094c44da98b954eedeac495271d0f"),
        sell_amount: U256::from(200),
        uid: OrderUid([id; 56]),
        status: OrderStatus::Open,
        partially_fillable: false,
        is_liquidity_order: false,
        class: OrderClass::Market,
    }
}

const SECOND: u64 = 1000;

#[test]
fn eth_placeholder_becomes_weth() {
    let weth = addr("c02aaa39b223fe8d0a0e5c4f27ead9083c756cc2");
    assert_eq!(convert_eth_to_weth(addr("eeeeeeeeeeeeeeeeeeeeeeeeeeeeeeeeeeeeeeee")), weth);
    let other = addr("6b175474e89094c44da98b954eedeac495271d0f");
    assert_eq!(convert_eth_to_weth(other), other);
}

#[test]
fn price_query_asks_for_the_fixed_amount() {
    let q = price_query(&order(1, OrderKind::Buy));
    assert_eq!(q.amount, U256::from(100));
    assert_eq!(q.buy_token, addr("c02aaa39b223fe8d0a0e5c4f27ead9083c756cc2"));
    let q = price_query(&order(1, OrderKind::Sell));
    assert_eq!(q.amount, U256::from(200));
}

#[test]
fn matchable_when_quote_meets_limits() {
    let o = order(1, OrderKind::Sell);
    assert!(can_be_settled(&o, &U256::from(200), &U256::from(100)));
    assert!(can_be_settled(&o, &U256::from(150), &U256::from(120)));
    assert!(!can_be_settled(&o, &U256::from(201), &U256::from(120)));
    assert!(!can_be_settled(&o, &U256::from(150), &U256::from(99)));
}

fn config() -> AlertConfig {
    AlertConfig {
        time_without_trade: 600 * SECOND,
        min_order_solvable_time: 180 * SECOND,
        min_alert_interval: 1800 * SECOND,
    }
}

#[test]
fn recent_trade_resets_matchable_since() {
    let mut alerter = Alerter::new(config(), 0);
    alerter.update_open_orders(vec![order(1, OrderKind::Sell)]);
    let closed = alerter.update_open_orders(vec![order(2, OrderKind::Sell)]);
    assert_eq!(closed.len(), 1);
    assert!(alerter.observe_closed_order(OrderStatus::Fulfilled, 0));
    assert_eq!(alerter.record_matchability(0, true, 100 * SECOND), Some(0));
    assert!(alerter.traded_recently(300 * SECOND));
    assert_eq!(alerter.open_orders[0].1, None);
}

#[test]
fn alerts_once_an_order_stays_matchable_without_trades() {
    let mut alerter = Alerter::new(config(), 0);
    let closed = alerter.update_open_orders(vec![order(1, OrderKind::Sell), order(3, OrderKind::Buy)]);
    assert!(closed.is_empty());
    assert!(!alerter.traded_recently(700 * SECOND));
    assert_eq!(alerter.record_matchability(0, true, 700 * SECOND), Some(0));
    assert_eq!(alerter.record_matchability(1, false, 700 * SECOND), None);
    let matchable = vec![(alerter.open_orders[0].0, 0)];
    assert_eq!(alerter.decide_alert(&matchable, 700 * SECOND), None);
    let since = alerter.record_matchability(0, true, 900 * SECOND).unwrap();
    assert_eq!(since, 200 * SECOND);
    let matchable = vec![(alerter.open_orders[0].0, since)];
    assert_eq!(alerter.decide_alert(&matchable, 900 * SECOND), Some(order(1, OrderKind::Sell)));
    assert_eq!(alerter.last_alert, Some(900 * SECOND));
    // Too soon for another alert.
    assert_eq!(alerter.decide_alert(&matchable, 1000 * SECOND), None);
    assert_eq!(alerter.decide_alert(&matchable, 2700 * SECOND), Some(order(1, OrderKind::Sell)));
}

#[test]
fn open_orders_skip_liquidity_and_partially_fillable() {
    let mut alerter = Alerter::new(config(), 0);
    let mut liquidity = order(4, OrderKind::Sell);
    liquidity.is_liquidity_order = true;
    let mut partial = order(5, OrderKind::Sell);
    partial.partially_fillable = true;
    alerter.update_open_orders(vec![liquidity, order(6, OrderKind::Buy), partial]);
    assert_eq!(alerter.open_orders.len(), 1);
    assert_eq!(alerter.open_orders[0].0.uid, OrderUid([6; 56]));
    assert!(!alerter.observe_closed_order(OrderStatus::Cancelled, 5));
    assert_eq!(alerter.last_observed_trade, 0);
}

fn word(v: u64) -> Vec<u8> {
    let mut bytes = vec![0u8; 32];
    U256::from(v).to_big_endian(&mut bytes);
    bytes
}

fn balance(v: u64) -> CallTrace {
    CallTrace { output: word(v), transaction: None }
}

fn transfer_ok() -> CallTrace {
    CallTrace { output: Vec::new(), transaction: Some(TransactionOutcome::Succeeded { gas_used: U256::from(1) }) }
}

fn good_traces(amount: u64) -> Vec<CallTrace> {
    vec![
        balance(amount),
        balance(5),
        transfer_ok(),
        balance(5 + amount),
        balance(0),
        transfer_ok(),
        balance(5),
        balance(amount),
        transfer_ok(),
    ]
}

#[test]
fn token_with_exact_transfers_is_good() {
    let r = handle_response(&good_traces(100_000), U256::from(100_000));
    assert!(matches!(r, Ok(TokenQuality::Good)));
}

#[test]
fn fee_on_transfer_token_is_bad() {
    let mut traces = good_traces(100_000);
    traces[3] = balance(5 + 99_000);
    match handle_response(&traces, U256::from(100_000)) {
        Ok(TokenQuality::Bad { reason, .. }) => assert_eq!(reason, BadTokenReason::BalanceAfterInTransferMismatch),
        _ => panic!("expected a bad token"),
    }
    let mut traces = good_traces(100_000);
    traces[7] = balance(1);
    match handle_response(&traces, U256::from(100_000)) {
        Ok(TokenQuality::Bad { reason, .. }) => assert_eq!(reason, BadTokenReason::RecipientBalanceMismatch),
        _ => panic!("expected a bad token"),
    }
}

#[test]
fn reverted_approval_is_bad_with_its_error() {
    let mut traces = good_traces(100_000);
    traces[8] = CallTrace { output: Vec::new(), transaction: Some(TransactionOutcome::Failed("Reverted".to_string())) };
    match handle_response(&traces, U256::from(100_000)) {
        Ok(TokenQuality::Bad { reason, detail }) => {
            assert_eq!(reason, BadTokenReason::CantApproveMaxAmount);
            assert_eq!(detail, "Reverted");
        }
        _ => panic!("expected a bad token"),
    }
}

#[test]
fn changed_owner_balance_is_retried() {
    let mut traces = good_traces(100_000);
    traces[0] = balance(10);
    let r = handle_response(&traces, U256::from(100_000));
    assert!(matches!(r, Err(DetectError::BalanceChanged)));
    assert!(retry_after(0, &r));
    assert!(retry_after(1, &r));
    assert!(!retry_after(2, &r));
    assert!(!retry_after(0, &Ok(TokenQuality::Good)));
}

#[test]
fn malformed_traces_are_errors() {
    let traces = good_traces(100_000);
    assert!(matches!(handle_response(&traces[..8].iter().map(|t| CallTrace { output: t.output.clone(), transaction: None }).collect::<Vec<CallTrace>>(), U256::from(1)), Err(DetectError::UnexpectedNumberOfTraces)));
    let mut traces = good_traces(100_000);
    traces[2] = CallTrace { output: Vec::new(), transaction: None };
    assert!(matches!(handle_response(&traces, U256::from(100_000)), Err(DetectError::MissingTrace)));
    let mut traces = good_traces(100_000);
    traces[1] = CallTrace { output: vec![1, 2, 3], transaction: None };
    match handle_response(&traces, U256::from(100_000)) {
        Ok(TokenQuality::Bad { reason, .. }) => assert_eq!(reason, BadTokenReason::CantDecodeInitialSettlementBalance),
        _ => panic!("expected a bad token"),
    }
}

#[test]
fn probe_calls_encode_transfers_and_approval() {
    let token = H160([1; 20]);
    let owner = H160([2; 20]);
    let settlement = H160([3; 20]);
    let recipient = H160([4; 20]);
    let calls = create_trace_request(token, U256::from(100_000), owner, settlement, recipient);
    assert_eq!(calls.len(), 9);
    assert!(calls.iter().all(|c| c.to == token));
    assert_eq!(calls[0].from, None);
    assert_eq!(calls[0].data, [vec![0x70, 0xa0, 0x82, 0x31], vec![0; 12], vec![2; 20]].concat());
    let mut amount = vec![0u8; 32];
    amount[29..].copy_from_slice(&[0x01, 0x86, 0xa0]);
    assert_eq!(calls[2].from, Some(owner));
    assert_eq!(calls[2].data, [vec![0xa9, 0x05, 0x9c, 0xbb], vec![0; 12], vec![3; 20], amount.clone()].concat());
    assert_eq!(calls[5].from, Some(settlement));
    assert_eq!(calls[5].data, [vec![0xa9, 0x05, 0x9c, 0xbb], vec![0; 12], vec![4; 20], amount].concat());
    assert_eq!(calls[7].data, [vec![0x70, 0xa0, 0x82, 0x31], vec![0; 12], vec![4; 20]].concat());
    assert_eq!(calls[8].data, [vec![0x09, 0x5e, 0xa7, 0xb3], vec![0; 12], vec![4; 20], vec![0xff; 32]].concat());
}
