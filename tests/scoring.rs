//! Scores, optimal bids and the rating decisions.
use batch_auction::bignat::BigNat;
use batch_auction::score::{
    base_score, compute_optimal_bid, compute_score_with_success_probability, final_score,
    objective_value, BigInt, Rational, ScoreError, SettlementScore, SolverScore,
};
use batch_auction::settlement_rater::{rate_settlement, Rating, Rejection, SimulationOutcome};
use batch_auction::settlement::{trade_surplus, OrderKind};
use primitive_types::U256;

fn big(v: u64) -> BigNat {
    BigNat::from_digits(vec![v as u32, (v >> 32) as u32])
}

fn rational(negative: bool, numer: u64, denom: u64) -> Rational {
    Rational::new(negative, big(numer), big(denom)).unwrap()
}

fn value(q: &Rational) -> (i128, u128) {
    let digits = |n: &BigNat| n.digits().iter().rev().fold(0u128, |acc, d| acc * (1u128 << 32) + *d as u128);
    let numer = digits(&q.numer.magnitude) as i128;
    (if q.numer.negative { -numer } else { numer }, digits(&q.denom))
}

fn same_ratio(q: &Rational, numer: i128, denom: u128) -> bool {
    let (n, d) = value(q);
    n * denom as i128 == numer * d as i128
}

#[test]
fn probability_outside_the_unit_interval_is_an_error() {
    let objective = rational(false, 3, 1);
    assert_eq!(
        compute_score_with_success_probability(&objective, &rational(false, 3, 2)),
        Err(ScoreError::ProbabilityOutOfRange)
    );
    assert_eq!(
        compute_score_with_success_probability(&objective, &rational(true, 1, 10)),
        Err(ScoreError::ProbabilityOutOfRange)
    );
}

#[test]
fn certain_success_bids_the_objective_less_nothing() {
    // V = 3, p = 1: payoff(V - cap) = 1/2 >= 0, payoff(cap) = 1/2 > 0, so the
    // bid is V - 0 = 3.
    let r = compute_score_with_success_probability(&rational(false, 3, 1), &rational(false, 1, 1));
    assert_eq!(r, Ok(SettlementScore::Protocol(U256::from(3))));
}

#[test]
fn half_probability_bid() {
    // V = 10, p = 1/2: payoff(V - cap) = 0 >= 0 and payoff(cap) = 0 <= 0,
    // so the bid is p * V = 5.
    let bid = compute_optimal_bid(&rational(false, 10, 1), &rational(false, 1, 2)).unwrap();
    assert!(same_ratio(&bid, 5, 1));
}

#[test]
fn high_probability_bid_subtracts_the_risk() {
    // V = 10, p = 9/10: payoff(cap) > 0, bid = V - (1 - p) / p * cap = 10 - 1/18.
    let bid = compute_optimal_bid(&rational(false, 10, 1), &rational(false, 9, 10)).unwrap();
    assert!(same_ratio(&bid, 179, 18));
    let score = compute_score_with_success_probability(&rational(false, 10, 1), &rational(false, 9, 10));
    assert_eq!(score, Ok(SettlementScore::Protocol(U256::from(9))));
}

#[test]
fn small_objective_bids_its_expected_value() {
    // V = 1/4, p = 9/10: payoff(V - cap) = 19/40 >= 0 and
    // payoff(cap) = -11/40 <= 0, so the bid is p * V = 9/40.
    let bid = compute_optimal_bid(&rational(false, 1, 4), &rational(false, 9, 10)).unwrap();
    assert!(same_ratio(&bid, 9, 40));
}

#[test]
fn zero_probability_has_no_valid_bid() {
    let r = compute_score_with_success_probability(&rational(false, 1, 1), &rational(false, 0, 1));
    assert_eq!(r, Err(ScoreError::InvalidBid));
}

#[test]
fn negative_bid_is_an_invalid_score() {
    // V = -4, p = 1/2: the bid p * V is negative.
    let r = compute_score_with_success_probability(&rational(true, 4, 1), &rational(false, 1, 2));
    assert_eq!(r, Err(ScoreError::InvalidScore));
}

#[test]
fn objective_is_surplus_and_fees_less_gas() {
    // (100 + 20) - 30 * 3/2 = 75
    let q = objective_value(&U256::from(100), &U256::from(20), &U256::from(30), &rational(false, 3, 2));
    assert!(same_ratio(&q, 75, 1));
}

#[test]
fn base_scores() {
    let objective = rational(false, 75, 1);
    assert_eq!(base_score(&objective, None), SettlementScore::Protocol(U256::from(75)));
    assert_eq!(
        base_score(&objective, Some(SolverScore::Discount(U256::from(5)))),
        SettlementScore::Discounted(U256::from(70))
    );
    assert_eq!(
        base_score(&objective, Some(SolverScore::Discount(U256::from(500)))),
        SettlementScore::Discounted(U256::from(0))
    );
    assert_eq!(
        base_score(&objective, Some(SolverScore::Solver(U256::from(7)))),
        SettlementScore::Solver(U256::from(7))
    );
    assert_eq!(base_score(&rational(true, 3, 1), None), SettlementScore::Protocol(U256::from(0)));
}

#[test]
fn failing_probability_falls_back_to_base_score() {
    let objective = rational(false, 75, 1);
    let p = rational(false, 2, 1);
    assert_eq!(final_score(&objective, None, Some(&p)), SettlementScore::Protocol(U256::from(75)));
    let p = rational(false, 1, 2);
    assert_eq!(final_score(&objective, None, Some(&p)), SettlementScore::Protocol(U256::from(37)));
}

#[test]
fn rating_rejects_failed_simulations_and_poor_solvers() {
    let price = rational(false, 1, 1);
    let ok = SimulationOutcome::Success { gas_estimate: U256::from(10) };
    let run = |un: SimulationOutcome, int: SimulationOutcome, balance: u64| {
        rate_settlement(7, &un, &int, U256::from(balance), U256::from(12), U256::from(2), U256::from(100), U256::from(5), U256::from(3), &price, None, None)
    };
    assert!(matches!(run(SimulationOutcome::Failure, ok, 1000), Rating::Rejected(Rejection::UninternalizedSimulationFailed)));
    assert!(matches!(run(ok, SimulationOutcome::Failure, 1000), Rating::Rejected(Rejection::InternalizedSimulationFailed)));
    match run(ok, ok, 23) {
        Rating::Rejected(Rejection::InsufficientBalance { needs, has }) => {
            assert_eq!(needs, U256::from(24));
            assert_eq!(has, U256::from(23));
        }
        _ => panic!("expected a rejection"),
    }
    match run(ok, ok, 24) {
        Rating::Rated(rated) => {
            assert_eq!(rated.id, 7);
            assert_eq!(rated.surplus, U256::from(100));
            assert_eq!(rated.solver_fees, U256::from(5));
            assert_eq!(rated.earned_fees, U256::from(3));
            assert_eq!(rated.ranking, 0);
            assert!(same_ratio(&rated.gas_price, 1, 1));
            assert_eq!(rated.gas_estimate, U256::from(10));
            assert!(same_ratio(&rated.objective_value, 95, 1));
            assert_eq!(rated.score, SettlementScore::Protocol(U256::from(95)));
        }
        _ => panic!("expected a rating"),
    }
}

#[test]
fn big_integers_add_across_signs() {
    let a = BigInt { negative: true, magnitude: big(7) };
    let b = BigInt::from_nat(big(3));
    let s = a.add(&b);
    assert!(s.negative);
    let q = Rational::new(s.negative, s.magnitude, big(1)).unwrap();
    assert!(same_ratio(&q, -4, 1));
}

#[test]
fn zero_limit_on_either_side_gives_no_surplus() {
    let one = U256::from(1);
    let zero = U256::zero();
    for kind in [OrderKind::Sell, OrderKind::Buy] {
        assert!(trade_surplus(kind, &zero, &U256::from(5), &one, &one, &one).is_none());
        assert!(trade_surplus(kind, &U256::from(5), &zero, &one, &one, &one).is_none());
        assert!(trade_surplus(kind, &U256::from(5), &zero, &zero, &one, &one).is_none());
    }
    let s = trade_surplus(OrderKind::Sell, &U256::from(5), &U256::from(5), &zero, &one, &one).unwrap();
    assert!(s.numer.is_zero());
}
