//! Exact signed rationals, the objective value of a settlement and its
//! score, including the bid that is optimal given the probability that the
//! settlement succeeds on chain.
use vstd::prelude::*;

use crate::bignat::{nat_add, nat_div, nat_from_u256, nat_le, nat_mul, nat_sub, u256_from_nat, BigNat};
use crate::uint::u256_from_u64;
use primitive_types::U256;

verus! {

/// A signed integer of any size: a sign and a magnitude.
pub struct BigInt {
    pub negative: bool,
    pub magnitude: BigNat,
}

impl BigInt {
    pub open spec fn val(&self) -> int {
        if self.negative {
            -(self.magnitude.val() as int)
        } else {
            self.magnitude.val() as int
        }
    }

    pub fn from_nat(n: BigNat) -> (r: BigInt)
        ensures
            r.val() == n.val(),
    {
        BigInt { negative: false, magnitude: n }
    }

    pub fn duplicate(&self) -> (r: BigInt)
        ensures
            r.val() == self.val(),
    {
        BigInt { negative: self.negative, magnitude: self.magnitude.duplicate() }
    }

    pub fn neg(&self) -> (r: BigInt)
        ensures
            r.val() == -self.val(),
    {
        BigInt { negative: !self.negative, magnitude: self.magnitude.duplicate() }
    }

    pub fn add(&self, o: &BigInt) -> (r: BigInt)
        ensures
            r.val() == self.val() + o.val(),
    {
        if self.negative == o.negative {
            BigInt { negative: self.negative, magnitude: nat_add(&self.magnitude, &o.magnitude) }
        } else if nat_le(&o.magnitude, &self.magnitude) {
            BigInt { negative: self.negative, magnitude: nat_sub(&self.magnitude, &o.magnitude) }
        } else {
            BigInt { negative: o.negative, magnitude: nat_sub(&o.magnitude, &self.magnitude) }
        }
    }

    pub fn sub(&self, o: &BigInt) -> (r: BigInt)
        ensures
            r.val() == self.val() - o.val(),
    {
        self.add(&o.neg())
    }

    pub fn mul(&self, o: &BigInt) -> (r: BigInt)
        ensures
            r.val() == self.val() * o.val(),
    {
        let m = nat_mul(&self.magnitude, &o.magnitude);
        let r = BigInt { negative: self.negative != o.negative, magnitude: m };
        proof {
            let a = self.magnitude.val() as int;
            let b = o.magnitude.val() as int;
            assert((-a) * b == -(a * b)) by (nonlinear_arith);
            assert(a * (-b) == -(a * b)) by (nonlinear_arith);
            assert((-a) * (-b) == a * b) by (nonlinear_arith);
        }
        r
    }

    pub fn is_negative(&self) -> (r: bool)
        ensures
            r == (self.val() < 0),
    {
        self.negative && !self.magnitude.is_zero()
    }

    pub fn is_positive(&self) -> (r: bool)
        ensures
            r == (self.val() > 0),
    {
        !self.negative && !self.magnitude.is_zero()
    }

    pub fn le(&self, o: &BigInt) -> (r: bool)
        ensures
            r == (self.val() <= o.val()),
    {
        !o.sub(self).is_negative()
    }
}

/// An exact rational number `numer / denom`.
pub struct Rational {
    pub numer: BigInt,
    pub denom: BigNat,
}

impl Rational {
    pub open spec fn wf(&self) -> bool {
        self.denom.val() > 0
    }

    pub open spec fn num(&self) -> int {
        self.numer.val()
    }

    pub open spec fn den(&self) -> int {
        self.denom.val() as int
    }

    /// `numer / denom`, or `None` for a zero denominator.
    pub fn new(negative: bool, numer: BigNat, denom: BigNat) -> (r: Option<Rational>)
        ensures
            r is Some <==> denom.val() > 0,
            r matches Some(q) ==> q.wf() && q.numer.val() == (if negative {
                -(numer.val() as int)
            } else {
                numer.val() as int
            }) && q.denom.val() == denom.val(),
    {
        if denom.is_zero() {
            None
        } else {
            Some(Rational { numer: BigInt { negative, magnitude: numer }, denom })
        }
    }

    pub fn duplicate(&self) -> (r: Rational)
        ensures
            r.num() == self.num(),
            r.den() == self.den(),
    {
        Rational { numer: self.numer.duplicate(), denom: self.denom.duplicate() }
    }

    pub fn from_u256(v: &U256) -> (r: Rational)
        ensures
            r.wf(),
            r.num() == crate::uint::u256_val(*v),
            r.den() == 1,
    {
        Rational { numer: BigInt::from_nat(nat_from_u256(v)), denom: BigNat::from_u32(1) }
    }
}

/// The value rounded down as a `U256`: `None` where it is negative or too
/// large.
pub open spec fn floor_u256(num: int, den: int) -> Option<nat> {
    if num < 0 || num / den >= crate::uint::u256_modulus() {
        None
    } else {
        Some((num / den) as nat)
    }
}

/// See `floor_u256`.
pub fn rational_to_u256(q: &Rational) -> (r: Option<U256>)
    requires
        q.wf(),
    ensures
        r is Some <==> floor_u256(q.num(), q.den()) is Some,
        r matches Some(v) ==> crate::uint::u256_val(v) == floor_u256(q.num(), q.den()).unwrap(),
{
    if q.numer.is_negative() {
        return None;
    }
    let f = nat_div(&q.numer.magnitude, &q.denom);
    proof {
        assert(q.num() == q.numer.magnitude.val());
    }
    u256_from_nat(&f)
}

/// The objective value of a settlement: the surplus and fees it earns less
/// the cost of its gas, all in the native token.
pub open spec fn objective_value_spec(surplus: nat, fees: nat, gas: nat, gas_price: Rational) -> (int, int) {
    (((surplus + fees) * gas_price.den() - gas * gas_price.num()) as int, gas_price.den())
}

/// See `objective_value_spec`.
pub fn objective_value(surplus: &U256, fees: &U256, gas_estimate: &U256, gas_price: &Rational) -> (r: Rational)
    requires
        gas_price.wf(),
    ensures
        r.wf(),
        (r.num(), r.den()) == objective_value_spec(crate::uint::u256_val(*surplus), crate::uint::u256_val(*fees), crate::uint::u256_val(*gas_estimate), *gas_price),
{
    let earned = BigInt::from_nat(nat_add(&nat_from_u256(surplus), &nat_from_u256(fees)));
    let den = BigInt::from_nat(gas_price.denom.duplicate());
    let gas = BigInt::from_nat(nat_from_u256(gas_estimate));
    let numer = earned.mul(&den).sub(&gas.mul(&gas_price.numer));
    Rational { numer, denom: gas_price.denom.duplicate() }
}

/// The score of a rated settlement.
#[derive(Debug, Clone, Copy, PartialEq, Eq)]
pub enum SettlementScore {
    /// Chosen by the solver.
    Solver(U256),
    /// The objective value less a discount that the solver chose.
    Discounted(U256),
    /// Computed by the protocol.
    Protocol(U256),
}

/// The score, if any, that a solver sent with its settlement.
#[derive(Debug, Clone, Copy, PartialEq, Eq)]
pub enum SolverScore {
    Solver(U256),
    Discount(U256),
}

/// Why no score could be computed from a success probability.
#[derive(Debug, Clone, Copy, PartialEq, Eq)]
pub enum ScoreError {
    /// The probability is not in `[0, 1]`.
    ProbabilityOutOfRange,
    /// The payoffs at the two reference bids admit no bid.
    InvalidBid,
    /// The bid is negative or does not fit 256 bits.
    InvalidScore,
}

pub open spec fn in_unit_interval(p: Rational) -> bool {
    0 <= p.num() <= p.den()
}

/// For objective `V = a / b` and success probability `p = n / d`, with cap
/// `1/2` and no cost of failure, `2bd` times the payoff of bidding `V - 1/2`
/// and of bidding `1/2`, where
/// `payoff(x) = p * min(V - x, 1/2) - (1 - p) * min(x, 1/2)`.
pub open spec fn scaled_payoffs(a: int, b: int, n: int, d: int) -> (int, int) {
    let m = if 2 * a - b < b { 2 * a - b } else { b };
    (n * b - (d - n) * m, n * m - (d - n) * b)
}

/// The optimal bid as `(numer, denom)`, or `None` where there is none.
pub open spec fn optimal_bid_spec(a: int, b: int, n: int, d: int) -> Option<(int, int)> {
    let (at_objective_minus_cap, at_cap) = scaled_payoffs(a, b, n, d);
    if at_objective_minus_cap >= 0 && at_cap <= 0 {
        // p * V
        Some((n * a, d * b))
    } else if at_objective_minus_cap >= 0 && at_cap > 0 {
        // V - (1 - p) / p * cap
        Some((2 * n * a - (d - n) * b, 2 * n * b))
    } else if at_objective_minus_cap < 0 && at_cap > 0 {
        // p / (1 - p) * cap
        Some((n, 2 * (d - n)))
    } else {
        None
    }
}

pub open spec fn score_with_probability_spec(objective: Rational, p: Rational) -> Result<nat, ScoreError> {
    if !in_unit_interval(p) {
        Err(ScoreError::ProbabilityOutOfRange)
    } else {
        match optimal_bid_spec(objective.num(), objective.den(), p.num(), p.den()) {
            None => Err(ScoreError::InvalidBid),
            Some((num, den)) => match floor_u256(num, den) {
                None => Err(ScoreError::InvalidScore),
                Some(v) => Ok(v),
            },
        }
    }
}

/// A positive integer as a natural number.
fn positive_to_nat(x: &BigInt) -> (r: BigNat)
    requires
        x.val() > 0,
    ensures
        r.val() == x.val(),
{
    x.magnitude.duplicate()
}

/// See `optimal_bid_spec`.
pub fn compute_optimal_bid(objective: &Rational, probability_success: &Rational) -> (r: Option<Rational>)
    requires
        objective.wf(),
        probability_success.wf(),
        in_unit_interval(*probability_success),
    ensures
        r is Some <==> optimal_bid_spec(
            objective.num(),
            objective.den(),
            probability_success.num(),
            probability_success.den(),
        ) is Some,
        r matches Some(q) ==> q.wf() && (q.num(), q.den()) == optimal_bid_spec(
            objective.num(),
            objective.den(),
            probability_success.num(),
            probability_success.den(),
        ).unwrap(),
{
    let ghost (ga, gb, gn, gd) = (objective.num(), objective.den(), probability_success.num(), probability_success.den());
    let a = objective.numer.duplicate();
    let b = BigInt::from_nat(objective.denom.duplicate());
    let n = probability_success.numer.duplicate();
    let d = BigInt::from_nat(probability_success.denom.duplicate());
    let two = BigInt::from_nat(BigNat::from_u32(2));
    let objective_minus_cap = two.mul(&a).sub(&b);
    let m = if !b.le(&objective_minus_cap) {
        objective_minus_cap
    } else {
        b.duplicate()
    };
    let probability_fail = d.sub(&n);
    let payoff_objective_minus_cap = n.mul(&b).sub(&probability_fail.mul(&m));
    let payoff_cap = n.mul(&m).sub(&probability_fail.mul(&b));
    let zero = BigInt::from_nat(BigNat::zero());
    if !payoff_objective_minus_cap.is_negative() && !payoff_cap.is_positive() {
        let den = d.mul(&b);
        proof {
            assert(gd * gb > 0) by (nonlinear_arith)
                requires gd > 0, gb > 0;
        }
        Some(Rational { numer: n.mul(&a), denom: positive_to_nat(&den) })
    } else if !payoff_objective_minus_cap.is_negative() && payoff_cap.is_positive() {
        let numer = two.mul(&n).mul(&a).sub(&probability_fail.mul(&b));
        let den = two.mul(&n).mul(&b);
        proof {
            let mm = m.val();
            assert((gd - gn) * gb >= 0) by (nonlinear_arith)
                requires gd - gn >= 0, gb > 0;
            assert(gn > 0) by (nonlinear_arith)
                requires gn * mm - (gd - gn) * gb > 0, (gd - gn) * gb >= 0, gn >= 0;
            assert(2 * gn * gb > 0) by (nonlinear_arith)
                requires gn > 0, gb > 0;
        }
        Some(Rational { numer, denom: positive_to_nat(&den) })
    } else if payoff_objective_minus_cap.is_negative() && payoff_cap.is_positive() {
        let den = two.mul(&probability_fail);
        proof {
            let mm = m.val();
            assert(gn * gb >= 0) by (nonlinear_arith)
                requires gn >= 0, gb > 0;
            assert(gd - gn > 0) by (nonlinear_arith)
                requires gn * gb - (gd - gn) * mm < 0, gn * gb >= 0, gd - gn >= 0;
        }
        Some(Rational { numer: n, denom: positive_to_nat(&den) })
    } else {
        None
    }
}

/// The score of a settlement whose solver gave the probability that it
/// succeeds: the optimal bid, rounded down, as a protocol score.
pub fn compute_score_with_success_probability(objective_value: &Rational, success_probability: &Rational) -> (r: Result<SettlementScore, ScoreError>)
    requires
        objective_value.wf(),
        success_probability.wf(),
    ensures
        match score_with_probability_spec(*objective_value, *success_probability) {
            Ok(v) => r matches Ok(SettlementScore::Protocol(s)) && crate::uint::u256_val(s) == v,
            Err(e) => r == Err::<SettlementScore, ScoreError>(e),
        },
{
    if success_probability.numer.is_negative() || !success_probability.numer.le(&BigInt::from_nat(success_probability.denom.duplicate())) {
        return Err(ScoreError::ProbabilityOutOfRange);
    }
    let bid = match compute_optimal_bid(objective_value, success_probability) {
        Some(b) => b,
        None => return Err(ScoreError::InvalidBid),
    };
    match rational_to_u256(&bid) {
        Some(v) => Ok(SettlementScore::Protocol(v)),
        None => Err(ScoreError::InvalidScore),
    }
}

/// The score from a success probability fails exactly when the probability
/// lies outside `[0, 1]`, for every objective and probability in `[0, 1]`
/// whose optimal bid exists and rounds down to a `U256`.
pub proof fn lemma_score_fails_iff_probability_out_of_range(objective: Rational, p: Rational)
    requires
        objective.wf(),
        p.wf(),
        in_unit_interval(p) ==> (optimal_bid_spec(objective.num(), objective.den(), p.num(), p.den()) matches Some(bid)
            && floor_u256(bid.0, bid.1) is Some),
    ensures
        score_with_probability_spec(objective, p) is Err <==> !in_unit_interval(p),
{
}

pub open spec fn objective_or_zero(objective: Rational) -> nat {
    match floor_u256(objective.num(), objective.den()) {
        Some(v) => v,
        None => 0,
    }
}

/// A score as `(tag, value)`: tag 0 for the solver's own, 1 for a
/// discounted objective value, 2 for the protocol's.
pub open spec fn score_view(s: SettlementScore) -> (int, nat) {
    match s {
        SettlementScore::Solver(v) => (0, crate::uint::u256_val(v)),
        SettlementScore::Discounted(v) => (1, crate::uint::u256_val(v)),
        SettlementScore::Protocol(v) => (2, crate::uint::u256_val(v)),
    }
}

/// The score before any success probability is considered: the solver's
/// own, the objective value less the solver's discount (at least zero), or
/// the objective value; an objective value that is negative or too large
/// counts as zero.
pub open spec fn base_score_spec(objective: Rational, solver_score: Option<SolverScore>) -> (int, nat) {
    let o = objective_or_zero(objective);
    match solver_score {
        Some(SolverScore::Solver(s)) => (0, crate::uint::u256_val(s)),
        Some(SolverScore::Discount(d)) => (1, if crate::uint::u256_val(d) <= o {
            (o - crate::uint::u256_val(d)) as nat
        } else {
            0
        }),
        None => (2, o),
    }
}

/// The final score: the one computed from the success probability where
/// one is given and that succeeds, else the base score.
pub open spec fn final_score_spec(
    objective: Rational,
    solver_score: Option<SolverScore>,
    success_probability: Option<Rational>,
) -> (int, nat) {
    match success_probability {
        Some(p) => match score_with_probability_spec(objective, p) {
            Ok(v) => (2, v),
            Err(_) => base_score_spec(objective, solver_score),
        },
        None => base_score_spec(objective, solver_score),
    }
}

/// See `base_score_spec`.
pub fn base_score(objective_value: &Rational, solver_score: Option<SolverScore>) -> (r: SettlementScore)
    requires
        objective_value.wf(),
    ensures
        score_view(r) == base_score_spec(*objective_value, solver_score),
{
    let objective = match rational_to_u256(objective_value) {
        Some(v) => v,
        None => u256_from_u64(0),
    };
    match solver_score {
        Some(SolverScore::Solver(s)) => SettlementScore::Solver(s),
        Some(SolverScore::Discount(d)) => SettlementScore::Discounted(objective.saturating_sub(d)),
        None => SettlementScore::Protocol(objective),
    }
}

/// See `final_score_spec`.
pub fn final_score(
    objective_value: &Rational,
    solver_score: Option<SolverScore>,
    success_probability: Option<&Rational>,
) -> (r: SettlementScore)
    requires
        objective_value.wf(),
        success_probability matches Some(p) ==> p.wf(),
    ensures
        score_view(r) == final_score_spec(
            *objective_value,
            solver_score,
            match success_probability {
                Some(p) => Some(*p),
                None => None,
            },
        ),
{
    let base = base_score(objective_value, solver_score);
    match success_probability {
        Some(p) => match compute_score_with_success_probability(objective_value, p) {
            Ok(s) => s,
            Err(_) => base,
        },
        None => base,
    }
}

}
