//! The decisions of rating a settlement: it must simulate without
//! internalized interactions, then with them; the solver must be able to
//! pay for its gas; then it is scored.
use vstd::prelude::*;

use crate::score::{final_score, objective_value, Rational, SettlementScore, SolverScore};
use crate::uint::u256_lt;
use primitive_types::U256;

verus! {

/// What a simulation of the settlement gave.
#[derive(Debug, Clone, Copy, PartialEq, Eq)]
pub enum SimulationOutcome {
    Success { gas_estimate: U256 },
    Failure,
}

/// Why a settlement was not rated.
#[derive(Debug, Clone, Copy, PartialEq, Eq)]
pub enum Rejection {
    /// The settlement fails with every interaction encoded.
    UninternalizedSimulationFailed,
    /// The settlement fails with internalizable interactions left out.
    InternalizedSimulationFailed,
    /// The solver cannot pay for the gas.
    InsufficientBalance { needs: U256, has: U256 },
}

/// A settlement that can be submitted, with its score.
pub struct RatedSettlement {
    pub id: usize,
    /// The surplus it gives users, in the native token.
    pub surplus: U256,
    /// The fees the protocol earns from it, in the native token.
    pub earned_fees: U256,
    /// The fees the solver charged, in the native token.
    pub solver_fees: U256,
    pub gas_estimate: U256,
    /// The effective gas price it was rated at.
    pub gas_price: Rational,
    pub objective_value: Rational,
    pub score: SettlementScore,
    /// Its place among the rated settlements, set once all are rated.
    pub ranking: usize,
}

pub enum Rating {
    Rated(RatedSettlement),
    Rejected(Rejection),
}

pub open spec fn saturating_mul_spec(a: nat, b: nat) -> nat {
    if a * b < crate::uint::u256_modulus() {
        a * b
    } else {
        (crate::uint::u256_modulus() - 1) as nat
    }
}

/// Rates settlement `id` from the outcomes of its two simulations, the
/// solver's balance, the gas limit derived from the second estimate, the
/// maximal fee per gas, the surplus, solver fees and effective gas price
/// that its objective value is made of, and the fees the protocol earns.
pub fn rate_settlement(
    id: usize,
    uninternalized: &SimulationOutcome,
    internalized: &SimulationOutcome,
    solver_balance: U256,
    gas_limit: U256,
    max_fee_per_gas: U256,
    surplus: U256,
    fees: U256,
    earned_fees: U256,
    effective_gas_price: &Rational,
    solver_score: Option<SolverScore>,
    success_probability: Option<&Rational>,
) -> (r: Rating)
    requires
        effective_gas_price.wf(),
        success_probability matches Some(p) ==> p.wf(),
    ensures
        match (*uninternalized, *internalized) {
            (SimulationOutcome::Failure, _) => r == Rating::Rejected(
                Rejection::UninternalizedSimulationFailed,
            ),
            (_, SimulationOutcome::Failure) => r == Rating::Rejected(
                Rejection::InternalizedSimulationFailed,
            ),
            (_, SimulationOutcome::Success { gas_estimate }) => {
                let needs = saturating_mul_spec(crate::uint::u256_val(gas_limit), crate::uint::u256_val(max_fee_per_gas));
                if crate::uint::u256_val(solver_balance) < needs {
                    r matches Rating::Rejected(Rejection::InsufficientBalance { needs: n, has })
                        && crate::uint::u256_val(n) == needs && has == solver_balance
                } else {
                    r matches Rating::Rated(rated) && rated.id == id && rated.surplus == surplus
                        && rated.solver_fees == fees && rated.earned_fees == earned_fees
                        && rated.ranking == 0 && rated.gas_price.num() == effective_gas_price.num()
                        && rated.gas_price.den() == effective_gas_price.den()
                        && rated.gas_estimate == gas_estimate
                        && rated.objective_value.wf() && (
                    rated.objective_value.num(),
                    rated.objective_value.den(),
                    ) == crate::score::objective_value_spec(
                        crate::uint::u256_val(surplus),
                        crate::uint::u256_val(fees),
                        crate::uint::u256_val(gas_estimate),
                        *effective_gas_price,
                    ) && crate::score::score_view(rated.score) == crate::score::final_score_spec(
                        rated.objective_value,
                        solver_score,
                        match success_probability {
                            Some(p) => Some(*p),
                            None => None,
                        },
                    )
                }
            },
        },
{
    match uninternalized {
        SimulationOutcome::Failure => return Rating::Rejected(Rejection::UninternalizedSimulationFailed),
        SimulationOutcome::Success { .. } => {},
    }
    let gas_estimate = match internalized {
        SimulationOutcome::Failure => return Rating::Rejected(Rejection::InternalizedSimulationFailed),
        SimulationOutcome::Success { gas_estimate } => *gas_estimate,
    };
    let required_balance = gas_limit.saturating_mul(max_fee_per_gas);
    if u256_lt(&solver_balance, &required_balance) {
        return Rating::Rejected(Rejection::InsufficientBalance { needs: required_balance, has: solver_balance });
    }
    let objective = objective_value(&surplus, &fees, &gas_estimate, effective_gas_price);
    let score = final_score(&objective, solver_score, success_probability);
    Rating::Rated(
        RatedSettlement {
            id,
            surplus,
            earned_fees,
            solver_fees: fees,
            gas_estimate,
            gas_price: effective_gas_price.duplicate(),
            objective_value: objective,
            score,
            ranking: 0,
        },
    )
}

}
