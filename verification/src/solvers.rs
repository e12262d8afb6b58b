use vstd::prelude::*;

verus! {

/// The analytic hierarchy process: criterion weights from a pairwise
/// comparison matrix, then a weighted synthesis of alternative priorities.
/// Its scoring is a closed-form computation on measured (floating-point)
/// values, outside the verified clustering core; the embedding program
/// carries it out. The marker anchors the procedure in the toolkit.
pub struct AhpSolver;

/// Probabilistic decision rules over state probabilities (expected value
/// and its pessimistic or optimistic blends). Closed-form scoring on
/// measured values, carried out by the embedding program.
pub struct ProbabilisticRulesSolver;

/// Decision rules under uncertainty (minimax, maximax, their blend, regret
/// and equal-likelihood rules). Closed-form scoring on measured values,
/// carried out by the embedding program.
pub struct DecisionRulesSolver;

/// Deterministic best-criterion choice: order the alternatives by their
/// first criterion. Closed-form scoring on measured values, carried out by
/// the embedding program.
pub struct DeterministicSolver;

/// Weighted-sum scoring with normalized criterion weights. Closed-form
/// scoring on measured values, carried out by the embedding program.
pub struct WeightedSumSolver;

/// Expected-value scoring under state probabilities. Closed-form scoring on
/// measured values, carried out by the embedding program.
pub struct RiskSolver;

} // verus!
